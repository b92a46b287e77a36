use rarog::fresh::ScopeCounter;
use rarog::scheduler::{
    EventLoopScheduler, SchedulerError, SchedulerLimits, SchedulerStep, TaskSource, WorkId,
};

fn scheduler(scopes: &mut ScopeCounter) -> EventLoopScheduler<&'static str, &'static str> {
    EventLoopScheduler::new(SchedulerLimits::try_new(8, 8).unwrap(), scopes).unwrap()
}

#[test]
fn schedulers_do_not_alias_work_ids() {
    let mut scopes = ScopeCounter::new();
    let mut first = scheduler(&mut scopes);
    let mut second = scheduler(&mut scopes);
    let first_id = first.queue_task(TaskSource::Other(1), "a").unwrap();
    let second_id = second.queue_task(TaskSource::Other(1), "a").unwrap();
    assert_ne!(first_id, second_id);
}

#[test]
fn tasks_are_fifo() {
    let mut scopes = ScopeCounter::new();
    let mut scheduler = scheduler(&mut scopes);
    let first = scheduler.queue_task(TaskSource::Networking, "first").unwrap();
    let second = scheduler.queue_task(TaskSource::UserInteraction, "second").unwrap();

    let SchedulerStep::Task(task) = scheduler.next_step().unwrap().unwrap() else {
        panic!("expected first task");
    };
    assert_eq!(task.id, first);
    assert_eq!(task.payload, "first");
    scheduler.complete(WorkId::Task(task.id)).unwrap();
    assert!(matches!(
        scheduler.next_step().unwrap().unwrap(),
        SchedulerStep::MicrotaskCheckpointComplete
    ));

    let SchedulerStep::Task(task) = scheduler.next_step().unwrap().unwrap() else {
        panic!("expected second task");
    };
    assert_eq!(task.id, second);
    assert_eq!(task.payload, "second");
}

#[test]
fn task_completion_drains_microtasks_before_the_next_task() {
    let mut scopes = ScopeCounter::new();
    let mut scheduler = scheduler(&mut scopes);
    let first = scheduler.queue_task(TaskSource::DomManipulation, "first").unwrap();
    scheduler.queue_task(TaskSource::DomManipulation, "second").unwrap();

    let step = scheduler.next_step().unwrap().unwrap();
    assert_eq!(step.work_id(), Some(WorkId::Task(first)));
    scheduler.queue_microtask("microtask").unwrap();
    scheduler.complete(WorkId::Task(first)).unwrap();

    let SchedulerStep::Microtask(microtask) = scheduler.next_step().unwrap().unwrap() else {
        panic!("expected microtask");
    };
    assert_eq!(microtask.payload, "microtask");
    scheduler.complete(WorkId::Microtask(microtask.id)).unwrap();
    assert!(matches!(
        scheduler.next_step().unwrap().unwrap(),
        SchedulerStep::MicrotaskCheckpointComplete
    ));
    assert!(matches!(scheduler.next_step().unwrap().unwrap(), SchedulerStep::Task(_)));
}

#[test]
fn microtasks_queued_during_checkpoint_join_the_same_checkpoint() {
    let mut scopes = ScopeCounter::new();
    let mut scheduler = scheduler(&mut scopes);
    let task = scheduler.queue_task(TaskSource::DomManipulation, "task").unwrap();
    scheduler.next_step().unwrap().unwrap();
    scheduler.queue_microtask("first").unwrap();
    scheduler.complete(WorkId::Task(task)).unwrap();

    let SchedulerStep::Microtask(first) = scheduler.next_step().unwrap().unwrap() else {
        panic!("expected first microtask");
    };
    scheduler.queue_microtask("second").unwrap();
    scheduler.complete(WorkId::Microtask(first.id)).unwrap();

    let SchedulerStep::Microtask(second) = scheduler.next_step().unwrap().unwrap() else {
        panic!("expected second microtask");
    };
    assert_eq!(second.payload, "second");
    scheduler.complete(WorkId::Microtask(second.id)).unwrap();
    assert!(matches!(
        scheduler.next_step().unwrap().unwrap(),
        SchedulerStep::MicrotaskCheckpointComplete
    ));
}

#[test]
fn explicit_checkpoint_drains_microtasks_without_a_task() {
    let mut scopes = ScopeCounter::new();
    let mut scheduler = scheduler(&mut scopes);
    let microtask = scheduler.queue_microtask("microtask").unwrap();
    assert!(scheduler.next_step().unwrap().is_none());
    scheduler.request_microtask_checkpoint();
    let step = scheduler.next_step().unwrap().unwrap();
    assert_eq!(step.work_id(), Some(WorkId::Microtask(microtask)));
}

#[test]
fn active_work_blocks_advancing_the_scheduler() {
    let mut scopes = ScopeCounter::new();
    let mut scheduler = scheduler(&mut scopes);
    let task = scheduler.queue_task(TaskSource::Networking, "task").unwrap();
    scheduler.next_step().unwrap().unwrap();
    assert_eq!(
        scheduler.next_step().unwrap_err(),
        SchedulerError::WorkInProgress(WorkId::Task(task))
    );
}

#[test]
fn wrong_completion_does_not_clear_active_work() {
    let mut scopes = ScopeCounter::new();
    let mut scheduler = scheduler(&mut scopes);
    let first = scheduler.queue_task(TaskSource::Networking, "first").unwrap();
    let second = scheduler.queue_task(TaskSource::Networking, "second").unwrap();
    scheduler.next_step().unwrap().unwrap();
    assert_eq!(
        scheduler.complete(WorkId::Task(second)).unwrap_err(),
        SchedulerError::WrongCompletion {
            expected: WorkId::Task(first),
            actual: WorkId::Task(second),
        }
    );
    assert_eq!(scheduler.active_work(), Some(WorkId::Task(first)));
}

#[test]
fn queued_tasks_can_be_cancelled_without_touching_active_work() {
    let mut scopes = ScopeCounter::new();
    let mut scheduler = scheduler(&mut scopes);
    let active = scheduler.queue_task(TaskSource::Timer, "active").unwrap();
    let queued = scheduler.queue_task(TaskSource::Timer, "queued").unwrap();
    scheduler.next_step().unwrap().unwrap();
    assert!(!scheduler.cancel_task(active));
    assert!(scheduler.cancel_task(queued));
    assert_eq!(scheduler.pending_task_count(), 0);
    assert_eq!(scheduler.active_work(), Some(WorkId::Task(active)));
}

#[test]
fn queue_limits_include_active_work() {
    let mut scopes = ScopeCounter::new();
    let limits = SchedulerLimits::try_new(1, 1).unwrap();
    let mut scheduler = EventLoopScheduler::new(limits, &mut scopes).unwrap();
    let task = scheduler.queue_task(TaskSource::Networking, "task").unwrap();
    scheduler.next_step().unwrap().unwrap();
    assert_eq!(
        scheduler.queue_task(TaskSource::Networking, "blocked").unwrap_err(),
        SchedulerError::TaskQueueFull
    );
    scheduler.queue_microtask("microtask").unwrap();
    scheduler.complete(WorkId::Task(task)).unwrap();
    let SchedulerStep::Microtask(microtask) = scheduler.next_step().unwrap().unwrap() else {
        panic!("expected microtask");
    };
    assert_eq!(
        scheduler.queue_microtask("blocked").unwrap_err(),
        SchedulerError::MicrotaskQueueFull
    );
    scheduler.complete(WorkId::Microtask(microtask.id)).unwrap();
}

#[test]
fn identity_exhaustion_is_reported_without_reusing_ids() {
    let mut scopes = ScopeCounter::new();
    let mut scheduler = scheduler(&mut scopes);
    scheduler.advance_serials_to(u64::MAX);
    let last = scheduler.queue_task(TaskSource::Other(7), "last").unwrap();
    assert_eq!(last.serial(), u64::MAX);
    assert_eq!(
        scheduler.queue_task(TaskSource::Other(7), "overflow").unwrap_err(),
        SchedulerError::IdentitySpaceExhausted
    );
}

#[test]
fn limits_reject_zero_capacity() {
    assert_eq!(SchedulerLimits::try_new(0, 1).unwrap_err(), SchedulerError::InvalidLimits);
    assert_eq!(SchedulerLimits::try_new(1, 0).unwrap_err(), SchedulerError::InvalidLimits);
}

#[test]
fn explicit_scope_zero_is_rejected_and_nonzero_scope_is_used() {
    let limits = SchedulerLimits::try_new(2, 2).unwrap();
    assert!(matches!(
        EventLoopScheduler::<u8, u8>::new_in_scope(limits, 0),
        Err(SchedulerError::IdentitySpaceExhausted)
    ));
    let mut scheduler = EventLoopScheduler::<u8, u8>::new_in_scope(limits, 42).unwrap();
    let task = scheduler.queue_task(TaskSource::Timer, 1).unwrap();
    assert_eq!(task.scope(), 42);
    assert_eq!(task.serial(), 1);
    let micro = scheduler.queue_microtask(2).unwrap();
    assert_eq!(micro.serial(), 2);
    assert!(!scheduler.checkpoint_due());
    assert_eq!(scheduler.pending_microtask_count(), 1);
}

#[test]
fn scope_counters_hand_out_increasing_scopes_from_one() {
    let mut scopes = ScopeCounter::new();
    assert_eq!(scopes.draw(), Some(1));
    assert_eq!(scopes.draw(), Some(2));
    let limits = SchedulerLimits::try_new(1, 1).unwrap();
    let mut a: EventLoopScheduler<&str, &str> = EventLoopScheduler::new(limits, &mut scopes).unwrap();
    let mut b: EventLoopScheduler<&str, &str> = EventLoopScheduler::new(limits, &mut scopes).unwrap();
    assert_ne!(a.queue_task(TaskSource::Other(1), "a").unwrap(), b.queue_task(TaskSource::Other(1), "a").unwrap());
    assert_eq!(scopes.draw(), Some(5));
}

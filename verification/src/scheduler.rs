//! HTML event-loop scheduling: a bounded FIFO of tasks, a bounded FIFO of
//! microtasks, one piece of active work at a time, and microtask checkpoints
//! that run after every task.
use crate::fresh::ScopeCounter;
use std::collections::VecDeque;
use vstd::prelude::*;

verus! {

/// Capacity limits of an event-loop scheduler; both limits are non-zero.
#[derive(Clone, Copy, Debug, PartialEq, Eq, Structural)]
pub struct SchedulerLimits {
    max_tasks: usize,
    max_microtasks: usize,
}

impl SchedulerLimits {
    #[verifier::type_invariant]
    spec fn limits_nonzero(self) -> bool {
        self.max_tasks > 0 && self.max_microtasks > 0
    }

    pub closed spec fn spec_max_tasks(self) -> usize {
        self.max_tasks
    }

    pub closed spec fn spec_max_microtasks(self) -> usize {
        self.max_microtasks
    }

    /// Builds limits; both must be non-zero.
    pub fn try_new(max_tasks: usize, max_microtasks: usize) -> (r: Result<Self, SchedulerError>)
        ensures
            (max_tasks == 0 || max_microtasks == 0) <==> r is Err,
            r matches Err(e) ==> e == SchedulerError::InvalidLimits,
            r matches Ok(l) ==> l.spec_max_tasks() == max_tasks && l.spec_max_microtasks()
                == max_microtasks,
    {
        if max_tasks == 0 || max_microtasks == 0 {
            return Err(SchedulerError::InvalidLimits);
        }
        Ok(SchedulerLimits { max_tasks, max_microtasks })
    }

    pub fn max_tasks(self) -> (r: usize)
        ensures
            r == self.spec_max_tasks(),
            r > 0,
    {
        proof {
            use_type_invariant(&self);
        }
        self.max_tasks
    }

    pub fn max_microtasks(self) -> (r: usize)
        ensures
            r == self.spec_max_microtasks(),
            r > 0,
    {
        proof {
            use_type_invariant(&self);
        }
        self.max_microtasks
    }
}

/// Identity of a queued task: the scope of its scheduler and a serial.
#[derive(Clone, Copy, Debug, PartialEq, Eq, PartialOrd, Ord, Hash, Structural)]
pub struct TaskId {
    scope: u64,
    serial: u64,
}

impl TaskId {
    pub closed spec fn spec_scope(self) -> u64 {
        self.scope
    }

    pub closed spec fn spec_serial(self) -> u64 {
        self.serial
    }

    pub closed spec fn spec_make(scope: u64, serial: u64) -> TaskId {
        TaskId { scope, serial }
    }

    /// The scope of the scheduler that issued this identity.
    pub fn scope(self) -> (r: u64)
        ensures
            r == self.spec_scope(),
    {
        self.scope
    }

    /// The serial of this identity within its scheduler.
    pub fn serial(self) -> (r: u64)
        ensures
            r == self.spec_serial(),
    {
        self.serial
    }

    pub proof fn lemma_make(scope: u64, serial: u64)
        ensures
            Self::spec_make(scope, serial).spec_scope() == scope,
            Self::spec_make(scope, serial).spec_serial() == serial,
    {
    }

    pub proof fn lemma_parts_determine(a: TaskId, b: TaskId)
        ensures
            (a == b) <==> (a.spec_scope() == b.spec_scope() && a.spec_serial() == b.spec_serial()),
    {
    }
}

/// Identity of a queued microtask: the scope of its scheduler and a serial.
#[derive(Clone, Copy, Debug, PartialEq, Eq, PartialOrd, Ord, Hash, Structural)]
pub struct MicrotaskId {
    scope: u64,
    serial: u64,
}

impl MicrotaskId {
    pub closed spec fn spec_scope(self) -> u64 {
        self.scope
    }

    pub closed spec fn spec_serial(self) -> u64 {
        self.serial
    }

    pub closed spec fn spec_make(scope: u64, serial: u64) -> MicrotaskId {
        MicrotaskId { scope, serial }
    }

    /// The scope of the scheduler that issued this identity.
    pub fn scope(self) -> (r: u64)
        ensures
            r == self.spec_scope(),
    {
        self.scope
    }

    /// The serial of this identity within its scheduler.
    pub fn serial(self) -> (r: u64)
        ensures
            r == self.spec_serial(),
    {
        self.serial
    }

    pub proof fn lemma_make(scope: u64, serial: u64)
        ensures
            Self::spec_make(scope, serial).spec_scope() == scope,
            Self::spec_make(scope, serial).spec_serial() == serial,
    {
    }

    pub proof fn lemma_parts_determine(a: MicrotaskId, b: MicrotaskId)
        ensures
            (a == b) <==> (a.spec_scope() == b.spec_scope() && a.spec_serial() == b.spec_serial()),
    {
    }
}

#[derive(Clone, Copy, Debug, PartialEq, Eq, PartialOrd, Ord, Hash, Structural)]
pub enum WorkId {
    Task(TaskId),
    Microtask(MicrotaskId),
}

#[derive(Clone, Copy, Debug, PartialEq, Eq, Structural)]
#[non_exhaustive]
pub enum TaskSource {
    DomManipulation,
    Networking,
    UserInteraction,
    Timer,
    Other(u32),
}

#[derive(Clone, Copy, Debug, PartialEq, Eq, Structural)]
pub enum SchedulerError {
    InvalidLimits,
    IdentitySpaceExhausted,
    TaskQueueFull,
    MicrotaskQueueFull,
    WorkInProgress(WorkId),
    NoActiveWork,
    WrongCompletion { expected: WorkId, actual: WorkId },
}

#[derive(Debug)]
pub struct ScheduledTask<T> {
    pub id: TaskId,
    pub source: TaskSource,
    pub payload: T,
}

#[derive(Debug)]
pub struct ScheduledMicrotask<M> {
    pub id: MicrotaskId,
    pub payload: M,
}

#[derive(Debug)]
pub enum SchedulerStep<T, M> {
    Task(ScheduledTask<T>),
    Microtask(ScheduledMicrotask<M>),
    MicrotaskCheckpointComplete,
}

impl<T, M> SchedulerStep<T, M> {
    pub open spec fn spec_work_id(&self) -> Option<WorkId> {
        match self {
            SchedulerStep::Task(task) => Some(WorkId::Task(task.id)),
            SchedulerStep::Microtask(microtask) => Some(WorkId::Microtask(microtask.id)),
            SchedulerStep::MicrotaskCheckpointComplete => None,
        }
    }

    /// The work that this step hands out, if any.
    pub fn work_id(&self) -> (r: Option<WorkId>)
        ensures
            r == self.spec_work_id(),
    {
        match self {
            SchedulerStep::Task(task) => Some(WorkId::Task(task.id)),
            SchedulerStep::Microtask(microtask) => Some(WorkId::Microtask(microtask.id)),
            SchedulerStep::MicrotaskCheckpointComplete => None,
        }
    }
}

/// The abstract state of a scheduler.
#[verifier::ext_equal]
pub struct SchedulerView<T, M> {
    pub max_tasks: nat,
    pub max_microtasks: nat,
    pub scope: u64,
    pub next_serial: u64,
    pub tasks: Seq<ScheduledTask<T>>,
    pub microtasks: Seq<ScheduledMicrotask<M>>,
    pub active: Option<WorkId>,
    pub checkpoint_due: bool,
}

/// A serial that is still unissued: below the next serial, or any serial once
/// the serial space has run out (the next serial is then zero).
pub open spec fn issued_before(serial: u64, next_serial: u64) -> bool {
    0 < serial && (next_serial == 0 || serial < next_serial)
}

impl<T, M> SchedulerView<T, M> {
    pub open spec fn initial(max_tasks: nat, max_microtasks: nat, scope: u64) -> Self {
        SchedulerView {
            max_tasks,
            max_microtasks,
            scope,
            next_serial: 1,
            tasks: Seq::empty(),
            microtasks: Seq::empty(),
            active: None,
            checkpoint_due: false,
        }
    }

    pub open spec fn active_task_count(self) -> nat {
        if self.active matches Some(WorkId::Task(_)) {
            1
        } else {
            0
        }
    }

    pub open spec fn active_microtask_count(self) -> nat {
        if self.active matches Some(WorkId::Microtask(_)) {
            1
        } else {
            0
        }
    }

    /// Queued tasks plus the task that is running.
    pub open spec fn outstanding_tasks(self) -> nat {
        self.tasks.len() + self.active_task_count()
    }

    /// Queued microtasks plus the microtask that is running.
    pub open spec fn outstanding_microtasks(self) -> nat {
        self.microtasks.len() + self.active_microtask_count()
    }

    pub open spec fn advanced_serial(self) -> u64 {
        if self.next_serial == u64::MAX {
            0
        } else {
            (self.next_serial + 1) as u64
        }
    }

    pub open spec fn task_id_ok(self, id: TaskId) -> bool {
        id.spec_scope() == self.scope && issued_before(id.spec_serial(), self.next_serial)
    }

    pub open spec fn microtask_id_ok(self, id: MicrotaskId) -> bool {
        id.spec_scope() == self.scope && issued_before(id.spec_serial(), self.next_serial)
    }

    /// What every reachable scheduler state satisfies: the limits hold, and
    /// every issued identity carries this scope, an already issued serial,
    /// and serials grow along each queue.
    pub open spec fn wf(self) -> bool {
        &&& 0 < self.max_tasks <= usize::MAX
        &&& 0 < self.max_microtasks <= usize::MAX
        &&& self.outstanding_tasks() <= self.max_tasks
        &&& self.outstanding_microtasks() <= self.max_microtasks
        &&& forall|i: int| 0 <= i < self.tasks.len() ==> self.task_id_ok(#[trigger] self.tasks[i].id)
        &&& forall|i: int|
            0 <= i < self.microtasks.len() ==> self.microtask_id_ok(
                #[trigger] self.microtasks[i].id,
            )
        &&& forall|i: int, j: int|
            0 <= i < j < self.tasks.len() ==> (#[trigger] self.tasks[i]).id.spec_serial()
                < (#[trigger] self.tasks[j]).id.spec_serial()
        &&& forall|i: int, j: int|
            0 <= i < j < self.microtasks.len() ==> (#[trigger] self.microtasks[i]).id.spec_serial()
                < (#[trigger] self.microtasks[j]).id.spec_serial()
        &&& match self.active {
            Some(WorkId::Task(id)) => {
                &&& self.task_id_ok(id)
                &&& forall|i: int|
                    0 <= i < self.tasks.len() ==> id.spec_serial() < (#[trigger] self.tasks[i]).id.spec_serial()
            },
            Some(WorkId::Microtask(id)) => {
                &&& self.microtask_id_ok(id)
                &&& forall|i: int|
                    0 <= i < self.microtasks.len() ==> id.spec_serial() < (
                    #[trigger] self.microtasks[i]).id.spec_serial()
            },
            None => true,
        }
    }

    pub open spec fn queue_task(self, source: TaskSource, payload: T) -> (Self, Result<TaskId, SchedulerError>) {
        if self.outstanding_tasks() >= self.max_tasks {
            (self, Err(SchedulerError::TaskQueueFull))
        } else if self.next_serial == 0 {
            (self, Err(SchedulerError::IdentitySpaceExhausted))
        } else {
            let id = TaskId::spec_make(self.scope, self.next_serial);
            (
                SchedulerView {
                    next_serial: self.advanced_serial(),
                    tasks: self.tasks.push(ScheduledTask { id, source, payload }),
                    ..self
                },
                Ok(id),
            )
        }
    }

    pub open spec fn queue_microtask(self, payload: M) -> (Self, Result<MicrotaskId, SchedulerError>) {
        if self.outstanding_microtasks() >= self.max_microtasks {
            (self, Err(SchedulerError::MicrotaskQueueFull))
        } else if self.next_serial == 0 {
            (self, Err(SchedulerError::IdentitySpaceExhausted))
        } else {
            let id = MicrotaskId::spec_make(self.scope, self.next_serial);
            (
                SchedulerView {
                    next_serial: self.advanced_serial(),
                    microtasks: self.microtasks.push(ScheduledMicrotask { id, payload }),
                    ..self
                },
                Ok(id),
            )
        }
    }

    pub open spec fn next_step(self) -> (Self, Result<Option<SchedulerStep<T, M>>, SchedulerError>) {
        if let Some(active) = self.active {
            (self, Err(SchedulerError::WorkInProgress(active)))
        } else if self.checkpoint_due {
            if self.microtasks.len() > 0 {
                let microtask = self.microtasks[0];
                (
                    SchedulerView {
                        microtasks: self.microtasks.drop_first(),
                        active: Some(WorkId::Microtask(microtask.id)),
                        ..self
                    },
                    Ok(Some(SchedulerStep::Microtask(microtask))),
                )
            } else {
                (
                    SchedulerView { checkpoint_due: false, ..self },
                    Ok(Some(SchedulerStep::MicrotaskCheckpointComplete)),
                )
            }
        } else if self.tasks.len() > 0 {
            let task = self.tasks[0];
            (
                SchedulerView {
                    tasks: self.tasks.drop_first(),
                    active: Some(WorkId::Task(task.id)),
                    ..self
                },
                Ok(Some(SchedulerStep::Task(task))),
            )
        } else {
            (self, Ok(None))
        }
    }

    pub open spec fn complete(self, work: WorkId) -> (Self, Result<(), SchedulerError>) {
        match self.active {
            None => (self, Err(SchedulerError::NoActiveWork)),
            Some(active) => if active != work {
                (self, Err(SchedulerError::WrongCompletion { expected: active, actual: work }))
            } else {
                (
                    SchedulerView {
                        active: None,
                        checkpoint_due: self.checkpoint_due || work is Task,
                        ..self
                    },
                    Ok(()),
                )
            },
        }
    }

    pub open spec fn has_queued_task(self, task: TaskId) -> bool {
        exists|i: int| 0 <= i < self.tasks.len() && self.tasks[i].id == task
    }

    /// The position of a queued task.
    pub open spec fn queued_task_index(self, task: TaskId) -> int {
        choose|i: int| 0 <= i < self.tasks.len() && self.tasks[i].id == task
    }

    pub open spec fn cancel_task(self, task: TaskId) -> (Self, bool) {
        if self.has_queued_task(task) {
            (
                SchedulerView { tasks: self.tasks.remove(self.queued_task_index(task)), ..self },
                true,
            )
        } else {
            (self, false)
        }
    }
}

#[derive(Debug)]
pub struct EventLoopScheduler<T, M> {
    limits: SchedulerLimits,
    scope: u64,
    next_serial: u64,
    tasks: VecDeque<ScheduledTask<T>>,
    microtasks: VecDeque<ScheduledMicrotask<M>>,
    active: Option<WorkId>,
    checkpoint_due: bool,
}

impl<T, M> View for EventLoopScheduler<T, M> {
    type V = SchedulerView<T, M>;

    closed spec fn view(&self) -> SchedulerView<T, M> {
        SchedulerView {
            max_tasks: self.limits.spec_max_tasks() as nat,
            max_microtasks: self.limits.spec_max_microtasks() as nat,
            scope: self.scope,
            next_serial: self.next_serial,
            tasks: self.tasks@,
            microtasks: self.microtasks@,
            active: self.active,
            checkpoint_due: self.checkpoint_due,
        }
    }
}

impl<T, M> EventLoopScheduler<T, M> {
    /// Creates a scheduler whose identities use the next scope of `scopes`;
    /// refused with `IdentitySpaceExhausted` once the counter is spent.
    pub fn new(limits: SchedulerLimits, scopes: &mut ScopeCounter) -> (r: Result<Self, SchedulerError>)
        requires
            old(scopes).spec_next() >= 1,
        ensures
            (r is Err) <==> old(scopes).spec_next() == u64::MAX,
            r is Err ==> *final(scopes) == *old(scopes),
            r matches Err(e) ==> e == SchedulerError::IdentitySpaceExhausted,
            r is Ok ==> final(scopes).spec_next() == old(scopes).spec_next() + 1,
            r matches Ok(s) ==> s@.wf() && s@ == SchedulerView::<T, M>::initial(
                limits.spec_max_tasks() as nat,
                limits.spec_max_microtasks() as nat,
                old(scopes).spec_next(),
            ),
    {
        match scopes.draw() {
            Some(scope) => Self::new_in_scope(limits, scope),
            None => Err(SchedulerError::IdentitySpaceExhausted),
        }
    }

    /// Creates a scheduler that issues identities in the given scope; a zero
    /// scope is rejected.
    pub fn new_in_scope(limits: SchedulerLimits, scope: u64) -> (r: Result<Self, SchedulerError>)
        ensures
            scope == 0 <==> r is Err,
            r matches Err(e) ==> e == SchedulerError::IdentitySpaceExhausted,
            r matches Ok(s) ==> s@.wf() && s@ == SchedulerView::<T, M>::initial(
                limits.spec_max_tasks() as nat,
                limits.spec_max_microtasks() as nat,
                scope,
            ),
    {
        if scope == 0 {
            return Err(SchedulerError::IdentitySpaceExhausted);
        }
        proof {
            use_type_invariant(&limits);
        }
        let s = EventLoopScheduler {
            limits,
            scope,
            next_serial: 1,
            tasks: VecDeque::new(),
            microtasks: VecDeque::new(),
            active: None,
            checkpoint_due: false,
        };
        assert(s@ =~= SchedulerView::<T, M>::initial(
            limits.spec_max_tasks() as nat,
            limits.spec_max_microtasks() as nat,
            scope,
        ));
        Ok(s)
    }

    pub fn queue_task(&mut self, source: TaskSource, payload: T) -> (r: Result<TaskId, SchedulerError>)
        requires
            old(self)@.wf(),
        ensures
            (final(self)@, r) == old(self)@.queue_task(source, payload),
            final(self)@.wf(),
    {
        if self.outstanding_task_count() >= self.limits.max_tasks() {
            return Err(SchedulerError::TaskQueueFull);
        }
        if self.next_serial == 0 {
            return Err(SchedulerError::IdentitySpaceExhausted);
        }
        let serial = self.allocate_serial();
        let id = TaskId { scope: self.scope, serial };
        self.tasks.push_back(ScheduledTask { id, source, payload });
        proof {
            let ov = old(self)@;
            let nv = self@;
            assert(nv =~= ov.queue_task(source, payload).0);
            assert forall|i: int| 0 <= i < nv.tasks.len() implies nv.task_id_ok(
                #[trigger] nv.tasks[i].id,
            ) by {
                if i < ov.tasks.len() {
                    assert(nv.tasks[i] == ov.tasks[i]);
                }
            }
            assert forall|i: int|
                0 <= i < nv.microtasks.len() implies nv.microtask_id_ok(
                #[trigger] nv.microtasks[i].id,
            ) by {
                assert(ov.microtask_id_ok(ov.microtasks[i].id));
            }
        }
        Ok(id)
    }

    pub fn queue_microtask(&mut self, payload: M) -> (r: Result<MicrotaskId, SchedulerError>)
        requires
            old(self)@.wf(),
        ensures
            (final(self)@, r) == old(self)@.queue_microtask(payload),
            final(self)@.wf(),
    {
        if self.outstanding_microtask_count() >= self.limits.max_microtasks() {
            return Err(SchedulerError::MicrotaskQueueFull);
        }
        if self.next_serial == 0 {
            return Err(SchedulerError::IdentitySpaceExhausted);
        }
        let serial = self.allocate_serial();
        let id = MicrotaskId { scope: self.scope, serial };
        self.microtasks.push_back(ScheduledMicrotask { id, payload });
        proof {
            let ov = old(self)@;
            let nv = self@;
            assert(nv =~= ov.queue_microtask(payload).0);
            assert forall|i: int|
                0 <= i < nv.microtasks.len() implies nv.microtask_id_ok(
                #[trigger] nv.microtasks[i].id,
            ) by {
                if i < ov.microtasks.len() {
                    assert(nv.microtasks[i] == ov.microtasks[i]);
                }
            }
            assert forall|i: int| 0 <= i < nv.tasks.len() implies nv.task_id_ok(
                #[trigger] nv.tasks[i].id,
            ) by {
                assert(ov.task_id_ok(ov.tasks[i].id));
            }
        }
        Ok(id)
    }

    /// Asks for a microtask checkpoint at the next step.
    pub fn request_microtask_checkpoint(&mut self)
        requires
            old(self)@.wf(),
        ensures
            final(self)@ == (SchedulerView { checkpoint_due: true, ..old(self)@ }),
            final(self)@.wf(),
    {
        self.checkpoint_due = true;
        assert(self@ =~= (SchedulerView { checkpoint_due: true, ..old(self)@ }));
    }

    pub fn next_step(&mut self) -> (r: Result<Option<SchedulerStep<T, M>>, SchedulerError>)
        requires
            old(self)@.wf(),
        ensures
            (final(self)@, r) == old(self)@.next_step(),
            final(self)@.wf(),
    {
        if let Some(active) = self.active {
            return Err(SchedulerError::WorkInProgress(active));
        }
        if self.checkpoint_due {
            if let Some(microtask) = self.microtasks.pop_front() {
                self.active = Some(WorkId::Microtask(microtask.id));
                proof {
                    let ov = old(self)@;
                    let nv = self@;
                    assert(nv =~= ov.next_step().0);
                    assert forall|i: int|
                        0 <= i < nv.microtasks.len() implies nv.microtask_id_ok(
                        #[trigger] nv.microtasks[i].id,
                    ) by {
                        assert(nv.microtasks[i] == ov.microtasks[i + 1]);
                    }
                    assert forall|i: int, j: int|
                        0 <= i < j < nv.microtasks.len() implies (
                        #[trigger] nv.microtasks[i]).id.spec_serial() < (
                        #[trigger] nv.microtasks[j]).id.spec_serial() by {
                        assert(nv.microtasks[i] == ov.microtasks[i + 1]);
                        assert(nv.microtasks[j] == ov.microtasks[j + 1]);
                    }
                    assert forall|i: int|
                        0 <= i < nv.microtasks.len() implies microtask.id.spec_serial() < (
                        #[trigger] nv.microtasks[i]).id.spec_serial() by {
                        assert(nv.microtasks[i] == ov.microtasks[i + 1]);
                        assert(ov.microtasks[0] == microtask);
                    }
                    assert(ov.microtask_id_ok(ov.microtasks[0].id));
                }
                return Ok(Some(SchedulerStep::Microtask(microtask)));
            }
            self.checkpoint_due = false;
            assert(self@ =~= old(self)@.next_step().0);
            return Ok(Some(SchedulerStep::MicrotaskCheckpointComplete));
        }
        if let Some(task) = self.tasks.pop_front() {
            self.active = Some(WorkId::Task(task.id));
            proof {
                let ov = old(self)@;
                let nv = self@;
                assert(nv =~= ov.next_step().0);
                assert forall|i: int| 0 <= i < nv.tasks.len() implies nv.task_id_ok(
                    #[trigger] nv.tasks[i].id,
                ) by {
                    assert(nv.tasks[i] == ov.tasks[i + 1]);
                }
                assert forall|i: int, j: int|
                    0 <= i < j < nv.tasks.len() implies (#[trigger] nv.tasks[i]).id.spec_serial()
                    < (#[trigger] nv.tasks[j]).id.spec_serial() by {
                    assert(nv.tasks[i] == ov.tasks[i + 1]);
                    assert(nv.tasks[j] == ov.tasks[j + 1]);
                }
                assert forall|i: int|
                    0 <= i < nv.tasks.len() implies task.id.spec_serial() < (
                    #[trigger] nv.tasks[i]).id.spec_serial() by {
                    assert(nv.tasks[i] == ov.tasks[i + 1]);
                    assert(ov.tasks[0] == task);
                }
                assert(ov.task_id_ok(ov.tasks[0].id));
            }
            return Ok(Some(SchedulerStep::Task(task)));
        }
        Ok(None)
    }

    pub fn complete(&mut self, work: WorkId) -> (r: Result<(), SchedulerError>)
        requires
            old(self)@.wf(),
        ensures
            (final(self)@, r) == old(self)@.complete(work),
            final(self)@.wf(),
    {
        let active = match self.active {
            None => {
                return Err(SchedulerError::NoActiveWork);
            },
            Some(active) => active,
        };
        if active != work {
            return Err(SchedulerError::WrongCompletion { expected: active, actual: work });
        }
        self.active = None;
        if let WorkId::Task(_) = work {
            self.checkpoint_due = true;
        }
        assert(self@ =~= old(self)@.complete(work).0);
        Ok(())
    }

    /// Removes a queued task; active work is never touched.
    pub fn cancel_task(&mut self, task: TaskId) -> (r: bool)
        requires
            old(self)@.wf(),
        ensures
            (final(self)@, r) == old(self)@.cancel_task(task),
            final(self)@.wf(),
    {
        let len = self.tasks.len();
        let mut i: usize = 0;
        while i < len
            invariant
                self@ == old(self)@,
                old(self)@.wf(),
                len == self@.tasks.len(),
                0 <= i <= len,
                forall|k: int| 0 <= k < i ==> self@.tasks[k].id != task,
            decreases len - i,
        {
            if self.tasks[i].id == task {
                proof {
                    let ov = old(self)@;
                    lemma_task_ids_distinct(ov);
                    let c = ov.queued_task_index(task);
                    assert(ov.has_queued_task(task));
                    assert(ov.tasks[c].id == task);
                    assert(c == i as int);
                }
                let removed = self.tasks.remove(i);
                proof {
                    let ov = old(self)@;
                    let nv = self@;
                    assert(nv =~= ov.cancel_task(task).0);
                    assert forall|k: int| 0 <= k < nv.tasks.len() implies nv.task_id_ok(
                        #[trigger] nv.tasks[k].id,
                    ) by {
                        if k < i {
                            assert(nv.tasks[k] == ov.tasks[k]);
                        } else {
                            assert(nv.tasks[k] == ov.tasks[k + 1]);
                        }
                    }
                    assert forall|a: int, b: int|
                        0 <= a < b < nv.tasks.len() implies (#[trigger] nv.tasks[a]).id.spec_serial()
                        < (#[trigger] nv.tasks[b]).id.spec_serial() by {
                        let oa = if a < i { a } else { a + 1 };
                        let ob = if b < i { b } else { b + 1 };
                        assert(nv.tasks[a] == ov.tasks[oa]);
                        assert(nv.tasks[b] == ov.tasks[ob]);
                    }
                    if let Some(WorkId::Task(id)) = ov.active {
                        assert forall|k: int|
                            0 <= k < nv.tasks.len() implies id.spec_serial() < (
                            #[trigger] nv.tasks[k]).id.spec_serial() by {
                            let ok = if k < i { k } else { k + 1 };
                            assert(nv.tasks[k] == ov.tasks[ok]);
                        }
                    }
                }
                return true;
            }
            i = i + 1;
        }
        proof {
            assert(!old(self)@.has_queued_task(task));
        }
        false
    }

    pub fn active_work(&self) -> (r: Option<WorkId>)
        ensures
            r == self@.active,
    {
        self.active
    }

    pub fn checkpoint_due(&self) -> (r: bool)
        ensures
            r == self@.checkpoint_due,
    {
        self.checkpoint_due
    }

    pub fn pending_task_count(&self) -> (r: usize)
        ensures
            r == self@.tasks.len(),
    {
        self.tasks.len()
    }

    pub fn pending_microtask_count(&self) -> (r: usize)
        ensures
            r == self@.microtasks.len(),
    {
        self.microtasks.len()
    }

    /// Moves the next serial forward, so that the serials below it are never
    /// issued. Serials already issued stay below the new value.
    pub fn advance_serials_to(&mut self, next: u64)
        requires
            old(self)@.wf(),
            old(self)@.next_serial != 0,
            old(self)@.next_serial <= next,
        ensures
            final(self)@ == (SchedulerView { next_serial: next, ..old(self)@ }),
            final(self)@.wf(),
    {
        self.next_serial = next;
        proof {
            let ov = old(self)@;
            let nv = self@;
            assert(nv =~= (SchedulerView { next_serial: next, ..ov }));
            assert forall|i: int| 0 <= i < nv.tasks.len() implies nv.task_id_ok(
                #[trigger] nv.tasks[i].id,
            ) by {
                assert(ov.task_id_ok(ov.tasks[i].id));
            }
            assert forall|i: int|
                0 <= i < nv.microtasks.len() implies nv.microtask_id_ok(
                #[trigger] nv.microtasks[i].id,
            ) by {
                assert(ov.microtask_id_ok(ov.microtasks[i].id));
            }
        }
    }

    fn allocate_serial(&mut self) -> (r: u64)
        requires
            old(self).next_serial != 0,
        ensures
            r == old(self).next_serial,
            final(self)@ == (SchedulerView { next_serial: old(self)@.advanced_serial(), ..old(self)@ }),
    {
        let serial = self.next_serial;
        self.next_serial = match self.next_serial.checked_add(1) {
            Some(next) => next,
            None => 0,
        };
        assert(self@ =~= (SchedulerView { next_serial: old(self)@.advanced_serial(), ..old(self)@ }));
        serial
    }

    fn outstanding_task_count(&self) -> (r: usize)
        requires
            self@.wf(),
        ensures
            r == self@.outstanding_tasks(),
    {
        let active: usize = if let Some(WorkId::Task(_)) = self.active { 1 } else { 0 };
        self.tasks.len() + active
    }

    fn outstanding_microtask_count(&self) -> (r: usize)
        requires
            self@.wf(),
        ensures
            r == self@.outstanding_microtasks(),
    {
        let active: usize = if let Some(WorkId::Microtask(_)) = self.active { 1 } else { 0 };
        self.microtasks.len() + active
    }
}

/// Distinct positions of the task queue hold distinct identities, and no
/// queued task carries the identity of the running task.
pub proof fn lemma_task_ids_distinct<T, M>(v: SchedulerView<T, M>)
    requires
        v.wf(),
    ensures
        forall|i: int, j: int|
            0 <= i < v.tasks.len() && 0 <= j < v.tasks.len() && i != j ==> v.tasks[i].id
                != v.tasks[j].id,
        forall|i: int|
            0 <= i < v.tasks.len() ==> v.active != Some(WorkId::Task(#[trigger] v.tasks[i].id)),
{
    assert forall|i: int, j: int|
        0 <= i < v.tasks.len() && 0 <= j < v.tasks.len() && i != j implies v.tasks[i].id
        != v.tasks[j].id by {
        if i < j {
            assert(v.tasks[i].id.spec_serial() < v.tasks[j].id.spec_serial());
        } else {
            assert(v.tasks[j].id.spec_serial() < v.tasks[i].id.spec_serial());
        }
    }
}


/// Queuing a task never changes which task runs next: the front of the task
/// queue stays the front, and a task queued into an empty queue is the next
/// one handed out.
pub proof fn lemma_tasks_leave_in_queue_order<T, M>(v: SchedulerView<T, M>, source: TaskSource, payload: T)
    requires
        v.wf(),
        v.active is None,
        !v.checkpoint_due,
        v.queue_task(source, payload).1 is Ok,
    ensures
        ({
            let (after, id) = v.queue_task(source, payload);
            let step = after.next_step().1;
            if v.tasks.len() == 0 {
                step.unwrap().unwrap().spec_work_id() == Some(WorkId::Task(id.unwrap()))
            } else {
                step.unwrap().unwrap().spec_work_id() == Some(WorkId::Task(v.tasks[0].id))
            }
        }),
{
    let (after, id) = v.queue_task(source, payload);
    assert(after.tasks[0] == if v.tasks.len() == 0 {
        ScheduledTask { id: id.unwrap(), source, payload }
    } else {
        v.tasks[0]
    });
}

/// After a task completes, the scheduler runs a microtask checkpoint before
/// any further task: the next step is the oldest queued microtask, or the end
/// of the checkpoint when none is queued.
pub proof fn lemma_completed_task_drains_microtasks_first<T, M>(v: SchedulerView<T, M>, task: TaskId)
    requires
        v.wf(),
        v.active == Some(WorkId::Task(task)),
    ensures
        ({
            let (after, done) = v.complete(WorkId::Task(task));
            &&& done is Ok
            &&& after.checkpoint_due
            &&& after.next_step().1 == if v.microtasks.len() > 0 {
                Ok::<Option<SchedulerStep<T, M>>, SchedulerError>(
                    Some(SchedulerStep::Microtask(v.microtasks[0])),
                )
            } else {
                Ok(Some(SchedulerStep::MicrotaskCheckpointComplete))
            }
        }),
{
}

/// A rejected completion leaves the scheduler as it was, active work included.
pub proof fn lemma_rejected_completion_changes_nothing<T, M>(v: SchedulerView<T, M>, work: WorkId)
    requires
        v.complete(work).1 is Err,
    ensures
        v.complete(work).0 == v,
{
}

/// While work is active, the scheduler refuses to hand out more and stays
/// unchanged.
pub proof fn lemma_active_work_blocks_next_step<T, M>(v: SchedulerView<T, M>)
    requires
        v.active is Some,
    ensures
        v.next_step().0 == v,
        v.next_step().1 == Err::<Option<SchedulerStep<T, M>>, SchedulerError>(
            SchedulerError::WorkInProgress(v.active.unwrap()),
        ),
{
}

/// Cancelling never touches the active work, and it only shrinks the queue.
pub proof fn lemma_cancel_keeps_active_work<T, M>(v: SchedulerView<T, M>, task: TaskId)
    ensures
        v.cancel_task(task).0.active == v.active,
        v.cancel_task(task).1 ==> v.cancel_task(task).0.tasks.len() + 1 == v.tasks.len(),
        !v.cancel_task(task).1 ==> v.cancel_task(task).0 == v,
{
    if v.has_queued_task(task) {
        let i = v.queued_task_index(task);
        assert(0 <= i < v.tasks.len());
    }
}

/// Cancelling removes exactly the cancelled task: it succeeds exactly when a
/// queued task has the identity, and then the new queue is the old one with
/// that one entry taken out, every other task staying queued in its order,
/// and no queued task keeps the identity. Nothing else changes.
pub proof fn lemma_cancel_removes_exactly_that_task<T, M>(v: SchedulerView<T, M>, task: TaskId)
    requires
        v.wf(),
    ensures
        v.cancel_task(task).1 <==> exists|i: int| 0 <= i < v.tasks.len() && (#[trigger] v.tasks[i]).id == task,
        v.cancel_task(task).1 ==> exists|i: int|
            0 <= i < v.tasks.len() && (#[trigger] v.tasks[i]).id == task && v.cancel_task(task).0.tasks
                == v.tasks.remove(i),
        forall|k: int|
            0 <= k < v.cancel_task(task).0.tasks.len() ==> (#[trigger] v.cancel_task(task).0.tasks[k]).id
                != task,
        v.cancel_task(task).0.microtasks == v.microtasks,
        v.cancel_task(task).0.active == v.active,
        v.cancel_task(task).0.next_serial == v.next_serial,
        v.cancel_task(task).0.scope == v.scope,
{
    let nv = v.cancel_task(task).0;
    if v.has_queued_task(task) {
        let i = v.queued_task_index(task);
        assert(0 <= i < v.tasks.len() && v.tasks[i].id == task);
        assert(nv.tasks == v.tasks.remove(i));
        assert forall|k: int| 0 <= k < nv.tasks.len() implies (#[trigger] nv.tasks[k]).id != task by {
            let ok = if k < i { k } else { k + 1 };
            assert(nv.tasks[k] == v.tasks[ok]);
            assert(ok != i);
            if ok < i {
                assert(v.tasks[ok].id.spec_serial() < v.tasks[i].id.spec_serial());
            } else {
                assert(v.tasks[i].id.spec_serial() < v.tasks[ok].id.spec_serial());
            }
        }
    } else {
        assert forall|k: int| 0 <= k < nv.tasks.len() implies (#[trigger] nv.tasks[k]).id != task by {
            assert(nv.tasks[k] == v.tasks[k]);
        }
    }
}

/// A freshly issued task identity differs from every queued identity and
/// from the active work, so identities are never reused, even once the serial
/// space is exhausted.
pub proof fn lemma_issued_task_id_is_fresh<T, M>(v: SchedulerView<T, M>, source: TaskSource, payload: T)
    requires
        v.wf(),
        v.queue_task(source, payload).1 is Ok,
    ensures
        ({
            let id = v.queue_task(source, payload).1.unwrap();
            &&& forall|i: int| 0 <= i < v.tasks.len() ==> v.tasks[i].id != id
            &&& v.active != Some(WorkId::Task(id))
            &&& id.spec_scope() == v.scope
        }),
{
    let id = v.queue_task(source, payload).1.unwrap();
    TaskId::lemma_make(v.scope, v.next_serial);
    assert forall|i: int| 0 <= i < v.tasks.len() implies v.tasks[i].id != id by {
        assert(v.task_id_ok(v.tasks[i].id));
    }
}

/// Outstanding work never exceeds the limits: the running task counts against
/// the task limit and the running microtask against the microtask limit.
pub proof fn lemma_limits_include_active_work<T, M>(v: SchedulerView<T, M>, source: TaskSource, payload: T, micro: M)
    requires
        v.wf(),
    ensures
        v.outstanding_tasks() <= v.max_tasks,
        v.outstanding_microtasks() <= v.max_microtasks,
        v.outstanding_tasks() == v.max_tasks ==> v.queue_task(source, payload).1
            == Err::<TaskId, SchedulerError>(SchedulerError::TaskQueueFull),
        v.outstanding_microtasks() == v.max_microtasks ==> v.queue_microtask(micro).1
            == Err::<MicrotaskId, SchedulerError>(SchedulerError::MicrotaskQueueFull),
{
}

/// Schedulers made one after the other from one scope counter never issue
/// the same task identity: each identity carries its scheduler's scope, and a
/// later draw from the counter is a larger scope.
pub proof fn lemma_schedulers_of_one_counter_never_alias<T, M>(
    first: ScopeCounter,
    later: ScopeCounter,
    v: SchedulerView<T, M>,
    w: SchedulerView<T, M>,
    source: TaskSource,
    payload: T,
    other_source: TaskSource,
    other_payload: T,
)
    requires
        v.wf(),
        w.wf(),
        v.scope == first.spec_next(),
        w.scope == later.spec_next(),
        first.spec_next() < later.spec_next(),
        v.queue_task(source, payload).1 is Ok,
        w.queue_task(other_source, other_payload).1 is Ok,
    ensures
        v.queue_task(source, payload).1.unwrap() != w.queue_task(other_source, other_payload).1.unwrap(),
{
    lemma_issued_task_id_is_fresh(v, source, payload);
    lemma_issued_task_id_is_fresh(w, other_source, other_payload);
}

} // verus!

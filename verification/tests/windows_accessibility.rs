use rarog::accessibility::{
    PlatformAccessibilityAction, PlatformAccessibilityError, PlatformAccessibilityErrorKind,
    PlatformAccessibilityEvent, PlatformAccessibilityEventDisposition,
    PlatformAccessibilityEventKind, PlatformAccessibilityNode, PlatformAccessibilityNodeId,
    PlatformAccessibilityRole, PlatformAccessibilitySnapshot, PlatformAccessibilitySnapshotReport,
    PlatformAccessibilityState,
};
use rarog::windows_accessibility::{
    native_event_kind, WindowsAccessibilityBridge, WindowsAccessibilityLimits,
    WindowsAccessibilityNativeErrorKind, WindowsAccessibilityNativeEventKind,
};

#[derive(Debug, Default)]
struct MockNative {
    failure: Option<WindowsAccessibilityNativeErrorKind>,
    published: Vec<(u64, WindowsAccessibilityNativeEventKind)>,
}

impl MockNative {
    fn publish(
        &mut self,
        serial: u64,
        kind: WindowsAccessibilityNativeEventKind,
    ) -> Result<(), WindowsAccessibilityNativeErrorKind> {
        if let Some(error) = self.failure {
            return Err(error);
        }
        self.published.push((serial, kind));
        Ok(())
    }
}

struct Service {
    bridge: WindowsAccessibilityBridge,
    native: MockNative,
}

impl Service {
    fn new(limits: WindowsAccessibilityLimits) -> Self {
        Service {
            bridge: WindowsAccessibilityBridge::new(limits),
            native: MockNative::default(),
        }
    }

    fn flush(&mut self) {
        while let Some((serial, kind)) = self.bridge.next_delivery() {
            match self.native.publish(serial, kind) {
                Ok(()) => self.bridge.delivery_succeeded(),
                Err(error) => {
                    self.bridge.delivery_failed(error);
                    return;
                }
            }
        }
    }

    fn replace_snapshot(
        &mut self,
        snapshot: &PlatformAccessibilitySnapshot,
    ) -> Result<PlatformAccessibilitySnapshotReport, PlatformAccessibilityError> {
        self.flush();
        self.bridge.replace_snapshot(snapshot)
    }

    fn publish_event(
        &mut self,
        event: PlatformAccessibilityEvent,
    ) -> Result<PlatformAccessibilityEventDisposition, PlatformAccessibilityError> {
        self.flush();
        let serial = self.bridge.event_provider(event)?;
        let outcome = self.native.publish(serial, native_event_kind(event.kind())).err();
        Ok(self.bridge.record_publish(event, outcome))
    }
}

fn id(serial: u64) -> PlatformAccessibilityNodeId {
    PlatformAccessibilityNodeId::try_new(11, serial).unwrap()
}

fn snapshot(
    document_generation: u64,
    geometry_revision: u64,
    include_child: bool,
) -> PlatformAccessibilitySnapshot {
    let root = id(1);
    let child = id(2);
    let mut nodes = vec![PlatformAccessibilityNode::new(
        root,
        PlatformAccessibilityRole::RootWebArea,
        "root".into(),
        PlatformAccessibilityState::default(),
        None,
        None,
        if include_child { vec![child] } else { Vec::new() },
    )];
    if include_child {
        nodes.push(PlatformAccessibilityNode::new(
            child,
            PlatformAccessibilityRole::Button,
            "save".into(),
            PlatformAccessibilityState::new(false, None, None, true),
            None,
            Some(root),
            Vec::new(),
        ));
    }
    PlatformAccessibilitySnapshot::try_new(document_generation, geometry_revision, root, nodes)
        .unwrap()
}

#[test]
fn provider_correlations_are_stable_and_absent_nodes_retire() {
    let mut service = Service::new(WindowsAccessibilityLimits::default());
    let first = snapshot(1, 1, true);
    service.replace_snapshot(&first).unwrap();
    let root_provider = service.bridge.provider_serial_for_node(id(1)).unwrap();
    let child_provider = service.bridge.provider_serial_for_node(id(2)).unwrap();
    assert_ne!(root_provider, child_provider);

    let second = snapshot(2, 2, false);
    let report = service.replace_snapshot(&second).unwrap();
    assert_eq!(report.retained_providers, 1);
    assert_eq!(report.retired_providers, 1);
    assert_eq!(service.bridge.provider_count(), 1);
    assert_eq!(service.bridge.provider_serial_for_node(id(1)), Some(root_provider));
    assert_eq!(service.bridge.provider_serial_for_node(id(2)), None);
}

#[test]
fn stale_native_action_callback_is_rejected_before_engine_queueing() {
    let mut service = Service::new(WindowsAccessibilityLimits::default());
    service.replace_snapshot(&snapshot(1, 1, true)).unwrap();
    let provider = service.bridge.provider_serial_for_node(id(2)).unwrap();
    service.replace_snapshot(&snapshot(2, 2, true)).unwrap();

    assert_eq!(
        service
            .bridge
            .accept_native_action_callback(provider, 1, 1, PlatformAccessibilityAction::Invoke)
            .unwrap_err()
            .kind(),
        PlatformAccessibilityErrorKind::StaleCorrelation
    );
    assert_eq!(service.bridge.pending_action_count(), 0);
}

#[test]
fn current_native_action_callback_enters_bounded_portable_queue() {
    let limits = WindowsAccessibilityLimits::try_new(8, 8, 1).unwrap();
    let mut service = Service::new(limits);
    service.replace_snapshot(&snapshot(3, 4, true)).unwrap();
    let provider = service.bridge.provider_serial_for_node(id(2)).unwrap();
    service
        .bridge
        .accept_native_action_callback(provider, 3, 4, PlatformAccessibilityAction::Invoke)
        .unwrap();
    assert_eq!(
        service
            .bridge
            .accept_native_action_callback(provider, 3, 4, PlatformAccessibilityAction::Invoke)
            .unwrap_err()
            .kind(),
        PlatformAccessibilityErrorKind::CapacityExceeded
    );
    let request = service.bridge.next_action_request().unwrap();
    assert_eq!(request.target(), id(2));
    assert_eq!(request.document_generation(), 3);
    assert_eq!(request.geometry_revision(), 4);
}

#[test]
fn provider_capacity_failure_is_atomic() {
    let limits = WindowsAccessibilityLimits::try_new(1, 8, 8).unwrap();
    let mut service = Service::new(limits);
    assert_eq!(
        service.replace_snapshot(&snapshot(1, 1, true)).unwrap_err().kind(),
        PlatformAccessibilityErrorKind::CapacityExceeded
    );
    assert_eq!(service.bridge.provider_count(), 0);
}

#[test]
fn failed_native_delivery_is_retained_and_retried_without_state_rollback() {
    let mut service = Service::new(WindowsAccessibilityLimits::default());
    let snapshot = snapshot(5, 2, true);
    service.replace_snapshot(&snapshot).unwrap();
    service.native.failure = Some(WindowsAccessibilityNativeErrorKind::ProviderUnavailable);
    let event = PlatformAccessibilityEvent::new(id(2), PlatformAccessibilityEventKind::NameChanged, 5);
    assert_eq!(
        service.publish_event(event).unwrap(),
        PlatformAccessibilityEventDisposition::Queued
    );
    assert_eq!(service.bridge.pending_event_count(), 1);
    assert_eq!(service.bridge.provider_count(), 2);

    service.native.failure = None;
    service.replace_snapshot(&snapshot).unwrap();
    assert_eq!(service.bridge.pending_event_count(), 0);
    assert_eq!(service.native.published.len(), 1);
}

#[test]
fn full_retry_queue_coalesces_to_current_root_tree_change() {
    let limits = WindowsAccessibilityLimits::try_new(8, 1, 8).unwrap();
    let mut service = Service::new(limits);
    service.replace_snapshot(&snapshot(7, 3, true)).unwrap();
    service.native.failure = Some(WindowsAccessibilityNativeErrorKind::ProviderUnavailable);
    for kind in [
        PlatformAccessibilityEventKind::NameChanged,
        PlatformAccessibilityEventKind::BoundsChanged,
    ] {
        assert_eq!(
            service
                .publish_event(PlatformAccessibilityEvent::new(id(2), kind, 7))
                .unwrap(),
            PlatformAccessibilityEventDisposition::Queued
        );
    }
    assert_eq!(service.bridge.pending_event_count(), 1);
    let event = service.bridge.pending_front().unwrap();
    assert_eq!(event.target(), id(1));
    assert_eq!(event.kind(), PlatformAccessibilityEventKind::TreeChanged);
}

#[test]
fn scope_change_drops_providers_events_and_actions() {
    let mut service = Service::new(WindowsAccessibilityLimits::default());
    service.replace_snapshot(&snapshot(1, 1, true)).unwrap();
    let old_root = service.bridge.provider_serial_for_node(id(1)).unwrap();
    let other_root = PlatformAccessibilityNodeId::try_new(12, 1).unwrap();
    let other = PlatformAccessibilitySnapshot::try_new(
        1,
        1,
        other_root,
        vec![PlatformAccessibilityNode::new(
            other_root,
            PlatformAccessibilityRole::RootWebArea,
            String::new(),
            PlatformAccessibilityState::default(),
            None,
            None,
            Vec::new(),
        )],
    )
    .unwrap();
    let report = service.replace_snapshot(&other).unwrap();
    assert_eq!(report.retained_providers, 0);
    assert_eq!(report.created_providers, 1);
    assert_eq!(report.retired_providers, 2);
    let new_root = service.bridge.provider_serial_for_node(other_root).unwrap();
    assert!(new_root > old_root);
    assert!(WindowsAccessibilityLimits::try_new(0, 1, 1).is_err());
}

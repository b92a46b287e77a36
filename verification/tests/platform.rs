use rarog::accessibility::{
    PlatformAccessibilityErrorKind, PlatformAccessibilityNode, PlatformAccessibilityNodeId,
    PlatformAccessibilityRect, PlatformAccessibilityRole, PlatformAccessibilitySnapshot,
    PlatformAccessibilityState,
};
use rarog::platform::{
    ClipboardError, ClipboardLimits, ClipboardText, InputLimits, KeyValue, NullPlatformHost,
    PlatformCapabilities,
    PhysicalKey, PlatformClipboardService, PlatformHost, PlatformInputError, PlatformService,
};
use std::sync::Mutex;

#[test]
fn clipboard_text_is_bounded_by_utf8_bytes() {
    let limits = ClipboardLimits { max_text_bytes: 4 };
    assert_eq!(ClipboardText::try_new("test", limits).unwrap().as_str(), "test");
    assert_eq!(
        ClipboardText::try_new("тест", limits),
        Err(ClipboardError::TextLimitExceeded { bytes: 8, limit: 4 })
    );
}

#[test]
fn clipboard_service_is_object_safe() {
    struct Fixture(Mutex<Option<ClipboardText>>);
    impl PlatformClipboardService for Fixture {
        fn read_text(&self) -> Result<Option<ClipboardText>, ClipboardError> {
            Ok(self.0.lock().unwrap().clone())
        }

        fn write_text(&self, text: &ClipboardText) -> Result<(), ClipboardError> {
            *self.0.lock().unwrap() = Some(text.clone());
            Ok(())
        }
    }

    fn round_trip(service: &dyn PlatformClipboardService) {
        let text = ClipboardText::try_new("Rarog", service.limits()).unwrap();
        service.write_text(&text).unwrap();
        assert_eq!(service.read_text().unwrap().unwrap(), text);
    }

    round_trip(&Fixture(Mutex::new(None)));
}

#[test]
fn clipboard_limits_must_be_non_zero() {
    let limits = ClipboardLimits { max_text_bytes: 0 };
    assert_eq!(ClipboardText::try_new("", limits), Err(ClipboardError::InvalidLimits));
    assert_eq!(
        ClipboardText::try_new("", ClipboardLimits { max_text_bytes: 1 }).unwrap().into_string(),
        ""
    );
}

#[test]
fn input_limits_require_non_zero_queue_and_text_budgets() {
    assert!(InputLimits::default().is_valid());
    assert!(!InputLimits {
        max_queued_events: 0,
        max_text_bytes: 1,
    }
    .is_valid());
    assert!(!InputLimits {
        max_queued_events: 1,
        max_text_bytes: 0,
    }
    .is_valid());
}

#[test]
fn key_values_and_codes_reject_empty_inputs() {
    assert_eq!(PhysicalKey::code("   "), Err(PlatformInputError::EmptyKeyCode));
    assert_eq!(KeyValue::character(""), Err(PlatformInputError::EmptyKeyValue));
    assert_eq!(KeyValue::named(" "), Err(PlatformInputError::EmptyKeyValue));
}

#[test]
fn key_values_keep_non_blank_inputs() {
    assert!(PhysicalKey::code("KeyA").is_ok());
    assert!(KeyValue::character("a").is_ok());
    assert!(KeyValue::named("Enter").is_ok());
}

#[test]
fn null_host_exposes_no_platform_services() {
    let host = NullPlatformHost;
    assert_eq!(host.name(), "none");
    assert_eq!(host.capabilities(), PlatformCapabilities::none());
    for service in [
        PlatformService::WindowEvents,
        PlatformService::FontText,
        PlatformService::InputIme,
        PlatformService::Accessibility,
        PlatformService::SandboxProcess,
        PlatformService::GpuCompositor,
    ] {
        assert!(!host.capabilities().supports(service));
        assert!(!host.offered_capabilities().supports(service));
    }
}

fn id(serial: u64) -> PlatformAccessibilityNodeId {
    PlatformAccessibilityNodeId::try_new(7, serial).unwrap()
}

fn node(serial: u64, parent: Option<u64>) -> PlatformAccessibilityNode {
    PlatformAccessibilityNode::new(
        id(serial),
        PlatformAccessibilityRole::GenericContainer,
        String::new(),
        PlatformAccessibilityState::default(),
        None,
        parent.map(id),
        Vec::new(),
    )
}

fn root_node(
    root: PlatformAccessibilityNodeId,
    parent: Option<PlatformAccessibilityNodeId>,
    children: Vec<PlatformAccessibilityNodeId>,
) -> PlatformAccessibilityNode {
    PlatformAccessibilityNode::new(
        root,
        PlatformAccessibilityRole::RootWebArea,
        String::new(),
        PlatformAccessibilityState::default(),
        None,
        parent,
        children,
    )
}

#[test]
fn snapshot_rejects_foreign_scope_and_missing_references() {
    let root = id(1);
    let foreign = PlatformAccessibilityNodeId::try_new(8, 2).unwrap();
    let nodes = vec![
        root_node(root, None, vec![foreign]),
        PlatformAccessibilityNode::new(
            foreign,
            PlatformAccessibilityRole::GenericContainer,
            String::new(),
            PlatformAccessibilityState::default(),
            None,
            Some(root),
            Vec::new(),
        ),
    ];
    assert_eq!(
        PlatformAccessibilitySnapshot::try_new(1, 1, root, nodes).unwrap_err().kind(),
        PlatformAccessibilityErrorKind::InvalidSnapshot
    );
}

#[test]
fn snapshot_rejects_root_parent_duplicate_children_and_parent_mismatch() {
    let root = id(1);
    let child = id(2);
    let root_with_parent = vec![root_node(root, Some(child), Vec::new()), node(2, Some(1))];
    assert_eq!(
        PlatformAccessibilitySnapshot::try_new(1, 1, root, root_with_parent).unwrap_err().kind(),
        PlatformAccessibilityErrorKind::InvalidSnapshot
    );

    let duplicate_child = vec![root_node(root, None, vec![child, child]), node(2, Some(1))];
    assert_eq!(
        PlatformAccessibilitySnapshot::try_new(1, 1, root, duplicate_child).unwrap_err().kind(),
        PlatformAccessibilityErrorKind::InvalidSnapshot
    );

    let parent_mismatch = vec![root_node(root, None, vec![child]), node(2, None)];
    assert_eq!(
        PlatformAccessibilitySnapshot::try_new(1, 1, root, parent_mismatch).unwrap_err().kind(),
        PlatformAccessibilityErrorKind::InvalidSnapshot
    );
}

#[test]
fn snapshot_rejects_disconnected_cycle() {
    let root = id(1);
    let second = id(2);
    let third = id(3);
    let nodes = vec![
        root_node(root, None, Vec::new()),
        PlatformAccessibilityNode::new(
            second,
            PlatformAccessibilityRole::GenericContainer,
            String::new(),
            PlatformAccessibilityState::default(),
            None,
            Some(third),
            vec![third],
        ),
        PlatformAccessibilityNode::new(
            third,
            PlatformAccessibilityRole::GenericContainer,
            String::new(),
            PlatformAccessibilityState::default(),
            None,
            Some(second),
            vec![second],
        ),
    ];
    assert_eq!(
        PlatformAccessibilitySnapshot::try_new(1, 1, root, nodes).unwrap_err().kind(),
        PlatformAccessibilityErrorKind::InvalidSnapshot
    );
}

#[test]
fn snapshot_accepts_bounded_tree_projection_shape() {
    let root = id(1);
    let child = id(2);
    let bounds = PlatformAccessibilityRect::from_bits(
        0f32.to_bits(),
        0f32.to_bits(),
        100f32.to_bits(),
        80f32.to_bits(),
    );
    let nodes = vec![
        PlatformAccessibilityNode::new(
            root,
            PlatformAccessibilityRole::RootWebArea,
            "document".into(),
            PlatformAccessibilityState::default(),
            Some(bounds),
            None,
            vec![child],
        ),
        node(2, Some(1)),
    ];
    let snapshot = PlatformAccessibilitySnapshot::try_new(4, 2, root, nodes).unwrap();
    assert_eq!(snapshot.scope(), 7);
    assert_eq!(snapshot.node_count(), 2);
    assert_eq!(snapshot.document_generation(), 4);
    assert_eq!(snapshot.geometry_revision(), 2);
}

#[test]
fn snapshot_rejects_invalid_bounds_and_zero_geometry_revision() {
    let root = id(1);
    let negative = PlatformAccessibilityRect::from_bits(
        0f32.to_bits(),
        0f32.to_bits(),
        (-1f32).to_bits(),
        1f32.to_bits(),
    );
    let nan = PlatformAccessibilityRect::from_bits(f32::NAN.to_bits(), 0, 0, 0);
    for bounds in [negative, nan] {
        let nodes = vec![PlatformAccessibilityNode::new(
            root,
            PlatformAccessibilityRole::RootWebArea,
            String::new(),
            PlatformAccessibilityState::default(),
            Some(bounds),
            None,
            Vec::new(),
        )];
        assert!(PlatformAccessibilitySnapshot::try_new(1, 1, root, nodes).is_err());
    }
    let nodes = vec![root_node(root, None, Vec::new())];
    assert!(PlatformAccessibilitySnapshot::try_new(1, 0, root, nodes).is_err());
}

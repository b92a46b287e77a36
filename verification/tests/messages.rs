use rarog::opentype::{OpenTypeShapingLimits, DEFAULT_MAX_FONT_FACES};
use rarog::platform::{ClipboardError, PlatformInputError};
use rarog::process::SiteProcessId;
use rarog::storage_protocol::StorageRequestId;
use rarog::windows_platform::{WindowsFontService, WindowsMediaBackendError, WindowsPlatformError};

#[test]
fn clipboard_and_input_errors_describe_themselves() {
    assert_eq!(
        ClipboardError::TextLimitExceeded { bytes: 9, limit: 4 }.to_string(),
        "clipboard text requires 9 bytes; limit is 4"
    );
    assert_eq!(ClipboardError::Busy.to_string(), "clipboard is currently unavailable");
    assert_eq!(
        PlatformInputError::QueueLimitExceeded { events: 3, limit: 2 }.to_string(),
        "platform input queue would contain 3 events; limit is 2"
    );
    assert_eq!(
        PlatformInputError::InvalidPressure.to_string(),
        "pointer pressure must be finite and within 0..=1"
    );
}

#[test]
fn windows_platform_errors_wrap_clipboard_errors() {
    let error = WindowsPlatformError::from(ClipboardError::InvalidLimits);
    assert_eq!(error, WindowsPlatformError::Clipboard(ClipboardError::InvalidLimits));
    assert_eq!(
        error.to_string(),
        "Windows clipboard initialization failed: clipboard limits must be non-zero"
    );
    assert_eq!(
        WindowsPlatformError::UnsupportedTarget.to_string(),
        "Windows platform host is unavailable on this target"
    );
    assert_eq!(
        WindowsMediaBackendError::InvalidLimits.to_string(),
        "Windows media limits must be non-zero"
    );
    assert_eq!(WindowsFontService::new(), WindowsFontService::default());
}

#[test]
fn identities_are_written_with_their_role() {
    assert_eq!(SiteProcessId::from_raw(12).unwrap().to_string(), "site:12");
    assert_eq!(StorageRequestId::try_new(5).unwrap().to_string(), "storage-request:5");
}

#[test]
fn opentype_limits_require_a_consistent_budget() {
    assert!(OpenTypeShapingLimits::default().is_valid());
    assert_eq!(OpenTypeShapingLimits::default().max_faces, DEFAULT_MAX_FONT_FACES);
    let inconsistent = OpenTypeShapingLimits {
        max_faces: 1,
        max_bytes_per_face: 10,
        max_total_bytes: 5,
    };
    assert!(!inconsistent.is_valid());
}

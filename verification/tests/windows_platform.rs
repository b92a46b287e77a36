use rarog::platform::{ClipboardError, ClipboardLimits, ClipboardText};
use rarog::windows_platform::{
    WindowsClipboardService, WindowsMediaBackendError, WindowsMediaBackendSnapshot,
    WindowsMediaLimits, DEFAULT_MAX_WINDOWS_MEDIA_DEMUX_SESSIONS,
};

#[test]
fn construction_validates_limits_before_target_availability() {
    assert_eq!(
        WindowsClipboardService::try_new(ClipboardLimits { max_text_bytes: 0 }, false),
        Err(ClipboardError::InvalidLimits)
    );
    assert_eq!(
        WindowsClipboardService::try_new(ClipboardLimits { max_text_bytes: 0 }, true),
        Err(ClipboardError::InvalidLimits)
    );
}

#[test]
fn clipboard_construction_matches_compilation_target() {
    assert_eq!(
        WindowsClipboardService::with_default_limits(false),
        Err(ClipboardError::UnsupportedTarget)
    );
    let service = WindowsClipboardService::with_default_limits(true)
        .expect("Windows target should expose clipboard service");
    assert_eq!(service.limits(), ClipboardLimits::default());
}

#[test]
fn service_rejects_text_created_with_a_larger_external_limit() {
    let service = WindowsClipboardService::try_new(ClipboardLimits { max_text_bytes: 4 }, true)
        .expect("Windows target should expose clipboard service");
    let text = ClipboardText::try_new(
        "Rarog",
        ClipboardLimits {
            max_text_bytes: 1024,
        },
    )
    .unwrap();
    assert_eq!(
        service.text_for_write(&text),
        Err(ClipboardError::TextLimitExceeded { bytes: 5, limit: 4 })
    );
    let short = ClipboardText::try_new("Rar", ClipboardLimits::default()).unwrap();
    assert_eq!(service.text_for_write(&short).unwrap().as_str(), "Rar");
}

#[test]
fn limits_must_be_non_zero() {
    assert_eq!(
        WindowsMediaLimits::try_new(0, 1, 1).unwrap_err(),
        WindowsMediaBackendError::InvalidLimits
    );
    assert_eq!(
        WindowsMediaLimits::try_new(1, 0, 1).unwrap_err(),
        WindowsMediaBackendError::InvalidLimits
    );
    assert_eq!(
        WindowsMediaLimits::try_new(1, 1, 0).unwrap_err(),
        WindowsMediaBackendError::InvalidLimits
    );
}

#[test]
fn media_limits_keep_their_values_and_defaults() {
    let limits = WindowsMediaLimits::try_new(2, 3, 4).unwrap();
    assert_eq!(limits.max_demux_sessions(), 2);
    assert_eq!(limits.max_decoder_sessions(), 3);
    assert_eq!(limits.max_output_sessions(), 4);
    assert_eq!(
        WindowsMediaLimits::default().max_demux_sessions(),
        DEFAULT_MAX_WINDOWS_MEDIA_DEMUX_SESSIONS
    );
    assert_eq!(WindowsMediaBackendSnapshot::default().output_sessions(), 0);
    assert_eq!(
        WindowsMediaBackendError::InvalidLimits.to_string(),
        "Windows media limits must be non-zero"
    );
}

use rarog::windows_ipc::{
    WindowsIpcEndpointName, WindowsIpcErrorKind, DEFAULT_MAX_WINDOWS_IPC_ENDPOINT_BYTES,
};

#[test]
fn windows_ipc_endpoint_names_are_bounded_and_local_tokens() {
    assert_eq!(
        WindowsIpcEndpointName::try_new("").unwrap_err().kind,
        WindowsIpcErrorKind::InvalidEndpointName
    );
    assert_eq!(
        WindowsIpcEndpointName::try_new("../remote")
            .unwrap_err()
            .kind,
        WindowsIpcErrorKind::InvalidEndpointName
    );
    assert_eq!(
        WindowsIpcEndpointName::try_new(&"x".repeat(DEFAULT_MAX_WINDOWS_IPC_ENDPOINT_BYTES + 1))
            .unwrap_err()
            .kind,
        WindowsIpcErrorKind::InvalidEndpointName
    );
    assert_eq!(
        WindowsIpcEndpointName::try_new("rarog-r4.site_1")
            .unwrap()
            .as_str(),
        "rarog-r4.site_1"
    );
}

#[test]
fn endpoint_names_accept_the_longest_token_and_reject_non_ascii() {
    let longest = "A".repeat(DEFAULT_MAX_WINDOWS_IPC_ENDPOINT_BYTES);
    assert_eq!(WindowsIpcEndpointName::try_new(&longest).unwrap().as_str(), longest);
    assert!(WindowsIpcEndpointName::try_new("naïve").is_err());
    assert!(WindowsIpcEndpointName::try_new("has space").is_err());
    assert_eq!(
        WindowsIpcEndpointName::try_new("a/b").unwrap_err().message,
        "Windows IPC endpoint names must be 1..=128 ASCII [A-Za-z0-9._-] bytes"
    );
}

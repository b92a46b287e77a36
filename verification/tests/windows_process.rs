use rarog::windows_process::{
    WindowsSiteProcessCommand, WindowsSiteProcessError, WindowsSiteProcessErrorKind,
    WindowsStorageProcessCommand, WindowsStorageProcessError, WindowsStorageProcessErrorKind,
    DEFAULT_MAX_SITE_PROCESS_ARGS, DEFAULT_MAX_STORAGE_PROCESS_ARGS,
};

#[test]
fn windows_site_process_command_is_bounded() {
    assert_eq!(
        WindowsSiteProcessCommand::try_new("").unwrap_err().kind,
        WindowsSiteProcessErrorKind::EmptyProgram
    );

    let mut command = WindowsSiteProcessCommand::try_new("rarog-site.exe").unwrap();
    for index in 0..DEFAULT_MAX_SITE_PROCESS_ARGS {
        command = command.try_arg(&index.to_string()).unwrap();
    }
    assert_eq!(
        command.try_arg("overflow").unwrap_err().kind,
        WindowsSiteProcessErrorKind::ArgumentLimitExceeded
    );
}

#[test]
fn windows_storage_process_command_is_bounded() {
    assert_eq!(
        WindowsStorageProcessCommand::try_new("").unwrap_err().kind,
        WindowsStorageProcessErrorKind::EmptyProgram
    );

    let mut command = WindowsStorageProcessCommand::try_new("rarog-storage.exe").unwrap();
    for index in 0..DEFAULT_MAX_STORAGE_PROCESS_ARGS {
        command = command.try_arg(&index.to_string()).unwrap();
    }
    assert_eq!(
        command.try_arg("overflow").unwrap_err().kind,
        WindowsStorageProcessErrorKind::ArgumentLimitExceeded
    );
}

#[test]
fn process_commands_keep_program_arguments_and_messages() {
    let command = WindowsSiteProcessCommand::try_new("rarog-site.exe")
        .unwrap()
        .try_arg("--site")
        .unwrap()
        .try_arg("https://example.com")
        .unwrap();
    assert_eq!(command.program(), "rarog-site.exe");
    assert_eq!(command.args(), ["--site".to_string(), "https://example.com".to_string()]);
    assert_eq!(
        WindowsSiteProcessCommand::try_new("").unwrap_err().to_string(),
        "Site-process program must not be empty"
    );
    let mut full = WindowsStorageProcessCommand::try_new("rarog-storage.exe").unwrap();
    for _ in 0..DEFAULT_MAX_STORAGE_PROCESS_ARGS {
        full = full.try_arg("x").unwrap();
    }
    assert_eq!(
        full.try_arg("y").unwrap_err().message,
        "Storage-process argument limit 64 reached"
    );
    assert_eq!(
        WindowsSiteProcessError::unsupported_target().message,
        "Windows Site-process launch is unavailable on this target"
    );
    assert_eq!(
        WindowsStorageProcessError::unsupported_target().kind,
        WindowsStorageProcessErrorKind::UnsupportedTarget
    );
}

use sshpass_rs::error::{SshpassError, SshpassExitCode};

#[test]
fn test_exit_code_values() {
    assert_eq!(i32::from(SshpassExitCode::Success), 0);
    assert_eq!(i32::from(SshpassExitCode::InvalidArguments), 1);
    assert_eq!(i32::from(SshpassExitCode::ConflictingArguments), 2);
    assert_eq!(i32::from(SshpassExitCode::RuntimeError), 3);
    assert_eq!(i32::from(SshpassExitCode::ParseError), 4);
    assert_eq!(i32::from(SshpassExitCode::IncorrectPassword), 5);
    assert_eq!(i32::from(SshpassExitCode::HostKeyUnknown), 6);
    assert_eq!(i32::from(SshpassExitCode::HostKeyChanged), 7);
}

#[test]
fn test_exit_code_from_i32() {
    assert!(matches!(SshpassExitCode::from(0), SshpassExitCode::Success));
    assert!(matches!(SshpassExitCode::from(1), SshpassExitCode::InvalidArguments));
    assert!(matches!(SshpassExitCode::from(2), SshpassExitCode::ConflictingArguments));
    assert!(matches!(SshpassExitCode::from(3), SshpassExitCode::RuntimeError));
    assert!(matches!(SshpassExitCode::from(4), SshpassExitCode::ParseError));
    assert!(matches!(SshpassExitCode::from(5), SshpassExitCode::IncorrectPassword));
    assert!(matches!(SshpassExitCode::from(6), SshpassExitCode::HostKeyUnknown));
    assert!(matches!(SshpassExitCode::from(7), SshpassExitCode::HostKeyChanged));
    assert!(matches!(SshpassExitCode::from(99), SshpassExitCode::RuntimeError));
}

#[test]
fn test_error_to_exit_code() {
    let err = SshpassError::PasswordSource("bad source".to_string());
    assert!(matches!(SshpassExitCode::from(&err), SshpassExitCode::RuntimeError));

    let err = SshpassError::PtyCreation("pty failed".to_string());
    assert!(matches!(SshpassExitCode::from(&err), SshpassExitCode::RuntimeError));

    let err = SshpassError::ChildSpawn("spawn failed".to_string());
    assert!(matches!(SshpassExitCode::from(&err), SshpassExitCode::RuntimeError));

    let err = SshpassError::KeychainAccess("keychain error".to_string());
    assert!(matches!(SshpassExitCode::from(&err), SshpassExitCode::RuntimeError));

    let err = SshpassError::Io(std::io::Error::new(std::io::ErrorKind::Other, "io error"));
    assert!(matches!(SshpassExitCode::from(&err), SshpassExitCode::RuntimeError));
}

#[test]
fn test_error_display() {
    let err = SshpassError::PasswordSource("no env var".to_string());
    let msg = err.message();
    assert!(!msg.is_empty(), "Display message should not be empty");
    assert!(msg.contains("no env var"), "Display should include the detail: {}", msg);

    let err = SshpassError::PtyCreation("openpty failed".to_string());
    let msg = err.message();
    assert!(msg.contains("openpty failed"), "Display should include detail: {}", msg);

    let err = SshpassError::ChildSpawn("exec failed".to_string());
    let msg = err.message();
    assert!(msg.contains("exec failed"), "Display should include detail: {}", msg);

    let err = SshpassError::KeychainAccess("no entry".to_string());
    let msg = err.message();
    assert!(msg.contains("no entry"), "Display should include detail: {}", msg);
}

#[test]
fn error_messages_have_exact_prefixes() {
    assert_eq!(
        SshpassError::PasswordSource("x".to_string()).message(),
        "password source error: x"
    );
    assert_eq!(SshpassError::PtyCreation("x".to_string()).message(), "PTY creation failed: x");
    assert_eq!(
        SshpassError::ChildSpawn("x".to_string()).message(),
        "child process spawn failed: x"
    );
    assert_eq!(
        SshpassError::KeychainAccess("x".to_string()).message(),
        "keychain access error: x"
    );
    let io = SshpassError::Io(std::io::Error::new(std::io::ErrorKind::Other, "disk gone"));
    assert_eq!(io.message(), "I/O error: disk gone");
}

#[test]
fn exit_code_round_trip() {
    for value in 0..8 {
        let code = SshpassExitCode::from(value);
        assert_eq!(code.value(), value);
        assert_eq!(SshpassExitCode::from_value(value), code);
    }
    assert_eq!(SshpassExitCode::from(-1), SshpassExitCode::RuntimeError);
}

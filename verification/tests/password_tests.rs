use sshpass_rs::cli::Cli;
use sshpass_rs::error::SshpassError;
use sshpass_rs::password::{
    password_from_env, password_from_file, password_from_stream, password_from_text,
    ArgumentPassword, Password, PasswordResolver, PasswordSource, SourceInput,
};

fn base_cli() -> Cli {
    Cli {
        password: None,
        filename: None,
        fd: None,
        use_env: false,
        prompt: String::new(),
        verbose: false,
        use_keychain: false,
        key: None,
        store: None,
        delete: None,
        list: false,
        help: false,
        command: vec!["ssh".to_string(), "user@host".to_string()],
    }
}

#[test]
fn test_argument_source() {
    let src = ArgumentPassword::new("hunter2".to_string());
    let result = src.resolve().expect("should resolve");
    assert_eq!(result.expose_secret(), "hunter2");
}

#[test]
fn test_argument_uses_secret_string() {
    let src = ArgumentPassword::new("s3cr3t".to_string());
    let result: Result<Password, SshpassError> = src.resolve();
    assert!(result.is_ok());
    assert_eq!(result.unwrap().expose_secret(), "s3cr3t");
}

#[test]
fn test_resolver_argument() {
    let resolver = PasswordResolver::Argument("mypassword".to_string());
    let result = resolver.resolve().expect("should resolve");
    assert_eq!(result.expose_secret(), "mypassword");
}

#[test]
fn resolver_prefers_argument_then_file() {
    let mut cli = base_cli();
    cli.password = Some("pw".to_string());
    cli.filename = Some("/tmp/f".to_string());
    assert!(matches!(PasswordResolver::for_cli(&cli), Ok(PasswordResolver::Argument(p)) if p == "pw"));

    cli.password = None;
    assert!(matches!(PasswordResolver::for_cli(&cli), Ok(PasswordResolver::File(f)) if f == "/tmp/f"));
}

#[test]
fn resolver_other_sources() {
    let mut cli = base_cli();
    cli.fd = Some(5);
    assert!(matches!(PasswordResolver::for_cli(&cli), Ok(PasswordResolver::FileDescriptor(5))));

    let mut cli = base_cli();
    cli.use_env = true;
    assert!(matches!(PasswordResolver::for_cli(&cli), Ok(PasswordResolver::Environment)));

    let mut cli = base_cli();
    cli.key = Some("mykey".to_string());
    assert!(matches!(PasswordResolver::for_cli(&cli), Ok(PasswordResolver::Keychain(k)) if k == "mykey"));

    let cli = base_cli();
    assert!(matches!(PasswordResolver::for_cli(&cli), Ok(PasswordResolver::Stdin)));
}

#[test]
fn resolver_derives_keychain_key() {
    let mut cli = base_cli();
    cli.use_keychain = true;
    assert!(matches!(PasswordResolver::for_cli(&cli), Ok(PasswordResolver::Keychain(k)) if k == "user@host"));

    cli.command = vec!["ssh".to_string(), "myalias".to_string()];
    match PasswordResolver::for_cli(&cli) {
        Ok(PasswordResolver::KeychainAlias(c)) => assert_eq!(c, cli.command),
        _ => panic!("expected the alias to be resolved through ssh -G"),
    }
}

#[test]
fn password_sources_read_first_line() {
    assert_eq!(password_from_text("testpass\nrest").expose_secret(), "testpass");
    assert_eq!(password_from_text("nolinebreak").expose_secret(), "nolinebreak");
    assert_eq!(password_from_text("").expose_secret(), "");
    assert_eq!(
        password_from_file("/p", Ok("testpass\n".to_string())).unwrap().expose_secret(),
        "testpass"
    );
    match password_from_file("/missing", Err("No such file".to_string())) {
        Err(SshpassError::PasswordSource(m)) => {
            assert_eq!(m, "cannot read password file /missing: No such file")
        }
        _ => panic!("expected a password source error"),
    }
    assert_eq!(password_from_stream(Ok("pw\n".to_string())).unwrap().expose_secret(), "pw");
    match password_from_stream(Err("closed".to_string())) {
        Err(SshpassError::PasswordSource(m)) => assert_eq!(m, "cannot read password: closed"),
        _ => panic!("expected a password source error"),
    }
}

#[test]
fn environment_password_source() {
    assert_eq!(password_from_env(Some("testpass".to_string())).unwrap().expose_secret(), "testpass");
    match password_from_env(None) {
        Err(SshpassError::PasswordSource(m)) => assert!(m.contains("SSHPASS")),
        _ => panic!("expected a password source error"),
    }
}

#[test]
fn password_keeps_its_text() {
    assert_eq!(Password::from_text("abc").expose_secret(), "abc");
    assert_eq!(Password::new(String::new()).expose_secret(), "");
}

#[test]
fn resolve_input_covers_every_io_source() {
    let arg = PasswordResolver::Argument("pw".to_string());
    assert_eq!(arg.resolve_input(SourceInput::Nothing).unwrap().expose_secret(), "pw");

    let file = PasswordResolver::File("/tmp/pw.txt".to_string());
    let read = file.resolve_input(SourceInput::Read(Ok("testpass\nsecond\n".to_string())));
    assert_eq!(read.unwrap().expose_secret(), "testpass");
    match file.resolve_input(SourceInput::Read(Err("No such file".to_string()))) {
        Err(SshpassError::PasswordSource(m)) => {
            assert_eq!(m, "cannot read password file /tmp/pw.txt: No such file")
        }
        _ => panic!("expected a password-source error"),
    }

    let fd = PasswordResolver::FileDescriptor(3);
    let read = fd.resolve_input(SourceInput::Read(Ok("fdpass\n".to_string())));
    assert_eq!(read.unwrap().expose_secret(), "fdpass");

    let stdin = PasswordResolver::Stdin;
    match stdin.resolve_input(SourceInput::Read(Err("closed".to_string()))) {
        Err(SshpassError::PasswordSource(m)) => assert_eq!(m, "cannot read password: closed"),
        _ => panic!("expected a password-source error"),
    }

    let env = PasswordResolver::Environment;
    let set = env.resolve_input(SourceInput::Variable(Some("envpass".to_string())));
    assert_eq!(set.unwrap().expose_secret(), "envpass");
    match env.resolve_input(SourceInput::Variable(None)) {
        Err(SshpassError::PasswordSource(m)) => assert!(m.contains("SSHPASS")),
        _ => panic!("expected a password-source error"),
    }
}

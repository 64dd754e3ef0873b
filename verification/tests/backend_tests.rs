use sshpass_rs::backend::{choose_backend, BackendChoice};

fn some(s: &str) -> Option<String> {
    Some(s.to_string())
}

#[test]
fn one_password_is_chosen_by_name() {
    assert_eq!(choose_backend(some("op"), None), (BackendChoice::OnePassword, None));
    assert_eq!(choose_backend(some("1password"), some("/tmp/k.json")), (BackendChoice::OnePassword, None));
}

#[test]
fn default_backend_is_file_or_keychain() {
    assert_eq!(choose_backend(None, some("/tmp/k.json")), (BackendChoice::File("/tmp/k.json".to_string()), None));
    assert_eq!(choose_backend(None, None), (BackendChoice::Keychain, None));
}

#[test]
fn unknown_backend_warns_and_falls_back() {
    assert_eq!(
        choose_backend(some("invalid"), some("/tmp/k.json")),
        (BackendChoice::File("/tmp/k.json".to_string()), some("unknown backend 'invalid'")),
    );
    assert_eq!(choose_backend(some("OP"), None), (BackendChoice::Keychain, some("unknown backend 'OP'")));
}

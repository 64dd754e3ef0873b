use sshpass_rs::error::SshpassError;
use sshpass_rs::file_store::{json_pair_ranges, FileKeychainBackend, FileStore};
use sshpass_rs::keychain::{
    credential_target, delete_index_update, deleted_message, index_entries, index_target,
    index_text, index_with_key, index_without_key, list_lines, store_index_update,
    stored_message, InMemoryKeychainBackend, KeyringFailure,
};
use sshpass_rs::password::Password;

fn strings(items: &[&str]) -> Vec<String> {
    items.iter().map(|s| s.to_string()).collect()
}

#[test]
fn test_inmemory_store_and_get() {
    let mut backend = InMemoryKeychainBackend::new();
    let password = Password::from_text("s3cret");

    backend.store("myhost", &password).unwrap();
    let retrieved = backend.get("myhost").unwrap();

    assert_eq!(retrieved.expose_secret(), "s3cret");
}

#[test]
fn test_inmemory_delete() {
    let mut backend = InMemoryKeychainBackend::new();
    let password = Password::from_text("s3cret");

    backend.store("myhost", &password).unwrap();
    backend.delete("myhost").unwrap();

    let result = backend.get("myhost");
    assert!(result.is_err());
    match result.err().expect("an error") {
        SshpassError::KeychainAccess(_) => {}
        other => panic!("Expected KeychainAccess, got: {:?}", other),
    }
}

#[test]
fn test_inmemory_list() {
    let mut backend = InMemoryKeychainBackend::new();

    backend.store("host1", &Password::from_text("pass1")).unwrap();
    backend.store("host2", &Password::from_text("pass2")).unwrap();
    backend.store("host3", &Password::from_text("pass3")).unwrap();

    let mut keys = backend.list().unwrap();
    keys.sort();

    assert_eq!(keys, vec!["host1", "host2", "host3"]);
}

#[test]
fn test_inmemory_list_empty() {
    let backend = InMemoryKeychainBackend::new();
    let keys = backend.list().unwrap();
    assert!(keys.is_empty());
}

#[test]
fn test_inmemory_get_nonexistent() {
    let backend = InMemoryKeychainBackend::new();
    let result = backend.get("nonexistent");

    assert!(result.is_err());
    match result.err().expect("an error") {
        SshpassError::KeychainAccess(msg) => {
            assert!(msg.contains("nonexistent"), "Error should mention the key: {}", msg);
        }
        other => panic!("Expected KeychainAccess, got: {:?}", other),
    }
}

#[test]
fn test_delete_nonexistent() {
    let mut backend = InMemoryKeychainBackend::new();

    let result = backend.delete("nonexistent_key");
    assert!(result.is_err());
}

#[test]
fn inmemory_store_replaces_and_keeps_others() {
    let mut backend = InMemoryKeychainBackend::new();
    backend.store("a", &Password::from_text("1")).unwrap();
    backend.store("b", &Password::from_text("2")).unwrap();
    backend.store("a", &Password::from_text("3")).unwrap();

    assert_eq!(backend.get("a").unwrap().expose_secret(), "3");
    assert_eq!(backend.get("b").unwrap().expose_secret(), "2");
    assert_eq!(backend.list().unwrap().len(), 2);
}

#[test]
fn inmemory_delete_then_get_reports_missing_key() {
    let mut backend = InMemoryKeychainBackend::new();
    backend.store("gone", &Password::from_text("x")).unwrap();
    backend.delete("gone").unwrap();

    match backend.get("gone") {
        Err(SshpassError::KeychainAccess(m)) => assert_eq!(m, "key not found: gone"),
        _ => panic!("expected a missing key"),
    }
    match backend.delete("gone") {
        Err(SshpassError::KeychainAccess(m)) => assert_eq!(m, "key not found: gone"),
        _ => panic!("expected a missing key"),
    }
}

#[test]
fn test_file_backend_persistence() {
    let backend = FileKeychainBackend::new("/tmp/keychain.json");
    assert_eq!(backend.file_path(), "/tmp/keychain.json");

    let text = {
        let mut store = FileStore::parse("");
        store.store("persist_key", &Password::from_text("persistent_pass"));
        store.to_json()
    };

    {
        let store = FileStore::parse(&text);
        let retrieved = store.get("persist_key").unwrap();
        assert_eq!(retrieved.expose_secret(), "persistent_pass");
    }
}

#[test]
fn test_file_backend_list() {
    let mut store = FileStore::parse("");
    store.store("alpha", &Password::from_text("pass_a"));
    let text = store.to_json();
    let mut store = FileStore::parse(&text);
    store.store("beta", &Password::from_text("pass_b"));
    let text = store.to_json();

    let mut keys = FileStore::parse(&text).list();
    keys.sort();

    assert_eq!(keys, vec!["alpha", "beta"]);
}

#[test]
fn store_text_is_sorted_json() {
    let mut store = FileStore::new();
    store.store("zeta", &Password::from_text("z"));
    store.store("alpha", &Password::from_text("a"));

    assert_eq!(
        store.to_json(),
        "{\"passwords\":{\"alpha\":\"a\",\"zeta\":\"z\"},\"index\":[\"zeta\",\"alpha\"]}"
    );
    assert_eq!(FileStore::new().to_json(), "{\"passwords\":{},\"index\":[]}");
}

#[test]
fn store_text_parses_whitespace_and_quotes() {
    let text = " {\n  \"passwords\": { \"host\" : \"pw\", \"other\":\"x:y\" },\n  \"index\": [ \"host\", \"other\" ]\n} ";
    let store = FileStore::parse(text);

    assert_eq!(store.get("host").unwrap().expose_secret(), "pw");
    assert_eq!(store.get("other").unwrap().expose_secret(), "x:y");
    assert_eq!(store.list(), strings(&["host", "other"]));
}

#[test]
fn empty_and_brace_texts_hold_nothing() {
    for text in ["", "   ", "{}", " {} "] {
        let store = FileStore::parse(text);
        assert!(store.list().is_empty());
        assert!(store.get("k").is_err());
    }
}

#[test]
fn entries_without_colon_or_key_are_skipped() {
    let store = FileStore::parse("{\"passwords\":{\"a\":\"1\",\"novalue\",\"\":\"2\"},\"index\":[]}");

    assert_eq!(store.get("a").unwrap().expose_secret(), "1");
    assert!(store.get("novalue").is_err());
    assert!(store.get("").is_err());
}

#[test]
fn commas_inside_strings_do_not_split_entries() {
    let store = FileStore::parse("{\"passwords\":{\"a\":\"x,y\",\"b\":\"2\"},\"index\":[\"a\",\"b\"]}");

    assert_eq!(store.get("a").unwrap().expose_secret(), "x,y");
    assert_eq!(store.get("b").unwrap().expose_secret(), "2");
}

#[test]
fn file_store_delete_updates_index() {
    let mut store = FileStore::new();
    store.store("a", &Password::from_text("1"));
    store.store("b", &Password::from_text("2"));
    store.delete("a").unwrap();

    assert_eq!(store.list(), strings(&["b"]));
    assert!(store.get("a").is_err());
    match store.delete("a") {
        Err(SshpassError::KeychainAccess(m)) => assert_eq!(m, "key not found: a"),
        _ => panic!("expected a missing key"),
    }
}

#[test]
fn file_store_key_named_index_can_be_misread() {
    let mut store = FileStore::new();
    store.store("index", &Password::from_text("a[b"));
    let reread = FileStore::parse(&store.to_json());

    assert_eq!(reread.get("index").unwrap().expose_secret(), "a[b");
    assert_ne!(reread.list(), strings(&["index"]));
}

#[test]
fn index_text_round_trip() {
    let keys = strings(&["host1", "user@host2"]);
    let text = index_text(&keys);

    assert_eq!(text, "host1\nuser@host2");
    assert_eq!(index_entries(&text), keys);
    assert_eq!(index_entries("a\r\n\nb\n"), strings(&["a", "b"]));
}

#[test]
fn index_add_and_remove_keys() {
    let (keys, added) = index_with_key(strings(&["a"]), "b");
    assert!(added);
    assert_eq!(keys, strings(&["a", "b"]));

    let (keys, added) = index_with_key(keys, "a");
    assert!(!added);
    assert_eq!(keys, strings(&["a", "b"]));

    assert_eq!(index_without_key(&strings(&["a", "b", "a"]), "a"), strings(&["b"]));
}

#[test]
fn list_lines_for_full_stores() {
    assert_eq!(list_lines(&[]), strings(&["(empty)"]));
    assert_eq!(list_lines(&strings(&["k1", "k2"])), strings(&["k1", "k2"]));
}

#[test]
fn handler_messages() {
    assert_eq!(stored_message("user@host"), "Password stored for key 'user@host'");
    assert_eq!(deleted_message("user@host"), "Password deleted for key 'user@host'");
}

#[test]
fn store_text_does_not_depend_on_entry_order() {
    let first = FileStore::parse("{\"passwords\":{\"b\":\"2\",\"a\":\"1\"},\"index\":[\"a\",\"b\"]}");
    let second = FileStore::parse("{\"passwords\":{\"a\":\"1\",\"b\":\"2\"},\"index\":[\"a\",\"b\"]}");

    assert_eq!(first.to_json(), second.to_json());
    assert_eq!(
        first.to_json(),
        "{\"passwords\":{\"a\":\"1\",\"b\":\"2\"},\"index\":[\"a\",\"b\"]}"
    );
}

#[test]
fn test_list_empty() {
    let backend = InMemoryKeychainBackend::new();

    let keys = backend.list().unwrap();
    assert!(keys.is_empty());
    assert_eq!(list_lines(&keys), strings(&["(empty)"]));
}

#[test]
fn test_delete_handler() {
    let mut backend = InMemoryKeychainBackend::new();

    backend.store("del_key", &Password::from_text("some_pass")).unwrap();

    backend.delete("del_key").unwrap();
    assert_eq!(deleted_message("del_key"), "Password deleted for key 'del_key'");

    let result = backend.get("del_key");
    assert!(result.is_err());
}

#[test]
fn test_list_handler() {
    let mut backend = InMemoryKeychainBackend::new();

    backend.store("key_a", &Password::from_text("pass_a")).unwrap();
    backend.store("key_b", &Password::from_text("pass_b")).unwrap();

    let mut keys = backend.list().unwrap();
    keys.sort();
    assert_eq!(list_lines(&keys), strings(&["key_a", "key_b"]));
    assert_eq!(keys, vec!["key_a", "key_b"]);
}

#[test]
fn credential_store_targets_and_index_updates() {
    let (service, user) = credential_target("user@host");
    assert_eq!((service.as_str(), user.as_str()), ("sshpass-rs", "user@host"));
    let (service, user) = index_target();
    assert_eq!((service.as_str(), user.as_str()), ("sshpass-rs", "__sshpass_rs_index__"));

    assert_eq!(store_index_update(Ok("a\nb".to_string()), "c").unwrap(), Some("a\nb\nc".to_string()));
    assert_eq!(store_index_update(Ok("a\nb".to_string()), "a").unwrap(), None);
    assert_eq!(store_index_update(Err(KeyringFailure::NoEntry), "k").unwrap(), Some("k".to_string()));
    assert!(store_index_update(Err(KeyringFailure::Other("x".to_string())), "k").is_err());

    assert_eq!(delete_index_update(Ok("a\nb\na".to_string()), "a").unwrap(), "b");
    assert_eq!(delete_index_update(Err(KeyringFailure::NoEntry), "a").unwrap(), "");
}

#[test]
fn entries_split_only_at_top_level_commas() {
    let body: Vec<char> = r#""k":"x,y","a":{"b":1,"c":2}"#.chars().collect();
    let ranges = json_pair_ranges(&body);
    let pieces: Vec<String> = ranges.iter().map(|&(a, b)| body[a..b].iter().collect()).collect();

    assert_eq!(pieces, strings(&[r#""k":"x,y""#, r#""a":{"b":1,"c":2}"#]));
    let trailing: Vec<char> = "\"a\":\"1\",".chars().collect();
    assert_eq!(json_pair_ranges(&trailing), vec![(0, 7)]);
}

#[test]
fn key_and_value_named_index_round_trip() {
    let mut store = FileStore::new();
    store.store("index", &Password::from_text("index"));
    store.store("host", &Password::from_text("pw"));
    let reread = FileStore::parse(&store.to_json());

    assert_eq!(reread.get("index").unwrap().expose_secret(), "index");
    assert_eq!(reread.get("host").unwrap().expose_secret(), "pw");
    assert_eq!(reread.list(), strings(&["index", "host"]));
}

#[test]
fn texts_without_store_labels_hold_nothing() {
    for text in ["not json", "{\"other\":{\"a\":\"1\"}}", "[1,2]", "{\"password\":{}}"] {
        let store = FileStore::parse(text);
        assert!(store.list().is_empty());
        assert!(store.get("a").is_err());
    }
}

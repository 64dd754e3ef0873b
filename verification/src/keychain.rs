use vstd::prelude::*;
use vstd::string::StringExecFns;

use crate::error::SshpassError;
use crate::password::Password;
use crate::scan::nonempty_text;
use crate::string_map::{StringMap, keys_without, not_key};
use crate::text::{
    chars_eq, chars_of, lemma_next_newline, lemma_next_newline_ge, lines_from, lines_of, next_newline, seq_views,
    split_lines, string_from_chars,
};

verus! {

/// `prefix` followed by `detail`.
pub fn joined_message(prefix: &str, detail: &str) -> (s: String)
    ensures
        s@ == prefix@ + detail@,
{
    let mut s = String::from_str(prefix);
    s.append(detail);
    s
}

/// The message for a key that has no stored password.
pub open spec fn key_not_found_message(key: Seq<char>) -> Seq<char> {
    "key not found: "@ + key
}

pub(crate) fn key_not_found(key: &str) -> (e: SshpassError)
    ensures
        e matches SshpassError::KeychainAccess(m) && m@ == key_not_found_message(key@),
{
    SshpassError::KeychainAccess(joined_message("key not found: ", key))
}

/// A password store held in memory.
pub struct InMemoryKeychainBackend {
    store: StringMap,
}

impl View for InMemoryKeychainBackend {
    type V = Map<Seq<char>, Seq<char>>;

    closed spec fn view(&self) -> Map<Seq<char>, Seq<char>> {
        self.store@
    }
}

impl InMemoryKeychainBackend {
    /// The store's internal consistency.
    pub closed spec fn wf(&self) -> bool {
        self.store.wf()
    }

    /// An empty store.
    pub fn new() -> (b: InMemoryKeychainBackend)
        ensures
            b.wf(),
            b@ == Map::<Seq<char>, Seq<char>>::empty(),
    {
        InMemoryKeychainBackend { store: StringMap::new() }
    }

    /// Stores `password` under `key`, replacing any earlier one; always
    /// succeeds.
    pub fn store(&mut self, key: &str, password: &Password) -> (r: Result<(), SshpassError>)
        requires
            old(self).wf(),
        ensures
            final(self).wf(),
            r is Ok,
            final(self)@ == old(self)@.insert(key@, password@),
    {
        self.store.insert(key, password.expose_secret());
        Ok(())
    }

    /// The password stored under `key`, or a "key not found" error.
    pub fn get(&self, key: &str) -> (r: Result<Password, SshpassError>)
        requires
            self.wf(),
        ensures
            self@.contains_key(key@) ==> (r matches Ok(p) && p@ == self@[key@]),
            !self@.contains_key(key@) ==> (r matches Err(SshpassError::KeychainAccess(m)) && m@
                == key_not_found_message(key@)),
    {
        match self.store.get(key) {
            Some(v) => Ok(Password::new(v)),
            None => Err(key_not_found(key)),
        }
    }

    /// Deletes the password stored under `key`, or reports that there is
    /// none (leaving the store unchanged).
    pub fn delete(&mut self, key: &str) -> (r: Result<(), SshpassError>)
        requires
            old(self).wf(),
        ensures
            final(self).wf(),
            final(self)@ == old(self)@.remove(key@),
            old(self)@.contains_key(key@) ==> r is Ok,
            !old(self)@.contains_key(key@) ==> (r matches Err(SshpassError::KeychainAccess(m))
                && m@ == key_not_found_message(key@)),
    {
        if self.store.remove(key) {
            Ok(())
        } else {
            Err(key_not_found(key))
        }
    }

    /// The stored keys, each once; always succeeds.
    pub fn list(&self) -> (r: Result<Vec<String>, SshpassError>)
        requires
            self.wf(),
        ensures
            r matches Ok(keys) && seq_views(keys@).no_duplicates() && seq_views(keys@).to_set()
                == self@.dom(),
    {
        Ok(self.store.keys())
    }
}

/// The `keyring` crate's credential entry, carried through opaquely.
#[verifier::external_type_specification]
#[verifier::external_body]
pub struct ExKeyringEntry(keyring::Entry);

/// The `keyring` crate's error, carried through opaquely.
#[verifier::external_type_specification]
#[verifier::external_body]
pub struct ExKeyringError(keyring::Error);

/// Calls `keyring::Entry::new(service, user)`. Whether it succeeds depends
/// on the platform's credential store, so nothing is stated of the result.
#[verifier::external_body]
fn keyring_entry(service: &str, user: &str) -> Result<keyring::Entry, keyring::Error> {
    keyring::Entry::new(service, user)
}

/// Calls `keyring::Entry::get_password`; what it returns depends on the
/// credential store's contents, so nothing is stated of it.
#[verifier::external_body]
fn keyring_get_password(entry: &keyring::Entry) -> Result<String, keyring::Error> {
    entry.get_password()
}

/// Calls `keyring::Entry::set_password`; its outcome depends on the
/// credential store, so nothing is stated of it.
#[verifier::external_body]
fn keyring_set_password(entry: &keyring::Entry, password: &str) -> Result<(), keyring::Error> {
    entry.set_password(password)
}

/// Calls `keyring::Entry::delete_credential`; its outcome depends on the
/// credential store, so nothing is stated of it.
#[verifier::external_body]
fn keyring_delete_credential(entry: &keyring::Entry) -> Result<(), keyring::Error> {
    entry.delete_credential()
}

/// Tells whether a `keyring::Error` is the `NoEntry` variant.
#[verifier::external_body]
fn keyring_error_is_no_entry(err: &keyring::Error) -> bool {
    matches!(err, keyring::Error::NoEntry)
}

/// The `Display` text of a `keyring::Error` (it may carry text from the
/// platform, so nothing is stated of it).
#[verifier::external_body]
fn keyring_error_text(err: &keyring::Error) -> String {
    format!("{}", err)
}

/// How a credential-store call failed.
pub enum KeyringFailure {
    NoEntry,
    Other(String),
}

fn classify_keyring_error(err: &keyring::Error) -> (f: KeyringFailure) {
    if keyring_error_is_no_entry(err) {
        KeyringFailure::NoEntry
    } else {
        KeyringFailure::Other(keyring_error_text(err))
    }
}

/// The keys listed in an index text: its non-empty lines.
pub open spec fn index_entries_of(data: Seq<char>) -> Seq<Seq<char>> {
    lines_of(data).filter(nonempty_text())
}

/// Keys joined with `sep` between them.
pub open spec fn join_with(keys: Seq<Seq<char>>, sep: Seq<char>) -> Seq<char>
    decreases keys.len(),
{
    if keys.len() == 0 {
        Seq::empty()
    } else if keys.len() == 1 {
        keys[0]
    } else {
        join_with(keys.drop_last(), sep) + sep + keys.last()
    }
}

/// A joined list of two or more texts is the first text, the separator,
/// and the rest joined.
pub proof fn lemma_join_cons(es: Seq<Seq<char>>, sep: Seq<char>)
    requires
        es.len() >= 2,
    ensures
        join_with(es, sep) == es[0] + sep + join_with(es.drop_first(), sep),
    decreases es.len(),
{
    let dl = es.drop_last();
    let rest = es.drop_first();
    if es.len() == 2 {
        assert(join_with(dl, sep) == dl[0]);
        assert(join_with(rest, sep) == rest[0]);
        assert(join_with(es, sep) =~= es[0] + sep + join_with(rest, sep));
    } else {
        lemma_join_cons(dl, sep);
        assert(rest.drop_last() =~= dl.drop_first());
        assert(join_with(rest, sep) == join_with(rest.drop_last(), sep) + sep + rest.last());
        assert(join_with(es, sep) =~= es[0] + sep + join_with(rest, sep));
    }
}

/// The keys an index text lists: its non-empty lines, in order.
pub fn index_entries(data: &str) -> (keys: Vec<String>)
    ensures
        seq_views(keys@) == index_entries_of(data@),
{
    let text = chars_of(data);
    let lines = split_lines(text.as_slice());
    let ghost line_views = lines@.map_values(|l: Vec<char>| l@);
    let mut keys: Vec<String> = Vec::new();
    let mut i: usize = 0;
    while i < lines.len()
        invariant
            i <= lines@.len(),
            line_views == lines@.map_values(|l: Vec<char>| l@),
            line_views == lines_of(data@),
            seq_views(keys@) == line_views.take(i as int).filter(nonempty_text()),
        decreases lines.len() - i,
    {
        let ghost before = keys@;
        proof {
            reveal_with_fuel(Seq::filter, 1);
            assert(line_views.take(i + 1).drop_last() =~= line_views.take(i as int));
            assert(line_views.take(i + 1).last() == lines@[i as int]@);
        }
        if lines[i].len() > 0 {
            let key = string_from_chars(lines[i].as_slice());
            keys.push(key);
            proof {
                assert(seq_views(keys@) =~= seq_views(before).push(key@));
            }
        }
        i = i + 1;
    }
    proof {
        assert(line_views.take(i as int) =~= line_views);
    }
    keys
}

/// The text that lists `keys`: one per line, with no final line break.
pub fn index_text(keys: &[String]) -> (data: String)
    ensures
        data@ == join_with(seq_views(keys@), "\n"@),
{
    let mut data = String::new();
    let mut i: usize = 0;
    proof {
        assert(seq_views(keys@).take(0) =~= Seq::<Seq<char>>::empty());
    }
    while i < keys.len()
        invariant
            i <= keys@.len(),
            data@ == join_with(seq_views(keys@).take(i as int), "\n"@),
        decreases keys.len() - i,
    {
        let ghost views = seq_views(keys@);
        proof {
            assert(views.take(i + 1).drop_last() =~= views.take(i as int));
        }
        if i > 0 {
            data.append("\n");
        }
        data.append(keys[i].as_str());
        proof {
            if i == 0 {
                assert(data@ =~= views.take(1)[0]);
            }
        }
        i = i + 1;
    }
    proof {
        assert(seq_views(keys@).take(i as int) =~= seq_views(keys@));
    }
    data
}

/// `keys` with `key` appended when it is not there yet; also whether it
/// was appended.
pub fn index_with_key(keys: Vec<String>, key: &str) -> (r: (Vec<String>, bool))
    ensures
        seq_views(keys@).contains(key@) ==> r.0@ == keys@ && !r.1,
        !seq_views(keys@).contains(key@) ==> seq_views(r.0@) == seq_views(keys@).push(key@)
            && r.1,
{
    let target = chars_of(key);
    let mut i: usize = 0;
    while i < keys.len()
        invariant
            target@ == key@,
            i <= keys@.len(),
            forall|j: int| 0 <= j < i ==> keys@[j]@ != key@,
        decreases keys.len() - i,
    {
        let k = chars_of(keys[i].as_str());
        if chars_eq(k.as_slice(), target.as_slice()) {
            proof {
                assert(seq_views(keys@)[i as int] == key@);
            }
            return (keys, false);
        }
        i = i + 1;
    }
    proof {
        assert forall|j: int| 0 <= j < seq_views(keys@).len() implies seq_views(keys@)[j] != key@ by {
            assert(keys@[j]@ != key@);
        }
    }
    let mut keys = keys;
    let ghost before = keys@;
    keys.push(key.to_owned());
    proof {
        assert(seq_views(keys@) =~= seq_views(before).push(key@));
    }
    (keys, true)
}

/// `keys` without `key`, in order.
pub fn index_without_key(keys: &[String], key: &str) -> (r: Vec<String>)
    ensures
        seq_views(r@) == keys_without(seq_views(keys@), key@),
{
    let target = chars_of(key);
    let mut r: Vec<String> = Vec::new();
    let mut i: usize = 0;
    while i < keys.len()
        invariant
            target@ == key@,
            i <= keys@.len(),
            seq_views(r@) == keys_without(seq_views(keys@).take(i as int), key@),
        decreases keys.len() - i,
    {
        let ghost views = seq_views(keys@);
        let ghost before = r@;
        proof {
            reveal_with_fuel(Seq::filter, 1);
            assert(views.take(i + 1).drop_last() =~= views.take(i as int));
            assert(views.take(i + 1).last() == keys@[i as int]@);
        }
        let k = chars_of(keys[i].as_str());
        if !chars_eq(k.as_slice(), target.as_slice()) {
            let kk = keys[i].clone();
            r.push(kk);
            proof {
                assert(seq_views(r@) =~= seq_views(before).push(kk@));
            }
        }
        i = i + 1;
    }
    proof {
        assert(seq_views(keys@).take(i as int) =~= seq_views(keys@));
    }
    r
}

/// The index read back from the credential store: its non-empty lines; no
/// index yet means an empty one; any other failure is reported.
pub fn index_from_read(read: Result<String, KeyringFailure>) -> (r: Result<
    Vec<String>,
    SshpassError,
>)
    ensures
        match read {
            Ok(data) => r matches Ok(keys) && seq_views(keys@) == index_entries_of(data@),
            Err(KeyringFailure::NoEntry) => r matches Ok(keys) && keys@.len() == 0,
            Err(KeyringFailure::Other(t)) => r matches Err(SshpassError::KeychainAccess(m)) && m@
                == "failed to read index: "@ + t@,
        },
{
    match read {
        Ok(data) => Ok(index_entries(data.as_str())),
        Err(KeyringFailure::NoEntry) => Ok(Vec::new()),
        Err(KeyringFailure::Other(t)) => Err(
            SshpassError::KeychainAccess(joined_message("failed to read index: ", t.as_str())),
        ),
    }
}

/// The password read for `key`: found, not found, or another failure.
pub fn password_from_read(key: &str, read: Result<String, KeyringFailure>) -> (r: Result<
    Password,
    SshpassError,
>)
    ensures
        match read {
            Ok(pw) => r matches Ok(p) && p@ == pw@,
            Err(KeyringFailure::NoEntry) => r matches Err(SshpassError::KeychainAccess(m)) && m@
                == key_not_found_message(key@),
            Err(KeyringFailure::Other(t)) => r matches Err(SshpassError::KeychainAccess(m)) && m@
                == "failed to get: "@ + t@,
        },
{
    match read {
        Ok(pw) => Ok(Password::new(pw)),
        Err(KeyringFailure::NoEntry) => Err(key_not_found(key)),
        Err(KeyringFailure::Other(t)) => Err(
            SshpassError::KeychainAccess(joined_message("failed to get: ", t.as_str())),
        ),
    }
}

/// The outcome of deleting `key`'s credential: done, not found, or another
/// failure.
pub fn deletion_outcome(key: &str, outcome: Result<(), KeyringFailure>) -> (r: Result<
    (),
    SshpassError,
>)
    ensures
        match outcome {
            Ok(()) => r is Ok,
            Err(KeyringFailure::NoEntry) => r matches Err(SshpassError::KeychainAccess(m)) && m@
                == key_not_found_message(key@),
            Err(KeyringFailure::Other(t)) => r matches Err(SshpassError::KeychainAccess(m)) && m@
                == "failed to delete: "@ + t@,
        },
{
    match outcome {
        Ok(()) => Ok(()),
        Err(KeyringFailure::NoEntry) => Err(key_not_found(key)),
        Err(KeyringFailure::Other(t)) => Err(
            SshpassError::KeychainAccess(joined_message("failed to delete: ", t.as_str())),
        ),
    }
}

/// Whether an error is a credential-store access error.
pub open spec fn is_access_error(r: Result<(), SshpassError>) -> bool {
    r matches Err(e) ==> e is KeychainAccess
}

/// An access error whose message starts with `prefix`.
pub open spec fn failed_with(e: SshpassError, prefix: Seq<char>) -> bool {
    e matches SshpassError::KeychainAccess(m) && prefix.is_prefix_of(m@)
}

/// The failures of opening an entry or reading the index.
pub open spec fn index_read_failure(e: SshpassError) -> bool {
    failed_with(e, "failed to create entry: "@) || failed_with(e, "failed to read index: "@)
}

/// The failures of opening an entry or writing the index.
pub open spec fn index_write_failure(e: SshpassError) -> bool {
    failed_with(e, "failed to create entry: "@) || failed_with(e, "failed to write index: "@)
}

/// A key as the index lists it: not empty, without line breaks.
pub open spec fn index_key(k: Seq<char>) -> bool {
    k.len() > 0 && forall|p: int| 0 <= p < k.len() ==> k[p] != '\n'
}

proof fn lemma_prefix_of_concat(a: Seq<char>, b: Seq<char>)
    ensures
        a.is_prefix_of(a + b),
{
    assert((a + b).subrange(0, a.len() as int) =~= a);
}

proof fn lemma_lines_lack_newline(s: Seq<char>, i: int)
    requires
        0 <= i,
    ensures
        forall|j: int|
            0 <= j < lines_from(s, i).len() ==> forall|p: int|
                0 <= p < (#[trigger] lines_from(s, i)[j]).len() ==> lines_from(s, i)[j][p] != '\n',
    decreases s.len() - i,
{
    if i < s.len() {
        lemma_next_newline(s, i);
        let k = next_newline(s, i);
        let raw = s.subrange(i, k);
        let line = if k < s.len() && raw.len() > 0 && raw.last() == '\r' {
            raw.drop_last()
        } else {
            raw
        };
        assert forall|p: int| 0 <= p < line.len() implies line[p] != '\n' by {
            assert(line[p] == s[i + p]);
        }
        if k < s.len() {
            lemma_lines_lack_newline(s, k + 1);
            let rest = lines_from(s, k + 1);
            assert(lines_from(s, i) == seq![line] + rest);
            assert forall|j: int| 0 <= j < lines_from(s, i).len() implies forall|p: int|
                0 <= p < (#[trigger] lines_from(s, i)[j]).len() ==> lines_from(s, i)[j][p]
                    != '\n' by {
                if j > 0 {
                    assert(lines_from(s, i)[j] == rest[j - 1]);
                }
            }
        } else {
            assert(lines_from(s, i) == seq![line]);
        }
    }
}

proof fn lemma_filter_from(s: Seq<Seq<char>>, pred: spec_fn(Seq<char>) -> bool, x: Seq<char>)
    requires
        s.filter(pred).contains(x),
    ensures
        s.contains(x),
    decreases s.len(),
{
    reveal_with_fuel(Seq::filter, 1);
    if s.len() > 0 {
        let f = s.drop_last().filter(pred);
        if f.contains(x) {
            lemma_filter_from(s.drop_last(), pred, x);
            let j = choose|j: int| 0 <= j < s.drop_last().len() && s.drop_last()[j] == x;
            assert(s[j] == x);
        } else {
            let j = choose|j: int| 0 <= j < s.filter(pred).len() && s.filter(pred)[j] == x;
            if pred(s.last()) {
                assert(s.filter(pred) == f.push(s.last()));
                assert(j == f.len());
                assert(s[s.len() - 1] == x);
            } else {
                assert(s.filter(pred) == f);
            }
        }
    }
}

/// Every key an index text lists is an index key.
proof fn lemma_index_entries_keys(data: Seq<char>)
    ensures
        forall|i: int|
            0 <= i < index_entries_of(data).len() ==> index_key(
                #[trigger] index_entries_of(data)[i],
            ),
{
    let es = index_entries_of(data);
    lemma_lines_lack_newline(data, 0);
    assert forall|i: int| 0 <= i < es.len() implies index_key(#[trigger] es[i]) by {
        lines_of(data).lemma_filter_pred(nonempty_text(), i);
        assert(es.contains(es[i]));
        lemma_filter_from(lines_of(data), nonempty_text(), es[i]);
        let j = choose|j: int| 0 <= j < lines_of(data).len() && lines_of(data)[j] == es[i];
        assert(lines_of(data)[j] == lines_from(data, 0)[j]);
    }
}

/// The platform credential store (the macOS Keychain where available),
/// with the keys it manages listed in an index entry.
pub struct RealKeychainBackend;

/// The credential (service, user) that holds the password for `key`.
pub fn credential_target(key: &str) -> (t: (String, String))
    ensures
        t.0@ == "sshpass-rs"@,
        t.1@ == key@,
{
    ("sshpass-rs".to_owned(), key.to_owned())
}

/// The credential (service, user) that holds the index of keys.
pub fn index_target() -> (t: (String, String))
    ensures
        t.0@ == "sshpass-rs"@,
        t.1@ == "__sshpass_rs_index__"@,
{
    ("sshpass-rs".to_owned(), "__sshpass_rs_index__".to_owned())
}

/// The keys a read of the index gives: the non-empty lines of the text
/// read, or none when there is no index yet.
pub open spec fn read_keys(read: Result<String, KeyringFailure>) -> Seq<Seq<char>> {
    match read {
        Ok(data) => index_entries_of(data@),
        _ => Seq::empty(),
    }
}

/// The index text to write after storing `key`, given what reading the
/// index gave: `None` when the key is listed already, otherwise the keys
/// with `key` appended, one per line.
pub fn store_index_update(read: Result<String, KeyringFailure>, key: &str) -> (r: Result<
    Option<String>,
    SshpassError,
>)
    ensures
        match read {
            Err(KeyringFailure::Other(t)) => r matches Err(SshpassError::KeychainAccess(m)) && m@
                == "failed to read index: "@ + t@,
            _ => r matches Ok(u) && (read_keys(read).contains(key@) ==> u is None) && (!read_keys(
                read,
            ).contains(key@) ==> (u matches Some(text) && text@ == join_with(
                read_keys(read).push(key@),
                "\n"@,
            ))),
        },
{
    let ghost g_read = read;
    let keys = index_from_read(read)?;
    proof {
        if let Ok(d) = g_read {
        } else {
            assert(seq_views(keys@) =~= read_keys(g_read));
        }
    }
    let (keys, added) = index_with_key(keys, key);
    if added {
        Ok(Some(index_text(keys.as_slice())))
    } else {
        Ok(None)
    }
}

/// The index text to write after deleting `key`, given what reading the
/// index gave: the keys without `key`, one per line.
pub fn delete_index_update(read: Result<String, KeyringFailure>, key: &str) -> (r: Result<
    String,
    SshpassError,
>)
    ensures
        match read {
            Err(KeyringFailure::Other(t)) => r matches Err(SshpassError::KeychainAccess(m)) && m@
                == "failed to read index: "@ + t@,
            _ => r matches Ok(text) && text@ == join_with(
                keys_without(read_keys(read), key@),
                "\n"@,
            ),
        },
{
    let ghost g_read = read;
    let keys = index_from_read(read)?;
    proof {
        if let Ok(d) = g_read {
        } else {
            assert(seq_views(keys@) =~= read_keys(g_read));
        }
    }
    let keys = index_without_key(keys.as_slice(), key);
    Ok(index_text(keys.as_slice()))
}

impl RealKeychainBackend {
    fn open_entry(target: (String, String)) -> (r: Result<keyring::Entry, SshpassError>)
        ensures
            r matches Err(e) ==> failed_with(e, "failed to create entry: "@),
    {
        match keyring_entry(target.0.as_str(), target.1.as_str()) {
            Ok(entry) => Ok(entry),
            Err(e) => {
                let text = keyring_error_text(&e);
                let m = joined_message("failed to create entry: ", text.as_str());
                proof {
                    lemma_prefix_of_concat("failed to create entry: "@, text@);
                }
                Err(SshpassError::KeychainAccess(m))
            },
        }
    }

    fn entry(key: &str) -> (r: Result<keyring::Entry, SshpassError>)
        ensures
            r matches Err(e) ==> failed_with(e, "failed to create entry: "@),
    {
        Self::open_entry(credential_target(key))
    }

    /// What reading the index entry gives: its text, no entry, or another
    /// failure.
    fn read_index_text(&self) -> (r: Result<Result<String, KeyringFailure>, SshpassError>)
        ensures
            r matches Err(e) ==> failed_with(e, "failed to create entry: "@),
    {
        let entry = Self::open_entry(index_target())?;
        match keyring_get_password(&entry) {
            Ok(data) => Ok(Ok(data)),
            Err(e) => Ok(Err(classify_keyring_error(&e))),
        }
    }

    fn read_index(&self) -> (r: Result<Vec<String>, SshpassError>)
        ensures
            r matches Err(e) ==> index_read_failure(e),
            r matches Ok(keys) ==> forall|i: int|
                0 <= i < keys@.len() ==> index_key(#[trigger] keys@[i]@),
    {
        let read = self.read_index_text()?;
        let ghost g_read = read;
        let r = index_from_read(read);
        let ghost g_r = r;
        proof {
            match g_read {
                Ok(data) => {
                    lemma_index_entries_keys(data@);
                    if let Ok(keys) = g_r {
                        assert forall|i: int| 0 <= i < keys@.len() implies index_key(
                            #[trigger] keys@[i]@,
                        ) by {
                            assert(seq_views(keys@)[i] == keys@[i]@);
                        }
                    }
                },
                Err(KeyringFailure::Other(t)) => {
                    lemma_prefix_of_concat("failed to read index: "@, t@);
                },
                _ => {},
            }
        }
        r
    }

    /// Writes `data` as the index text.
    fn write_index(&self, data: &str) -> (r: Result<(), SshpassError>)
        ensures
            r matches Err(e) ==> index_write_failure(e),
    {
        let entry = Self::open_entry(index_target())?;
        match keyring_set_password(&entry, data) {
            Ok(()) => Ok(()),
            Err(e) => {
                let text = keyring_error_text(&e);
                let m = joined_message("failed to write index: ", text.as_str());
                proof {
                    lemma_prefix_of_concat("failed to write index: "@, text@);
                }
                Err(SshpassError::KeychainAccess(m))
            },
        }
    }

    /// Stores the password in the credential `credential_target(key)`, then
    /// writes the index text `store_index_update` gives for the index read
    /// back (nothing when the key is listed already); every failure is a
    /// credential-store access error naming the step that failed.
    pub fn store(&self, key: &str, password: &Password) -> (r: Result<(), SshpassError>)
        ensures
            r matches Err(e) ==> failed_with(e, "failed to store: "@) || index_read_failure(e)
                || index_write_failure(e),
    {
        let entry = Self::entry(key)?;
        match keyring_set_password(&entry, password.expose_secret()) {
            Ok(()) => {},
            Err(e) => {
                let text = keyring_error_text(&e);
                let m = joined_message("failed to store: ", text.as_str());
                proof {
                    lemma_prefix_of_concat("failed to store: "@, text@);
                }
                return Err(SshpassError::KeychainAccess(m));
            },
        }
        let read = self.read_index_text()?;
        let ghost g_read = read;
        proof {
            if let Err(KeyringFailure::Other(t)) = g_read {
                lemma_prefix_of_concat("failed to read index: "@, t@);
            }
        }
        match store_index_update(read, key)? {
            Some(text) => self.write_index(text.as_str()),
            None => Ok(()),
        }
    }

    /// The password read from the credential `credential_target(key)`.
    pub fn get(&self, key: &str) -> (r: Result<Password, SshpassError>)
        ensures
            r matches Err(e) ==> e is KeychainAccess,
    {
        let entry = Self::entry(key)?;
        let read = match keyring_get_password(&entry) {
            Ok(pw) => Ok(pw),
            Err(e) => Err(classify_keyring_error(&e)),
        };
        password_from_read(key, read)
    }

    /// Deletes the credential `credential_target(key)`, then writes the
    /// index text `delete_index_update` gives for the index read back; a
    /// missing credential is reported as a key not found, other failures
    /// name the step that failed.
    pub fn delete(&self, key: &str) -> (r: Result<(), SshpassError>)
        ensures
            r matches Err(e) ==> (e matches SshpassError::KeychainAccess(m) && m@
                == key_not_found_message(key@)) || failed_with(e, "failed to delete: "@)
                || index_read_failure(e) || index_write_failure(e),
    {
        let entry = Self::entry(key)?;
        let outcome = match keyring_delete_credential(&entry) {
            Ok(()) => Ok(()),
            Err(e) => Err(classify_keyring_error(&e)),
        };
        let ghost g_outcome = outcome;
        proof {
            if let Err(KeyringFailure::Other(t)) = g_outcome {
                lemma_prefix_of_concat("failed to delete: "@, t@);
            }
        }
        deletion_outcome(key, outcome)?;
        let read = self.read_index_text()?;
        let ghost g_read = read;
        proof {
            if let Err(KeyringFailure::Other(t)) = g_read {
                lemma_prefix_of_concat("failed to read index: "@, t@);
            }
        }
        let text = delete_index_update(read, key)?;
        self.write_index(text.as_str())
    }

    /// The keys the index lists: each non-empty and without line breaks.
    pub fn list(&self) -> (r: Result<Vec<String>, SshpassError>)
        ensures
            r matches Err(e) ==> index_read_failure(e),
            r matches Ok(keys) ==> forall|i: int|
                0 <= i < keys@.len() ==> index_key(#[trigger] keys@[i]@),
    {
        self.read_index()
    }
}

/// After storing a password under a key, reading the key gives that
/// password back, and every other key reads as before.
pub proof fn law_store_then_get(
    store: Map<Seq<char>, Seq<char>>,
    key: Seq<char>,
    password: Seq<char>,
    other: Seq<char>,
)
    ensures
        store.insert(key, password).contains_key(key),
        store.insert(key, password)[key] == password,
        other != key ==> (store.insert(key, password).contains_key(other) == store.contains_key(
            other,
        )),
        other != key && store.contains_key(other) ==> store.insert(key, password)[other]
            == store[other],
{
}

/// After deleting a key, the key is not found, and every other key reads
/// as before.
pub proof fn law_delete_then_get(store: Map<Seq<char>, Seq<char>>, key: Seq<char>, other: Seq<char>)
    ensures
        !store.remove(key).contains_key(key),
        other != key ==> (store.remove(key).contains_key(other) == store.contains_key(other)),
        other != key && store.contains_key(other) ==> store.remove(key)[other] == store[other],
{
}

/// `prefix` + `key` + `'`.
fn key_message(prefix: &str, key: &str) -> (s: String)
    ensures
        s@ == prefix@ + key@ + "'"@,
{
    let mut s = joined_message(prefix, key);
    s.append("'");
    s
}

/// The line printed once a password is stored.
pub fn stored_message(key: &str) -> (s: String)
    ensures
        s@ == "Password stored for key '"@ + key@ + "'"@,
{
    key_message("Password stored for key '", key)
}

/// The line printed once a password is deleted.
pub fn deleted_message(key: &str) -> (s: String)
    ensures
        s@ == "Password deleted for key '"@ + key@ + "'"@,
{
    key_message("Password deleted for key '", key)
}

/// The lines printed for a key listing: the keys, one per line, or
/// `(empty)` when there are none.
pub fn list_lines(keys: &[String]) -> (lines: Vec<String>)
    ensures
        keys@.len() == 0 ==> seq_views(lines@) == seq!["(empty)"@],
        keys@.len() > 0 ==> seq_views(lines@) == seq_views(keys@),
{
    let mut lines: Vec<String> = Vec::new();
    if keys.len() == 0 {
        lines.push("(empty)".to_owned());
        proof {
            assert(seq_views(lines@) =~= seq!["(empty)"@]);
        }
        return lines;
    }
    let mut i: usize = 0;
    while i < keys.len()
        invariant
            i <= keys@.len(),
            seq_views(lines@) == seq_views(keys@).take(i as int),
        decreases keys@.len() - i,
    {
        let ghost before = lines@;
        let k = keys[i].clone();
        lines.push(k);
        proof {
            assert(seq_views(lines@) =~= seq_views(before).push(k@));
            assert(seq_views(keys@).take(i + 1) =~= seq_views(keys@).take(i as int).push(
                keys@[i as int]@,
            ));
        }
        i = i + 1;
    }
    proof {
        assert(seq_views(keys@).take(i as int) =~= seq_views(keys@));
    }
    lines
}

proof fn lemma_newline_shift(a: Seq<char>, b: Seq<char>, i: int)
    requires
        0 <= i <= b.len(),
    ensures
        next_newline(a + b, a.len() + i) == a.len() + next_newline(b, i),
    decreases b.len() - i,
{
    if i < b.len() {
        assert((a + b)[a.len() + i] == b[i]);
        if b[i] != '\n' {
            lemma_newline_shift(a, b, i + 1);
        }
    }
}

proof fn lemma_lines_shift(a: Seq<char>, b: Seq<char>, i: int)
    requires
        0 <= i <= b.len(),
    ensures
        lines_from(a + b, a.len() + i) == lines_from(b, i),
    decreases b.len() - i,
{
    if i < b.len() {
        let s = a + b;
        let n = a.len() as int;
        lemma_newline_shift(a, b, i);
        lemma_next_newline_ge(b, i);
        let k = next_newline(b, i);
        assert(s.subrange(n + i, n + k) =~= b.subrange(i, k));
        if k < b.len() {
            lemma_lines_shift(a, b, k + 1);
        }
    }
}

proof fn lemma_newline_at(s: Seq<char>, i: int, j: int)
    requires
        0 <= i <= j <= s.len(),
        forall|p: int| i <= p < j ==> s[p] != '\n',
        j < s.len() ==> s[j] == '\n',
    ensures
        next_newline(s, i) == j,
    decreases j - i,
{
    if i < j {
        lemma_newline_at(s, i + 1, j);
    }
}

/// Reading back the index text written for a list of keys gives the same
/// keys, when none is empty, none holds a line break, and none but the
/// last ends with a carriage return.
pub proof fn law_index_round_trip(keys: Seq<Seq<char>>)
    requires
        forall|i: int| 0 <= i < keys.len() ==> (#[trigger] keys[i]).len() > 0,
        forall|i: int, p: int| 0 <= i < keys.len() && 0 <= p < keys[i].len() ==> #[trigger] keys[i][p] != '\n',
        forall|i: int| 0 <= i < keys.len() - 1 ==> (#[trigger] keys[i]).last() != '\r',
    ensures
        index_entries_of(join_with(keys, "\n"@)) == keys,
    decreases keys.len(),
{
    reveal_strlit("\n");
    reveal_with_fuel(Seq::filter, 1);
    let s = join_with(keys, "\n"@);
    if keys.len() == 0 {
        assert(lines_of(s) =~= Seq::<Seq<char>>::empty());
        assert(index_entries_of(s) =~= keys);
    } else if keys.len() == 1 {
        let k0 = keys[0];
        assert(s == k0);
        lemma_newline_at(s, 0, s.len() as int);
        assert(s.subrange(0, s.len() as int) =~= k0);
        assert(lines_of(s) =~= seq![k0]);
        assert(seq![k0].drop_last() =~= Seq::<Seq<char>>::empty());
        assert(index_entries_of(s) =~= keys);
    } else {
        let k0 = keys[0];
        let rest = keys.drop_first();
        lemma_join_cons(keys, "\n"@);
        let j = join_with(rest, "\n"@);
        assert(s =~= (k0 + "\n"@) + j);
        assert forall|p: int| 0 <= p < k0.len() implies s[p] != '\n' by {
            assert(s[p] == k0[p]);
        }
        lemma_newline_at(s, 0, k0.len() as int);
        assert(s.subrange(0, k0.len() as int) =~= k0);
        lemma_lines_shift(k0 + "\n"@, j, 0);
        assert forall|i: int| 0 <= i < rest.len() implies (#[trigger] rest[i]).len() > 0 by {
            assert(rest[i] == keys[i + 1]);
        }
        assert forall|i: int, p: int| 0 <= i < rest.len() && 0 <= p < rest[i].len() implies #[trigger] rest[i][p] != '\n' by {
            assert(rest[i] == keys[i + 1]);
        }
        assert forall|i: int| 0 <= i < rest.len() - 1 implies (#[trigger] rest[i]).last() != '\r' by {
            assert(rest[i] == keys[i + 1]);
        }
        law_index_round_trip(rest);
        assert(k0.last() != '\r');
        assert(lines_of(s) == seq![k0] + lines_of(j));
        assert(index_entries_of(s) == lines_of(s).filter(nonempty_text()));
        let lj = lines_of(j);
        Seq::filter_distributes_over_add(seq![k0], lj, nonempty_text());
        assert(seq![k0].filter(nonempty_text()) =~= seq![k0]) by {
            assert(seq![k0].drop_last() =~= Seq::<Seq<char>>::empty());
        }
        assert(index_entries_of(s) =~= keys);
    }
}


/// A key that reads back from the index unchanged: not empty, without
/// line breaks, not ending in a carriage return.
pub open spec fn plain_index_key(k: Seq<char>) -> bool {
    index_key(k) && k.last() != '\r'
}

/// The index upkeep of the credential store: the text written after
/// storing a new key reads back as the keys before with that key appended,
/// and the text written after deleting a key reads back as the keys before
/// without it, in order, and no longer lists it.
pub proof fn law_index_upkeep(keys: Seq<Seq<char>>, key: Seq<char>)
    requires
        forall|i: int| 0 <= i < keys.len() ==> plain_index_key(#[trigger] keys[i]),
        plain_index_key(key),
    ensures
        index_entries_of(join_with(keys.push(key), "\n"@)) == keys.push(key),
        index_entries_of(join_with(keys_without(keys, key), "\n"@)) == keys_without(keys, key),
        !keys_without(keys, key).contains(key),
{
    let added = keys.push(key);
    assert forall|i: int| 0 <= i < added.len() implies plain_index_key(#[trigger] added[i]) by {
        if i < keys.len() {
            assert(added[i] == keys[i]);
        }
    }
    law_index_round_trip(added);
    let kept = keys_without(keys, key);
    assert forall|i: int| 0 <= i < kept.len() implies plain_index_key(#[trigger] kept[i])
        && kept[i] != key by {
        keys.lemma_filter_pred(not_key(key), i);
        assert(kept.contains(kept[i]));
        lemma_filter_from(keys, not_key(key), kept[i]);
        let j = choose|j: int| 0 <= j < keys.len() && keys[j] == kept[i];
        assert(plain_index_key(keys[j]));
    }
    law_index_round_trip(kept);
}

} // verus!

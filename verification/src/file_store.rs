use vstd::prelude::*;
use vstd::string::StringExecFns;

use crate::error::SshpassError;
use crate::keychain::{index_with_key, index_without_key, join_with, key_not_found, key_not_found_message};
use crate::order::{lex_order, sort_texts, texts};
use crate::password::Password;
use crate::scan::{
    find_char, find_from, find_text, lemma_find_from_found, nonempty_text, split_on, split_ranges,
    trim_bounds, trimmed, unquoted,
};
use crate::string_map::StringMap;
use crate::text::{chars_of, seq_views, string_from_chars};

verus! {

/// The entries of a JSON object body, split at the commas that stand
/// outside strings and brackets; `i` is the scan position, `start` the
/// start of the current entry.
pub open spec fn pairs_scan(
    s: Seq<char>,
    i: int,
    start: int,
    depth: int,
    in_string: bool,
    escape: bool,
) -> Seq<Seq<char>>
    decreases s.len() - i,
{
    if i >= s.len() {
        if start < s.len() {
            seq![s.subrange(start, s.len() as int)]
        } else {
            Seq::empty()
        }
    } else if escape {
        pairs_scan(s, i + 1, start, depth, in_string, false)
    } else if s[i] == '\\' && in_string {
        pairs_scan(s, i + 1, start, depth, in_string, true)
    } else if s[i] == '"' {
        pairs_scan(s, i + 1, start, depth, !in_string, false)
    } else if (s[i] == '{' || s[i] == '[') && !in_string {
        pairs_scan(s, i + 1, start, depth + 1, in_string, false)
    } else if (s[i] == '}' || s[i] == ']') && !in_string {
        pairs_scan(s, i + 1, start, depth - 1, in_string, false)
    } else if s[i] == ',' && !in_string && depth == 0 {
        seq![s.subrange(start, i)] + pairs_scan(s, i + 1, i + 1, depth, in_string, false)
    } else {
        pairs_scan(s, i + 1, start, depth, in_string, false)
    }
}

/// The entries of a JSON object body.
pub open spec fn json_pairs(s: Seq<char>) -> Seq<Seq<char>> {
    pairs_scan(s, 0, 0, 0, false, false)
}

/// The key and value of an entry `"key":"value"`: the text before and after
/// its first colon, each with white space and quotes trimmed; none when
/// there is no colon or the key is empty.
pub open spec fn kv_of(pair: Seq<char>) -> Option<(Seq<char>, Seq<char>)> {
    let p = trimmed(pair, false);
    match find_from(p, seq![':'], 0) {
        None => None,
        Some(c) => {
            let k = unquoted(p.subrange(0, c));
            let v = unquoted(p.subrange(c + 1, p.len() as int));
            if k.len() == 0 {
                None
            } else {
                Some((k, v))
            }
        },
    }
}

/// The map the entries describe, later entries overriding earlier ones.
pub open spec fn pairs_map(pairs: Seq<Seq<char>>) -> Map<Seq<char>, Seq<char>>
    decreases pairs.len(),
{
    if pairs.len() == 0 {
        Map::empty()
    } else {
        let m = pairs_map(pairs.drop_last());
        match kv_of(pairs.last()) {
            Some(kv) => m.insert(kv.0, kv.1),
            None => m,
        }
    }
}

/// The text between the first `open` after the first `label` and the next
/// `close` (or the end).
pub open spec fn section(s: Seq<char>, label: Seq<char>, open: char, close: char) -> Option<
    Seq<char>,
> {
    match find_from(s, label, 0) {
        None => None,
        Some(i) => match find_from(s, seq![open], i) {
            None => None,
            Some(st) => {
                let end = match find_from(s, seq![close], st) {
                    Some(e) => e,
                    None => s.len() as int,
                };
                Some(s.subrange(st + 1, end))
            },
        },
    }
}

/// The passwords a store text holds.
pub open spec fn stored_passwords(c: Seq<char>) -> Map<Seq<char>, Seq<char>> {
    match section(c, "\"passwords\""@, '{', '}') {
        None => Map::empty(),
        Some(inner) => pairs_map(json_pairs(inner)),
    }
}

/// The items of a JSON list body: the comma-separated pieces, unquoted,
/// without the empty ones.
pub open spec fn list_items(inner: Seq<char>) -> Seq<Seq<char>> {
    split_on(inner, ',').map_values(|p: Seq<char>| unquoted(p)).filter(nonempty_text())
}

/// The key index a store text holds.
pub open spec fn stored_index(c: Seq<char>) -> Seq<Seq<char>> {
    match section(c, "\"index\""@, '[', ']') {
        None => Seq::empty(),
        Some(inner) => list_items(inner),
    }
}

/// What a store file's text holds: its passwords and its key index. Empty
/// text, or `{}`, holds nothing.
pub open spec fn parsed_store(content: Seq<char>) -> (Map<Seq<char>, Seq<char>>, Seq<Seq<char>>) {
    let c = trimmed(content, false);
    if c.len() == 0 || c == "{}"@ {
        (Map::empty(), Seq::empty())
    } else {
        (stored_passwords(c), stored_index(c))
    }
}

/// `"text"`.
pub open spec fn quoted(t: Seq<char>) -> Seq<char> {
    seq!['"'] + t + seq!['"']
}

/// `"key":"value"`.
pub open spec fn entry_text(k: Seq<char>, v: Seq<char>) -> Seq<char> {
    quoted(k) + seq![':'] + quoted(v)
}

/// The text of a store with the given (already ordered) entries and index.
pub open spec fn json_of(entries: Seq<Seq<char>>, index: Seq<Seq<char>>) -> Seq<char> {
    "{\"passwords\":{"@ + join_with(entries, ","@) + "},\"index\":["@ + join_with(
        index.map_values(|k: Seq<char>| quoted(k)),
        ","@,
    ) + "]}"@
}

/// The entries of `m`, taken in `order`, sorted as text.
pub open spec fn sorted_entries(m: Map<Seq<char>, Seq<char>>, order: Seq<Seq<char>>) -> Seq<
    Seq<char>,
> {
    order.map_values(|k: Seq<char>| entry_text(k, m[k])).sort_by(lex_order())
}

/// The text written for passwords `m` (keys enumerated by `order`) and the
/// key index.
pub open spec fn store_json(
    m: Map<Seq<char>, Seq<char>>,
    order: Seq<Seq<char>>,
    index: Seq<Seq<char>>,
) -> Seq<char> {
    json_of(sorted_entries(m, order), index)
}

/// The entries of a JSON object body, as index ranges.
pub fn json_pair_ranges(s: &[char]) -> (r: Vec<(usize, usize)>)
    ensures
        r@.len() == json_pairs(s@).len(),
        forall|i: int|
            #![trigger r@[i]]
            0 <= i < r@.len() ==> r@[i].0 <= r@[i].1 <= s@.len() && s@.subrange(
                r@[i].0 as int,
                r@[i].1 as int,
            ) == json_pairs(s@)[i],
{
    let mut r: Vec<(usize, usize)> = Vec::new();
    let mut depth: i128 = 0;
    let mut start: usize = 0;
    let mut in_string = false;
    let mut escape = false;
    let mut i: usize = 0;
    while i < s.len()
        invariant
            start <= i <= s@.len(),
            -(i as int) <= depth <= i,
            json_pairs(s@) == r@.map_values(
                |p: (usize, usize)| s@.subrange(p.0 as int, p.1 as int),
            ) + pairs_scan(s@, i as int, start as int, depth as int, in_string, escape),
            forall|k: int|
                #![trigger r@[k]]
                0 <= k < r@.len() ==> r@[k].0 <= r@[k].1 <= s@.len(),
        decreases s@.len() - i,
    {
        let ch = s[i];
        if escape {
            escape = false;
        } else if ch == '\\' && in_string {
            escape = true;
        } else if ch == '"' {
            in_string = !in_string;
        } else if (ch == '{' || ch == '[') && !in_string {
            depth = depth + 1;
        } else if (ch == '}' || ch == ']') && !in_string {
            depth = depth - 1;
        } else if ch == ',' && !in_string && depth == 0 {
            let ghost before = r@;
            r.push((start, i));
            proof {
                assert(r@.map_values(|p: (usize, usize)| s@.subrange(p.0 as int, p.1 as int))
                    =~= before.map_values(
                    |p: (usize, usize)| s@.subrange(p.0 as int, p.1 as int),
                ).push(s@.subrange(start as int, i as int)));
            }
            start = i + 1;
        }
        i = i + 1;
    }
    if start < s.len() {
        let ghost before = r@;
        r.push((start, s.len()));
        proof {
            assert(r@.map_values(|p: (usize, usize)| s@.subrange(p.0 as int, p.1 as int))
                =~= before.map_values(
                |p: (usize, usize)| s@.subrange(p.0 as int, p.1 as int),
            ).push(s@.subrange(start as int, s@.len() as int)));
        }
    }
    proof {
        assert(json_pairs(s@) =~= r@.map_values(
            |p: (usize, usize)| s@.subrange(p.0 as int, p.1 as int),
        ));
        assert forall|i: int| 0 <= i < r@.len() implies s@.subrange(
            #[trigger] r@[i].0 as int,
            r@[i].1 as int,
        ) == json_pairs(s@)[i] by {}
    }
    r
}

/// The key and value of an entry, as `kv_of` describes them.
pub fn parse_kv_pair(pair: &[char]) -> (r: Option<(String, String)>)
    ensures
        match kv_of(pair@) {
            None => r is None,
            Some(kv) => r matches Some(p) && p.0@ == kv.0 && p.1@ == kv.1,
        },
{
    let (a, b) = trim_bounds(pair, 0, pair.len(), false);
    let p = &pair[a..b];
    proof {
        assert(pair@.subrange(0, pair@.len() as int) =~= pair@);
    }
    let colon = match find_char(p, ':', 0) {
        Some(c) => c,
        None => {
            return None;
        },
    };
    let (ka, kb) = trim_bounds(p, 0, colon, false);
    let (ka, kb) = trim_bounds(p, ka, kb, true);
    let (va, vb) = trim_bounds(p, colon + 1, p.len(), false);
    let (va, vb) = trim_bounds(p, va, vb, true);
    if ka == kb {
        return None;
    }
    let key = string_from_chars(&p[ka..kb]);
    let value = string_from_chars(&p[va..vb]);
    Some((key, value))
}

/// The bounds of `section(s, label, open, close)`.
fn section_bounds(s: &[char], label: &[char], open: char, close: char) -> (r: Option<
    (usize, usize),
>)
    requires
        open != close,
    ensures
        match r {
            Some(b) => b.0 <= b.1 <= s@.len() && section(s@, label@, open, close) == Some(
                s@.subrange(b.0 as int, b.1 as int),
            ),
            None => section(s@, label@, open, close) is None,
        },
{
    let i = match find_text(s, label, 0) {
        Some(i) => i,
        None => {
            return None;
        },
    };
    let st = match find_char(s, open, i) {
        Some(st) => st,
        None => {
            return None;
        },
    };
    let end = match find_char(s, close, st) {
        Some(e) => e,
        None => s.len(),
    };
    Some((st + 1, end))
}

/// The items of a JSON list body, as `list_items` describes them.
fn parse_list_items(inner: &[char]) -> (r: Vec<String>)
    ensures
        seq_views(r@) == list_items(inner@),
{
    let pieces = split_ranges(inner, ',');
    let ghost all = split_on(inner@, ',').map_values(|p: Seq<char>| unquoted(p));
    let mut r: Vec<String> = Vec::new();
    let mut j: usize = 0;
    while j < pieces.len()
        invariant
            j <= pieces@.len(),
            pieces@.len() == split_on(inner@, ',').len(),
            all == split_on(inner@, ',').map_values(|p: Seq<char>| unquoted(p)),
            forall|i: int|
                #![trigger pieces@[i]]
                0 <= i < pieces@.len() ==> pieces@[i].0 <= pieces@[i].1 <= inner@.len()
                    && inner@.subrange(pieces@[i].0 as int, pieces@[i].1 as int) == split_on(
                    inner@,
                    ',',
                )[i],
            seq_views(r@) == all.take(j as int).filter(nonempty_text()),
        decreases pieces@.len() - j,
    {
        let (x, y) = pieces[j];
        let (a, b) = trim_bounds(inner, x, y, false);
        let (a, b) = trim_bounds(inner, a, b, true);
        let ghost before = r@;
        proof {
            reveal_with_fuel(Seq::filter, 1);
            assert(all.take(j + 1).drop_last() =~= all.take(j as int));
            assert(all.take(j + 1).last() == inner@.subrange(a as int, b as int));
        }
        if a < b {
            let item = string_from_chars(&inner[a..b]);
            r.push(item);
            proof {
                assert(seq_views(r@) =~= seq_views(before).push(item@));
            }
        }
        j = j + 1;
    }
    proof {
        assert(all.take(j as int) =~= all);
    }
    r
}

/// Joins the texts with `sep` between them.
fn join_texts(parts: &[Vec<char>], sep: &str) -> (r: String)
    ensures
        r@ == join_with(texts(parts@), sep@),
{
    let mut out = String::new();
    let mut i: usize = 0;
    proof {
        assert(texts(parts@).take(0) =~= Seq::<Seq<char>>::empty());
    }
    while i < parts.len()
        invariant
            i <= parts@.len(),
            out@ == join_with(texts(parts@).take(i as int), sep@),
        decreases parts@.len() - i,
    {
        let ghost views = texts(parts@);
        proof {
            assert(views.take(i + 1).drop_last() =~= views.take(i as int));
        }
        if i > 0 {
            out.append(sep);
        }
        let part = string_from_chars(parts[i].as_slice());
        out.append(part.as_str());
        proof {
            if i == 0 {
                assert(out@ =~= views.take(1)[0]);
            }
        }
        i = i + 1;
    }
    proof {
        assert(texts(parts@).take(i as int) =~= texts(parts@));
    }
    out
}

/// `"text"`, as characters.
fn quoted_chars(t: &str) -> (r: Vec<char>)
    ensures
        r@ == quoted(t@),
{
    let mut s = String::new();
    s.push('"');
    s.append(t);
    s.push('"');
    proof {
        assert(s@ =~= quoted(t@));
    }
    chars_of(s.as_str())
}

/// The contents of the password store file: passwords by key, and the
/// index of keys in the order they were first stored.
pub struct FileStore {
    passwords: StringMap,
    index: Vec<String>,
}

impl View for FileStore {
    type V = (Map<Seq<char>, Seq<char>>, Seq<Seq<char>>);

    closed spec fn view(&self) -> (Map<Seq<char>, Seq<char>>, Seq<Seq<char>>) {
        (self.passwords@, seq_views(self.index@))
    }
}

impl FileStore {
    /// The internal consistency of the password map.
    pub closed spec fn wf(&self) -> bool {
        self.passwords.wf()
    }

    /// The keys of the password map, in the order they were added.
    pub closed spec fn key_order(&self) -> Seq<Seq<char>> {
        self.passwords.key_order()
    }

    /// The keys of the password map are listed once each by `key_order`.
    pub proof fn lemma_key_order(&self)
        requires
            self.wf(),
        ensures
            self.key_order().no_duplicates(),
            self.key_order().to_set() == self@.0.dom(),
    {
        self.passwords.lemma_dom_is_keys();
    }

    /// An empty store.
    pub fn new() -> (s: FileStore)
        ensures
            s.wf(),
            s@.0 == Map::<Seq<char>, Seq<char>>::empty(),
            s@.1 == Seq::<Seq<char>>::empty(),
    {
        let s = FileStore { passwords: StringMap::new(), index: Vec::new() };
        proof {
            assert(seq_views(s.index@) =~= Seq::<Seq<char>>::empty());
        }
        s
    }

    /// Reads a store file's text: the entries of its `"passwords"` object
    /// and the items of its `"index"` list.
    pub fn parse(content: &str) -> (s: FileStore)
        ensures
            s.wf(),
            s@ == parsed_store(content@),
    {
        let all = chars_of(content);
        let (a, b) = trim_bounds(all.as_slice(), 0, all.len(), false);
        proof {
            assert(all@.subrange(0, all@.len() as int) =~= all@);
        }
        let c = &all.as_slice()[a..b];
        proof {
            reveal_strlit("{}");
        }
        if c.len() == 0 || (c.len() == 2 && c[0] == '{' && c[1] == '}') {
            proof {
                if c@.len() == 2 {
                    assert(c@ =~= "{}"@);
                }
            }
            return FileStore::new();
        }
        proof {
            if c@ == "{}"@ {
                assert(c@[0] == '{' && c@[1] == '}');
            }
        }
        let mut passwords = StringMap::new();
        let label = chars_of("\"passwords\"");
        match section_bounds(c, label.as_slice(), '{', '}') {
            Some((x, y)) => {
                let inner = &c[x..y];
                let pieces = json_pair_ranges(inner);
                let ghost pairs = json_pairs(inner@);
                let mut j: usize = 0;
                while j < pieces.len()
                    invariant
                        j <= pieces@.len(),
                        pieces@.len() == pairs.len(),
                        pairs == json_pairs(inner@),
                        forall|i: int|
                            #![trigger pieces@[i]]
                            0 <= i < pieces@.len() ==> pieces@[i].0 <= pieces@[i].1
                                <= inner@.len() && inner@.subrange(
                                pieces@[i].0 as int,
                                pieces@[i].1 as int,
                            ) == pairs[i],
                        passwords.wf(),
                        passwords@ == pairs_map(pairs.take(j as int)),
                    decreases pieces@.len() - j,
                {
                    let (p, q) = pieces[j];
                    proof {
                        assert(pairs.take(j + 1).drop_last() =~= pairs.take(j as int));
                        assert(pairs.take(j + 1).last() == inner@.subrange(p as int, q as int));
                    }
                    match parse_kv_pair(&inner[p..q]) {
                        Some((k, v)) => {
                            passwords.insert(k.as_str(), v.as_str());
                        },
                        None => {},
                    }
                    j = j + 1;
                }
                proof {
                    assert(pairs.take(j as int) =~= pairs);
                }
            },
            None => {},
        }
        let label = chars_of("\"index\"");
        let index = match section_bounds(c, label.as_slice(), '[', ']') {
            Some((x, y)) => parse_list_items(&c[x..y]),
            None => {
                let v: Vec<String> = Vec::new();
                proof {
                    assert(seq_views(v@) =~= Seq::<Seq<char>>::empty());
                }
                v
            },
        };
        FileStore { passwords, index }
    }

    /// The store's text: its entries `"key":"value"` sorted as text, then
    /// its index.
    pub fn to_json(&self) -> (r: String)
        requires
            self.wf(),
        ensures
            r@ == store_json(self@.0, self.key_order(), self@.1),
    {
        let n = self.passwords.len();
        let ghost order = self.key_order();
        let ghost m = self@.0;
        let ghost all = order.map_values(|k: Seq<char>| entry_text(k, m[k]));
        let mut entries: Vec<Vec<char>> = Vec::new();
        let mut i: usize = 0;
        proof {
            assert(texts(entries@) =~= all.take(0));
        }
        while i < n
            invariant
                i <= n,
                n == order.len(),
                order == self.key_order(),
                m == self@.0,
                self.wf(),
                all == order.map_values(|k: Seq<char>| entry_text(k, m[k])),
                texts(entries@) == all.take(i as int),
            decreases n - i,
        {
            let (k, v) = self.passwords.entry_at(i);
            let mut e = String::new();
            e.push('"');
            e.append(k.as_str());
            e.push('"');
            e.push(':');
            e.push('"');
            e.append(v.as_str());
            e.push('"');
            let ghost before = texts(entries@);
            let ec = chars_of(e.as_str());
            proof {
                assert(e@ =~= entry_text(k@, v@));
            }
            entries.push(ec);
            proof {
                assert(texts(entries@) =~= before.push(ec@));
                assert(all.take(i + 1) =~= all.take(i as int).push(all[i as int]));
            }
            i = i + 1;
        }
        proof {
            assert(all.take(i as int) =~= all);
        }
        let sorted = sort_texts(entries);
        let body = join_texts(sorted.as_slice(), ",");
        let mut items: Vec<Vec<char>> = Vec::new();
        let mut j: usize = 0;
        let ghost idx = self@.1;
        proof {
            assert(texts(items@) =~= idx.map_values(|k: Seq<char>| quoted(k)).take(0));
        }
        while j < self.index.len()
            invariant
                j <= self.index@.len(),
                idx == seq_views(self.index@),
                texts(items@) == idx.map_values(|k: Seq<char>| quoted(k)).take(j as int),
            decreases self.index@.len() - j,
        {
            let q = quoted_chars(self.index[j].as_str());
            let ghost before = texts(items@);
            items.push(q);
            proof {
                assert(texts(items@) =~= before.push(q@));
                assert(idx.map_values(|k: Seq<char>| quoted(k)).take(j + 1) =~= idx.map_values(
                    |k: Seq<char>| quoted(k),
                ).take(j as int).push(quoted(idx[j as int])));
            }
            j = j + 1;
        }
        proof {
            assert(idx.map_values(|k: Seq<char>| quoted(k)).take(j as int) =~= idx.map_values(
                |k: Seq<char>| quoted(k),
            ));
        }
        let list = join_texts(items.as_slice(), ",");
        let mut out = String::new();
        out.append("{\"passwords\":{");
        out.append(body.as_str());
        out.append("},\"index\":[");
        out.append(list.as_str());
        out.append("]}");
        proof {
            assert(out@ =~= json_of(texts(sorted@), idx));
        }
        out
    }

    /// Stores `password` under `key`, and lists the key in the index when
    /// it is not listed yet.
    pub fn store(&mut self, key: &str, password: &Password)
        requires
            old(self).wf(),
        ensures
            final(self).wf(),
            final(self)@.0 == old(self)@.0.insert(key@, password@),
            final(self)@.1 == (if old(self)@.1.contains(key@) {
                old(self)@.1
            } else {
                old(self)@.1.push(key@)
            }),
    {
        self.passwords.insert(key, password.expose_secret());
        let mut index: Vec<String> = Vec::new();
        std::mem::swap(&mut index, &mut self.index);
        let (index, _) = index_with_key(index, key);
        self.index = index;
    }

    /// The password stored under `key`, or a "key not found" error.
    pub fn get(&self, key: &str) -> (r: Result<Password, SshpassError>)
        requires
            self.wf(),
        ensures
            self@.0.contains_key(key@) ==> (r matches Ok(p) && p@ == self@.0[key@]),
            !self@.0.contains_key(key@) ==> (r matches Err(SshpassError::KeychainAccess(m)) && m@
                == key_not_found_message(key@)),
    {
        match self.passwords.get(key) {
            Some(v) => Ok(Password::new(v)),
            None => Err(key_not_found(key)),
        }
    }

    /// Deletes the password under `key` and drops the key from the index;
    /// when there is none, reports it and leaves the store as it was.
    pub fn delete(&mut self, key: &str) -> (r: Result<(), SshpassError>)
        requires
            old(self).wf(),
        ensures
            final(self).wf(),
            old(self)@.0.contains_key(key@) ==> r is Ok && final(self)@.0 == old(self)@.0.remove(
                key@,
            ) && final(self)@.1 == old(self)@.1.filter(|k: Seq<char>| k != key@),
            !old(self)@.0.contains_key(key@) ==> (r matches Err(SshpassError::KeychainAccess(m))
                && m@ == key_not_found_message(key@)) && final(self)@ == old(self)@,
    {
        if !self.passwords.remove(key) {
            return Err(key_not_found(key));
        }
        let index = index_without_key(self.index.as_slice(), key);
        self.index = index;
        Ok(())
    }

    /// The keys in the index, in order.
    pub fn list(&self) -> (r: Vec<String>)
        ensures
            seq_views(r@) == self@.1,
    {
        let mut r: Vec<String> = Vec::new();
        let mut i: usize = 0;
        while i < self.index.len()
            invariant
                i <= self.index@.len(),
                seq_views(r@) == seq_views(self.index@).take(i as int),
            decreases self.index@.len() - i,
        {
            let ghost before = r@;
            let k = self.index[i].clone();
            r.push(k);
            proof {
                assert(seq_views(r@) =~= seq_views(before).push(k@));
                assert(seq_views(self.index@).take(i + 1) =~= seq_views(self.index@).take(
                    i as int,
                ).push(self.index@[i as int]@));
            }
            i = i + 1;
        }
        proof {
            assert(seq_views(self.index@).take(i as int) =~= seq_views(self.index@));
        }
        r
    }
}

/// A password store kept in a JSON file at `path`.
pub struct FileKeychainBackend {
    path: String,
}

impl FileKeychainBackend {
    /// A store kept at `path`.
    pub fn new(path: &str) -> (b: FileKeychainBackend)
        ensures
            b.path() == path@,
    {
        FileKeychainBackend { path: path.to_owned() }
    }

    /// The path of the store file.
    pub closed spec fn path(&self) -> Seq<char> {
        self.path@
    }

    /// The path of the store file.
    pub fn file_path(&self) -> (p: &str)
        ensures
            p@ == self.path(),
    {
        self.path.as_str()
    }
}

} // verus!

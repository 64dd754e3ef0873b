use vstd::prelude::*;

use crate::file_store::{
    FileStore,
    entry_text, json_of, json_pairs, kv_of, list_items, pairs_map, pairs_scan, parsed_store,
    quoted, section, sorted_entries, store_json, stored_index, stored_passwords,
};
use crate::keychain::{join_with, lemma_join_cons};
use crate::order::{lemma_lex_total_ordering, lex_order};
use crate::scan::{
    find_from, lemma_find_from_found, is_white_space, nonempty_text, split_on, split_scan, trim_back, trim_front, trimmed,
    unquoted,
};

verus! {

/// `c` does not occur in `t`.
pub open spec fn lacks(t: Seq<char>, c: char) -> bool {
    forall|i: int| 0 <= i < t.len() ==> t[i] != c
}

/// A key that the store text keeps exactly: not empty, without quotes,
/// backslashes, colons or closing braces.
pub open spec fn safe_key(k: Seq<char>) -> bool {
    &&& k.len() > 0
    &&& lacks(k, '"')
    &&& lacks(k, '\\')
    &&& lacks(k, ':')
    &&& lacks(k, '}')
}

/// A password that the store text keeps exactly: without quotes,
/// backslashes or closing braces.
pub open spec fn safe_value(v: Seq<char>) -> bool {
    &&& lacks(v, '"')
    &&& lacks(v, '\\')
    &&& lacks(v, '}')
}

/// An index item that the store text keeps exactly: not empty, without
/// quotes, commas or closing brackets.
pub open spec fn safe_item(t: Seq<char>) -> bool {
    &&& t.len() > 0
    &&& lacks(t, '"')
    &&& lacks(t, ',')
    &&& lacks(t, ']')
}

/// No key or password is the word `index` (the label of the key index).
pub open spec fn without_index_word(m: Map<Seq<char>, Seq<char>>) -> bool {
    forall|k: Seq<char>| #[trigger] m.contains_key(k) ==> k != "index"@ && m[k] != "index"@
}

/// No key or password holds an opening bracket.
pub open spec fn without_brackets(m: Map<Seq<char>, Seq<char>>) -> bool {
    forall|k: Seq<char>| #[trigger] m.contains_key(k) ==> lacks(k, '[') && lacks(m[k], '[')
}

/// A store whose passwords and index the store text keeps exactly. The
/// word `index` may be a key or password only where no key or password
/// holds `[` (the reader looks for the index list after the first quoted
/// `index`).
pub open spec fn safe_store(m: Map<Seq<char>, Seq<char>>, index: Seq<Seq<char>>) -> bool {
    &&& forall|k: Seq<char>| #[trigger] m.contains_key(k) ==> safe_key(k) && safe_value(m[k])
    &&& forall|i: int| 0 <= i < index.len() ==> safe_item(#[trigger] index[i])
    &&& (without_index_word(m) || without_brackets(m))
}

/// An entry `"key":"value"` of a safe key and value.
pub open spec fn safe_entry(e: Seq<char>) -> bool {
    exists|k: Seq<char>, v: Seq<char>| safe_key(k) && safe_value(v) && e == entry_text(k, v)
}


proof fn lemma_join_lacks(es: Seq<Seq<char>>, sep: Seq<char>, c: char)
    requires
        forall|i: int| 0 <= i < es.len() ==> lacks(#[trigger] es[i], c),
        lacks(sep, c),
    ensures
        lacks(join_with(es, sep), c),
    decreases es.len(),
{
    if es.len() > 1 {
        lemma_join_lacks(es.drop_last(), sep, c);
        let j = join_with(es.drop_last(), sep);
        assert(lacks(es.last(), c));
        assert forall|i: int| 0 <= i < join_with(es, sep).len() implies join_with(es, sep)[i]
            != c by {
            if i < j.len() {
                assert(join_with(es, sep)[i] == j[i]);
            } else if i < j.len() + sep.len() {
                assert(join_with(es, sep)[i] == sep[i - j.len()]);
            } else {
                assert(join_with(es, sep)[i] == es.last()[i - j.len() - sep.len()]);
            }
        }
    } else if es.len() == 1 {
        assert(lacks(es[0], c));
    }
}

proof fn lemma_pairs_shift(
    a: Seq<char>,
    b: Seq<char>,
    i: int,
    start: int,
    depth: int,
    in_string: bool,
    escape: bool,
)
    requires
        0 <= start <= i <= b.len(),
    ensures
        pairs_scan(a + b, a.len() + i, a.len() + start, depth, in_string, escape) == pairs_scan(
            b,
            i,
            start,
            depth,
            in_string,
            escape,
        ),
    decreases b.len() - i,
{
    let s = a + b;
    let n = a.len();
    if i < b.len() {
        assert(s[n + i] == b[i]);
        let ch = b[i];
        if escape {
            lemma_pairs_shift(a, b, i + 1, start, depth, in_string, false);
        } else if ch == '\\' && in_string {
            lemma_pairs_shift(a, b, i + 1, start, depth, in_string, true);
        } else if ch == '"' {
            lemma_pairs_shift(a, b, i + 1, start, depth, !in_string, false);
        } else if (ch == '{' || ch == '[') && !in_string {
            lemma_pairs_shift(a, b, i + 1, start, depth + 1, in_string, false);
        } else if (ch == '}' || ch == ']') && !in_string {
            lemma_pairs_shift(a, b, i + 1, start, depth - 1, in_string, false);
        } else if ch == ',' && !in_string && depth == 0 {
            lemma_pairs_shift(a, b, i + 1, i + 1, depth, in_string, false);
            assert(s.subrange(n + start, n + i) =~= b.subrange(start, i));
        } else {
            lemma_pairs_shift(a, b, i + 1, start, depth, in_string, false);
        }
    } else {
        assert(s.subrange(n + start, s.len() as int) =~= b.subrange(start, b.len() as int));
    }
}

proof fn lemma_pairs_in_string(s: Seq<char>, i: int, j: int, start: int, depth: int)
    requires
        0 <= i <= j <= s.len(),
        forall|p: int| i <= p < j ==> s[p] != '"' && s[p] != '\\',
    ensures
        pairs_scan(s, i, start, depth, true, false) == pairs_scan(s, j, start, depth, true, false),
    decreases j - i,
{
    if i < j {
        lemma_pairs_in_string(s, i + 1, j, start, depth);
    }
}

/// The characters of `entry_text(k, v)`.
proof fn lemma_entry_chars(k: Seq<char>, v: Seq<char>)
    ensures
        ({
            let e = entry_text(k, v);
            &&& e.len() == k.len() + v.len() + 5
            &&& e[0] == '"'
            &&& forall|r: int| 0 <= r < k.len() ==> e[1 + r] == k[r]
            &&& e[k.len() + 1int] == '"'
            &&& e[k.len() + 2int] == ':'
            &&& e[k.len() + 3int] == '"'
            &&& forall|r: int| 0 <= r < v.len() ==> e[k.len() + 4 + r] == v[r]
            &&& e[k.len() + v.len() + 4int] == '"'
            &&& e.subrange(0, k.len() + 2int) == quoted(k)
            &&& e.subrange(k.len() + 3int, e.len() as int) == quoted(v)
        }),
{
    let e = entry_text(k, v);
    assert(e.subrange(0, k.len() + 2int) =~= quoted(k));
    assert(e.subrange(k.len() + 3int, e.len() as int) =~= quoted(v));
}

proof fn lemma_pairs_entry(s: Seq<char>, p0: int, k: Seq<char>, v: Seq<char>, start: int)
    requires
        0 <= p0,
        p0 + entry_text(k, v).len() <= s.len(),
        s.subrange(p0, p0 + entry_text(k, v).len()) == entry_text(k, v),
        lacks(k, '"'),
        lacks(k, '\\'),
        lacks(v, '"'),
        lacks(v, '\\'),
    ensures
        pairs_scan(s, p0, start, 0, false, false) == pairs_scan(
            s,
            p0 + entry_text(k, v).len(),
            start,
            0,
            false,
            false,
        ),
{
    let e = entry_text(k, v);
    lemma_entry_chars(k, v);
    let kl = k.len() as int;
    let vl = v.len() as int;
    assert forall|r: int| 0 <= r < e.len() implies s[p0 + r] == e[r] by {
        assert(s.subrange(p0, p0 + e.len())[r] == s[p0 + r]);
    }
    assert(s[p0] == '"');
    assert forall|p: int| p0 + 1 <= p < p0 + 1 + kl implies s[p] != '"' && s[p] != '\\' by {
        assert(s[p] == e[p - p0]);
        assert(e[1 + (p - p0 - 1)] == k[p - p0 - 1]);
    }
    lemma_pairs_in_string(s, p0 + 1, p0 + 1 + kl, start, 0);
    assert(s[p0 + kl + 1] == '"');
    assert(s[p0 + kl + 2] == ':');
    assert(s[p0 + kl + 3] == '"');
    assert forall|p: int| p0 + kl + 4 <= p < p0 + kl + 4 + vl implies s[p] != '"' && s[p]
        != '\\' by {
        assert(s[p] == e[p - p0]);
        assert(e[kl + 4 + (p - p0 - kl - 4)] == v[p - p0 - kl - 4]);
    }
    lemma_pairs_in_string(s, p0 + kl + 4, p0 + kl + 4 + vl, start, 0);
    assert(s[p0 + kl + vl + 4] == '"');
    assert(pairs_scan(s, p0, start, 0, false, false) == pairs_scan(s, p0 + 1, start, 0, true, false));
    assert(pairs_scan(s, p0 + kl + 1, start, 0, true, false) == pairs_scan(
        s,
        p0 + kl + 2,
        start,
        0,
        false,
        false,
    ));
    assert(pairs_scan(s, p0 + kl + 2, start, 0, false, false) == pairs_scan(
        s,
        p0 + kl + 3,
        start,
        0,
        false,
        false,
    ));
    assert(pairs_scan(s, p0 + kl + 3, start, 0, false, false) == pairs_scan(
        s,
        p0 + kl + 4,
        start,
        0,
        true,
        false,
    ));
    assert(pairs_scan(s, p0 + kl + vl + 4, start, 0, true, false) == pairs_scan(
        s,
        p0 + kl + vl + 5,
        start,
        0,
        false,
        false,
    ));
}

/// A safe entry whose key and password are not the word `index`.
pub open spec fn label_free_entry(e: Seq<char>) -> bool {
    exists|k: Seq<char>, v: Seq<char>|
        safe_key(k) && safe_value(v) && k != "index"@ && v != "index"@ && e == entry_text(k, v)
}

proof fn lemma_label_free_parts(e: Seq<char>) -> (kv: (Seq<char>, Seq<char>))
    requires
        label_free_entry(e),
    ensures
        safe_key(kv.0),
        safe_value(kv.1),
        kv.0 != "index"@,
        kv.1 != "index"@,
        e == entry_text(kv.0, kv.1),
{
    let (k, v) = choose|k: Seq<char>, v: Seq<char>|
        safe_key(k) && safe_value(v) && k != "index"@ && v != "index"@ && e == entry_text(k, v);
    (k, v)
}

proof fn lemma_safe_entry_parts(e: Seq<char>) -> (kv: (Seq<char>, Seq<char>))
    requires
        safe_entry(e),
    ensures
        safe_key(kv.0),
        safe_value(kv.1),
        e == entry_text(kv.0, kv.1),
{
    let (k, v) = choose|k: Seq<char>, v: Seq<char>|
        safe_key(k) && safe_value(v) && e == entry_text(k, v);
    (k, v)
}

proof fn lemma_json_pairs_join(es: Seq<Seq<char>>)
    requires
        es.len() >= 1,
        forall|i: int| 0 <= i < es.len() ==> safe_entry(#[trigger] es[i]),
    ensures
        json_pairs(join_with(es, ","@)) == es,
    decreases es.len(),
{
    let s = join_with(es, ","@);
    let (k, v) = lemma_safe_entry_parts(es[0]);
    let e0 = es[0];
    if es.len() == 1 {
        assert(s == e0);
        assert(s.subrange(0, e0.len() as int) =~= e0);
        lemma_pairs_entry(s, 0, k, v, 0);
        assert(json_pairs(s) =~= es);
    } else {
        reveal_strlit(",");
        let rest = es.drop_first();
        lemma_join_cons(es, ","@);
        let j = join_with(rest, ","@);
        assert(s =~= e0 + ","@ + j);
        assert(s.subrange(0, e0.len() as int) =~= e0);
        lemma_pairs_entry(s, 0, k, v, 0);
        assert(s[e0.len() as int] == ',');
        lemma_pairs_shift(e0 + ","@, j, 0, 0, 0, false, false);
        assert(s =~= (e0 + ","@) + j);
        assert forall|i: int| 0 <= i < rest.len() implies safe_entry(#[trigger] rest[i]) by {
            assert(rest[i] == es[i + 1]);
        }
        lemma_json_pairs_join(rest);
        assert(s.subrange(0, e0.len() as int) =~= e0);
        assert(json_pairs(s) =~= es);
    }
}

proof fn lemma_split_shift(a: Seq<char>, b: Seq<char>, c: char, i: int, start: int)
    requires
        0 <= start <= i <= b.len(),
    ensures
        split_scan(a + b, c, a.len() + i, a.len() + start) == split_scan(b, c, i, start),
    decreases b.len() - i,
{
    let s = a + b;
    let n = a.len();
    if i < b.len() {
        assert(s[n + i] == b[i]);
        if b[i] == c {
            lemma_split_shift(a, b, c, i + 1, i + 1);
            assert(s.subrange(n + start, n + i) =~= b.subrange(start, i));
        } else {
            lemma_split_shift(a, b, c, i + 1, start);
        }
    } else {
        assert(s.subrange(n + start, s.len() as int) =~= b.subrange(start, b.len() as int));
    }
}

proof fn lemma_split_region(s: Seq<char>, c: char, i: int, j: int, start: int)
    requires
        0 <= i <= j <= s.len(),
        forall|p: int| i <= p < j ==> s[p] != c,
    ensures
        split_scan(s, c, i, start) == split_scan(s, c, j, start),
    decreases j - i,
{
    if i < j {
        lemma_split_region(s, c, i + 1, j, start);
    }
}

proof fn lemma_split_join(items: Seq<Seq<char>>)
    requires
        items.len() >= 1,
        forall|i: int| 0 <= i < items.len() ==> lacks(#[trigger] items[i], ','),
    ensures
        split_on(join_with(items, ","@), ',') == items,
    decreases items.len(),
{
    reveal_strlit(",");
    let s = join_with(items, ","@);
    let q0 = items[0];
    assert(lacks(q0, ','));
    if items.len() == 1 {
        lemma_split_region(s, ',', 0, q0.len() as int, 0);
        assert(s.subrange(0, s.len() as int) =~= q0);
        assert(split_on(s, ',') =~= items);
    } else {
        let rest = items.drop_first();
        lemma_join_cons(items, ","@);
        let j = join_with(rest, ","@);
        assert(s =~= (q0 + ","@) + j);
        assert forall|p: int| 0 <= p < q0.len() implies s[p] != ',' by {
            assert(s[p] == q0[p]);
        }
        lemma_split_region(s, ',', 0, q0.len() as int, 0);
        assert(s[q0.len() as int] == ',');
        lemma_split_shift(q0 + ","@, j, ',', 0, 0);
        assert forall|i: int| 0 <= i < rest.len() implies lacks(#[trigger] rest[i], ',') by {
            assert(rest[i] == items[i + 1]);
        }
        lemma_split_join(rest);
        assert(s.subrange(0, q0.len() as int) =~= q0);
        assert(split_on(s, ',') =~= items);
    }
}

proof fn lemma_find_skip(s: Seq<char>, pat: Seq<char>, i: int, j: int)
    requires
        0 <= i <= j,
        forall|p: int|
            i <= p < j ==> p + pat.len() > s.len() || #[trigger] s.subrange(p, p + pat.len())
                != pat,
    ensures
        find_from(s, pat, i) == find_from(s, pat, j),
    decreases j - i,
{
    if i < j {
        if i + pat.len() > s.len() {
            lemma_find_past_end(s, pat, j);
        } else {
            assert(s.subrange(i, i + pat.len()) != pat);
            lemma_find_skip(s, pat, i + 1, j);
        }
    }
}

proof fn lemma_find_past_end(s: Seq<char>, pat: Seq<char>, j: int)
    requires
        j + pat.len() > s.len(),
    ensures
        find_from(s, pat, j) is None,
{
}

proof fn lemma_find_within(s: Seq<char>, pat: Seq<char>, i: int, q: int)
    requires
        0 <= i <= q,
        q + pat.len() <= s.len(),
        s.subrange(q, q + pat.len()) == pat,
    ensures
        find_from(s, pat, i) is Some,
        i <= find_from(s, pat, i)->0 <= q,
    decreases q - i,
{
    if s.subrange(i, i + pat.len()) != pat {
        lemma_find_within(s, pat, i + 1, q);
    }
}

proof fn lemma_find_char_first(s: Seq<char>, c: char, i: int, j: int)
    requires
        0 <= i <= j < s.len(),
        s[j] == c,
        forall|p: int| i <= p < j ==> s[p] != c,
    ensures
        find_from(s, seq![c], i) == Some(j),
{
    assert forall|p: int| i <= p < j implies p + 1 > s.len() || #[trigger] s.subrange(p, p + 1)
        != seq![c] by {
        assert(s.subrange(p, p + 1)[0] == s[p]);
    }
    lemma_find_skip(s, seq![c], i, j);
    assert(s.subrange(j, j + 1) =~= seq![c]);
}

/// Trimming white space leaves a text alone when it starts and ends with
/// other characters.
proof fn lemma_trim_ws_noop(t: Seq<char>)
    requires
        t.len() > 0,
        !is_white_space(t[0]),
        !is_white_space(t.last()),
    ensures
        trimmed(t, false) == t,
{
}

proof fn lemma_unquote_quoted(t: Seq<char>)
    requires
        lacks(t, '"'),
    ensures
        trimmed(quoted(t), false) == quoted(t),
        unquoted(quoted(t)) == t,
{
    let q = quoted(t);
    assert(q[0] == '"');
    assert(q.last() == '"');
    lemma_trim_ws_noop(q);
    assert(q.drop_first() =~= t + seq!['"']);
    let r = t + seq!['"'];
    if t.len() == 0 {
        assert(r.drop_first() =~= Seq::<char>::empty());
        assert(trim_front(r, true) == trim_front(r.drop_first(), true));
        assert(trim_front(q, true) =~= Seq::<char>::empty());
    } else {
        assert(r[0] == t[0]);
        assert(t[0] != '"');
        assert(trim_front(q, true) == trim_front(r, true));
        assert(trim_front(q, true) == r);
        assert(r.drop_last() =~= t);
        assert(r.last() == '"');
        assert(trim_back(r, true) == trim_back(t, true));
        assert(t.last() == t[t.len() - 1]);
        assert(t[t.len() - 1] != '"');
        assert(trim_back(r, true) == t);
    }
}

proof fn lemma_kv_entry(k: Seq<char>, v: Seq<char>)
    requires
        safe_key(k),
        safe_value(v),
    ensures
        kv_of(entry_text(k, v)) == Some((k, v)),
{
    let e = entry_text(k, v);
    lemma_entry_chars(k, v);
    let kl = k.len() as int;
    lemma_trim_ws_noop(e);
    assert forall|p: int| 0 <= p < kl + 2 implies e[p] != ':' by {
        if 1 <= p < kl + 1 {
            assert(e[1 + (p - 1)] == k[p - 1]);
        }
    }
    lemma_find_char_first(e, ':', 0, kl + 2);
    lemma_unquote_quoted(k);
    lemma_unquote_quoted(v);
}

proof fn lemma_pairs_map_of(es: Seq<Seq<char>>, m: Map<Seq<char>, Seq<char>>)
    requires
        forall|i: int|
            0 <= i < es.len() ==> (#[trigger] kv_of(es[i]) matches Some(kv) && m.contains_key(kv.0)
                && m[kv.0] == kv.1),
    ensures
        forall|k: Seq<char>| #[trigger]
            pairs_map(es).contains_key(k) ==> m.contains_key(k) && pairs_map(es)[k] == m[k],
        forall|i: int|
            0 <= i < es.len() ==> pairs_map(es).contains_key(#[trigger] (kv_of(es[i])->0).0),
    decreases es.len(),
{
    if es.len() > 0 {
        let dl = es.drop_last();
        assert forall|i: int| 0 <= i < dl.len() implies (#[trigger] kv_of(dl[i]) matches Some(kv)
            && m.contains_key(kv.0) && m[kv.0] == kv.1) by {
            assert(dl[i] == es[i]);
            assert(kv_of(es[i]) matches Some(kv) && m.contains_key(kv.0) && m[kv.0] == kv.1);
        }
        lemma_pairs_map_of(dl, m);
        assert(kv_of(es[es.len() - 1]) matches Some(kv) && m.contains_key(kv.0) && m[kv.0]
            == kv.1);
        let kv = kv_of(es.last())->0;
        assert(pairs_map(es) == pairs_map(dl).insert(kv.0, kv.1));
        assert forall|i: int| 0 <= i < es.len() implies pairs_map(es).contains_key(
            #[trigger] (kv_of(es[i])->0).0,
        ) by {
            if i < es.len() - 1 {
                assert(dl[i] == es[i]);
                assert(pairs_map(dl).contains_key((kv_of(dl[i])->0).0));
            }
        }
    }
}

/// The label of the key index in the store text.
pub open spec fn index_label() -> Seq<char> {
    "\"index\""@
}

proof fn lemma_index_label_chars()
    ensures
        index_label() =~= seq!['"', 'i', 'n', 'd', 'e', 'x', '"'],
        "index"@ =~= seq!['i', 'n', 'd', 'e', 'x'],
{
    reveal_strlit("\"index\"");
    reveal_strlit("index");
}

/// A quoted text of a safe key or value starting at `p` is not the index
/// label.
proof fn lemma_not_label_at_quote(s: Seq<char>, p: int, t: Seq<char>)
    requires
        0 <= p,
        p + t.len() + 2 <= s.len(),
        s.subrange(p, p + t.len() + 2) == quoted(t),
        lacks(t, '"'),
        t != "index"@,
    ensures
        p + 7 > s.len() || s.subrange(p, p + 7) != index_label(),
{
    lemma_index_label_chars();
    let pat = index_label();
    let tl = t.len() as int;
    assert forall|x: int| 0 <= x < tl + 2 implies s[p + x] == quoted(t)[x] by {
        assert(s.subrange(p, p + tl + 2)[x] == s[p + x]);
    }
    if p + 7 <= s.len() && s.subrange(p, p + 7) == pat {
        assert forall|x: int| 0 <= x < 7 implies s[p + x] == pat[x] by {
            assert(s.subrange(p, p + 7)[x] == s[p + x]);
        }
        if tl < 5 {
            assert(quoted(t)[tl + 1] == '"');
            assert(s[p + tl + 1] == '"');
            assert(pat[tl + 1] != '"');
        } else if tl > 5 {
            assert(quoted(t)[6] == t[5]);
            assert(s[p + 6] == t[5]);
        } else {
            assert forall|x: int| 0 <= x < 5 implies t[x] == "index"@[x] by {
                assert(quoted(t)[1 + x] == t[x]);
                assert(s[p + 1 + x] == pat[1 + x]);
            }
            assert(t =~= "index"@);
        }
    }
}

#[verifier::spinoff_prover]
#[verifier::rlimit(40)]
proof fn lemma_find_label_entry(s: Seq<char>, p0: int, k: Seq<char>, v: Seq<char>)
    requires
        0 <= p0,
        p0 + entry_text(k, v).len() < s.len(),
        s.subrange(p0, p0 + entry_text(k, v).len()) == entry_text(k, v),
        s[p0 + entry_text(k, v).len()] != 'i',
        safe_key(k),
        safe_value(v),
        k != "index"@,
        v != "index"@,
    ensures
        find_from(s, index_label(), p0) == find_from(
            s,
            index_label(),
            p0 + entry_text(k, v).len(),
        ),
{
    lemma_index_label_chars();
    let e = entry_text(k, v);
    let pat = index_label();
    lemma_entry_chars(k, v);
    let kl = k.len() as int;
    let vl = v.len() as int;
    assert forall|x: int| 0 <= x < e.len() implies s[p0 + x] == e[x] by {
        assert(s.subrange(p0, p0 + e.len())[x] == s[p0 + x]);
    }
    assert(s.subrange(p0, p0 + kl + 2) =~= quoted(k));
    assert(s.subrange(p0 + kl + 3, p0 + kl + 3 + vl + 2) =~= quoted(v));
    assert forall|p: int|
        p0 <= p < p0 + e.len() implies p + pat.len() > s.len() || #[trigger] s.subrange(
            p,
            p + pat.len(),
        ) != pat by {
        let r = p - p0;
        if p + 7 <= s.len() && s.subrange(p, p + 7) == pat {
            assert(s.subrange(p, p + 7)[0] == s[p]);
            assert(s.subrange(p, p + 7)[1] == s[p + 1]);
            assert(s[p] == '"');
            if 1 <= r <= kl {
                assert(e[1 + (r - 1)] == k[r - 1]);
            } else if kl + 4 <= r < kl + 4 + vl {
                assert(e[kl + 4 + (r - kl - 4)] == v[r - kl - 4]);
            } else if r == 0 {
                lemma_not_label_at_quote(s, p, k);
            } else if r == kl + 3 {
                lemma_not_label_at_quote(s, p, v);
            } else if r == kl + 1 {
                assert(s[p + 1] == ':');
            } else {
                assert(r == kl + vl + 4);
                assert(s[p + 1] == s[p0 + e.len()]);
            }
        }
    }
    lemma_find_skip(s, pat, p0, p0 + e.len());
}

proof fn lemma_find_label_join(s: Seq<char>, o: int, es: Seq<Seq<char>>)
    requires
        0 <= o,
        o + join_with(es, ","@).len() < s.len(),
        s.subrange(o, o + join_with(es, ","@).len()) == join_with(es, ","@),
        s[o + join_with(es, ","@).len()] != 'i',
        forall|i: int| 0 <= i < es.len() ==> label_free_entry(#[trigger] es[i]),
    ensures
        find_from(s, index_label(), o) == find_from(
            s,
            index_label(),
            o + join_with(es, ","@).len(),
        ),
    decreases es.len(),
{
    if es.len() == 1 {
        let (k, v) = lemma_label_free_parts(es[0]);
        lemma_find_label_entry(s, o, k, v);
    } else if es.len() >= 2 {
        reveal_strlit(",");
        lemma_index_label_chars();
        let (k, v) = lemma_label_free_parts(es[0]);
        let e0 = es[0];
        let rest = es.drop_first();
        let j = join_with(rest, ","@);
        let whole = join_with(es, ","@);
        lemma_join_cons(es, ","@);
        assert(whole =~= e0 + ","@ + j);
        assert forall|x: int| 0 <= x < whole.len() implies s[o + x] == whole[x] by {
            assert(s.subrange(o, o + whole.len())[x] == s[o + x]);
        }
        assert(s.subrange(o, o + e0.len()) =~= e0);
        assert(whole[e0.len() as int] == ',');
        assert(s[o + e0.len()] == whole[e0.len() as int]);
        lemma_find_label_entry(s, o, k, v);
        assert forall|p: int|
            o + e0.len() <= p < o + e0.len() + 1 implies p + index_label().len() > s.len()
            || #[trigger] s.subrange(p, p + index_label().len()) != index_label() by {
            if p + 7 <= s.len() {
                assert(s.subrange(p, p + 7)[0] == s[p]);
            }
        }
        lemma_find_skip(s, index_label(), o + e0.len(), o + e0.len() + 1);
        assert forall|x: int| 0 <= x < j.len() implies s[o + e0.len() + 1 + x] == j[x] by {
            assert(whole[e0.len() + 1 + x] == j[x]);
            assert(s[o + (e0.len() + 1 + x)] == whole[e0.len() + 1 + x]);
        }
        assert(s.subrange(o + e0.len() + 1, o + e0.len() + 1 + j.len()) =~= j);
        assert forall|i: int| 0 <= i < rest.len() implies label_free_entry(#[trigger] rest[i]) by {
            assert(rest[i] == es[i + 1]);
        }
        lemma_find_label_join(s, o + e0.len() + 1, rest);
    }
}

proof fn lemma_filter_keeps_all(s: Seq<Seq<char>>)
    requires
        forall|i: int| 0 <= i < s.len() ==> (#[trigger] s[i]).len() > 0,
    ensures
        s.filter(nonempty_text()) == s,
    decreases s.len(),
{
    reveal_with_fuel(Seq::filter, 1);
    if s.len() > 0 {
        assert forall|i: int| 0 <= i < s.drop_last().len() implies (
        #[trigger] s.drop_last()[i]).len() > 0 by {
            assert(s.drop_last()[i] == s[i]);
        }
        lemma_filter_keeps_all(s.drop_last());
        assert(s.drop_last().push(s.last()) =~= s);
        assert(s[s.len() - 1].len() > 0);
    } else {
        assert(s.filter(nonempty_text()) =~= s);
    }
}

proof fn lemma_quoted_lacks(t: Seq<char>, c: char)
    requires
        lacks(t, c),
        c != '"',
    ensures
        lacks(quoted(t), c),
{
    assert forall|i: int| 0 <= i < quoted(t).len() implies quoted(t)[i] != c by {
        if 1 <= i < t.len() + 1 {
            assert(quoted(t)[i] == t[i - 1]);
        }
    }
}

proof fn lemma_entry_lacks(k: Seq<char>, v: Seq<char>, c: char)
    requires
        lacks(k, c),
        lacks(v, c),
        c != '"',
        c != ':',
    ensures
        lacks(entry_text(k, v), c),
{
    lemma_entry_chars(k, v);
    let e = entry_text(k, v);
    let kl = k.len() as int;
    assert forall|i: int| 0 <= i < e.len() implies e[i] != c by {
        if 1 <= i < kl + 1 {
            assert(e[1 + (i - 1)] == k[i - 1]);
        } else if kl + 4 <= i < kl + 4 + v.len() {
            assert(e[kl + 4 + (i - kl - 4)] == v[i - kl - 4]);
        }
    }
}

/// The entries of a safe store are safe, and they describe exactly its
/// passwords.
proof fn lemma_sorted_entries(m: Map<Seq<char>, Seq<char>>, order: Seq<Seq<char>>)
    requires
        order.to_set() == m.dom(),
        forall|k: Seq<char>| #[trigger] m.contains_key(k) ==> safe_key(k) && safe_value(m[k]),
    ensures
        forall|i: int|
            0 <= i < sorted_entries(m, order).len() ==> safe_entry(
                #[trigger] sorted_entries(m, order)[i],
            ),
        pairs_map(sorted_entries(m, order)) == m,
        forall|i: int|
            0 <= i < sorted_entries(m, order).len() ==> exists|k: Seq<char>|
                m.contains_key(k) && #[trigger] sorted_entries(m, order)[i] == entry_text(k, m[k]),
{
    broadcast use vstd::seq_lib::group_to_multiset_ensures;

    let es = sorted_entries(m, order);
    let base = order.map_values(|k: Seq<char>| entry_text(k, m[k]));
    lemma_lex_total_ordering();
    base.lemma_sort_by_ensures(lex_order());
    assert forall|i: int| 0 <= i < es.len() implies safe_entry(#[trigger] es[i]) && (kv_of(
        es[i],
    ) matches Some(kv) && m.contains_key(kv.0) && m[kv.0] == kv.1) && exists|k: Seq<char>|
        m.contains_key(k) && es[i] == entry_text(k, m[k]) by {
        assert(es.contains(es[i]));
        assert(base.contains(es[i]));
        let j = choose|j: int| 0 <= j < base.len() && base[j] == es[i];
        let k = order[j];
        assert(order.to_set().contains(k));
        assert(m.contains_key(k));
        assert(safe_key(k) && safe_value(m[k]));
        lemma_kv_entry(k, m[k]);
    }
    assert forall|k: Seq<char>| m.contains_key(k) implies exists|i: int|
        0 <= i < es.len() && (kv_of(es[i])->0).0 == k by {
        assert(order.to_set().contains(k));
        let j = choose|j: int| 0 <= j < order.len() && order[j] == k;
        let e = entry_text(k, m[k]);
        assert(base[j] == e);
        assert(base.contains(e));
        assert(base.to_multiset().count(e) > 0);
        assert(es.to_multiset().count(e) > 0);
        assert(es.contains(e));
        let i = choose|i: int| 0 <= i < es.len() && es[i] == e;
        assert(safe_key(k) && safe_value(m[k]));
        lemma_kv_entry(k, m[k]);
        assert((kv_of(es[i])->0).0 == k);
    }
    lemma_pairs_map_of(es, m);
    assert(pairs_map(es) =~= m) by {
        assert forall|k: Seq<char>| m.contains_key(k) implies pairs_map(es).contains_key(k) by {
            let i = choose|i: int| 0 <= i < es.len() && (kv_of(es[i])->0).0 == k;
            assert(pairs_map(es).contains_key((kv_of(es[i])->0).0));
        }
    }
}

/// Where the parts of a store text stand.
proof fn lemma_text_layout(es: Seq<Seq<char>>, index: Seq<Seq<char>>)
    ensures
        ({
            let c = json_of(es, index);
            let body = join_with(es, ","@);
            let list = join_with(index.map_values(|k: Seq<char>| quoted(k)), ","@);
            let bl = body.len() as int;
            let ll = list.len() as int;
            &&& c.len() == 27 + bl + ll
            &&& c.subrange(1, 12) == "\"passwords\""@
            &&& forall|x: int| 0 <= x < 14 ==> c[x] == "{\"passwords\":{"@[x]
            &&& forall|x: int| 0 <= x < bl ==> c[14 + x] == body[x]
            &&& forall|x: int| 0 <= x < 11 ==> c[14 + bl + x] == "},\"index\":["@[x]
            &&& forall|x: int| 0 <= x < ll ==> c[25 + bl + x] == list[x]
            &&& c[25 + bl + ll] == ']'
            &&& c[26 + bl + ll] == '}'
            &&& c.subrange(14, 14 + bl) == body
            &&& c.subrange(25 + bl, 25 + bl + ll) == list
            &&& c.subrange(16 + bl, 23 + bl) == index_label()
        }),
{
    reveal_strlit("{\"passwords\":{");
    reveal_strlit("},\"index\":[");
    reveal_strlit("]}");
    reveal_strlit("\"passwords\"");
    lemma_index_label_chars();
    let h = "{\"passwords\":{"@;
    let mid = "},\"index\":["@;
    let t = "]}"@;
    let body = join_with(es, ","@);
    let list = join_with(index.map_values(|k: Seq<char>| quoted(k)), ","@);
    let c = json_of(es, index);
    assert(c == h + body + mid + list + t);
    let bl = body.len() as int;
    let ll = list.len() as int;
    assert(c.subrange(1, 12) =~= "\"passwords\""@);
    assert(c.subrange(14, 14 + bl) =~= body);
    assert(c.subrange(25 + bl, 25 + bl + ll) =~= list);
    assert(c.subrange(16 + bl, 23 + bl) =~= index_label());
}

proof fn lemma_passwords_part(m: Map<Seq<char>, Seq<char>>, order: Seq<Seq<char>>, index: Seq<
    Seq<char>,
>)
    requires
        order.to_set() == m.dom(),
        safe_store(m, index),
    ensures
        stored_passwords(store_json(m, order, index)) == m,
{
    reveal_strlit("{\"passwords\":{");
    reveal_strlit("},\"index\":[");
    reveal_strlit("\"passwords\"");
    lemma_sorted_entries(m, order);
    let es = sorted_entries(m, order);
    lemma_text_layout(es, index);
    let body = join_with(es, ","@);
    let c = store_json(m, order, index);
    let bl = body.len() as int;
    let pw = "\"passwords\""@;
    assert forall|p: int| 0 <= p < 1 implies p + pw.len() > c.len() || #[trigger] c.subrange(
        p,
        p + pw.len(),
    ) != pw by {
        assert(c.subrange(p, p + pw.len())[0] == c[p]);
    }
    lemma_find_skip(c, pw, 0, 1);
    assert(find_from(c, pw, 1) == Some(1int));
    assert forall|p: int| 1 <= p < 13 implies c[p] != '{' by {}
    lemma_find_char_first(c, '{', 1, 13);
    assert forall|i: int| 0 <= i < es.len() implies lacks(#[trigger] es[i], '}') by {
        let (k, v) = lemma_safe_entry_parts(es[i]);
        lemma_entry_lacks(k, v, '}');
    }
    reveal_strlit(",");
    assert(lacks(","@, '}'));
    lemma_join_lacks(es, ","@, '}');
    assert forall|p: int| 13 <= p < 14 + bl implies c[p] != '}' by {
        if p > 13 {
            assert(c[14 + (p - 14)] == body[p - 14]);
        }
    }
    assert(c[14 + bl + 0] == '}');
    lemma_find_char_first(c, '}', 13, 14 + bl);
    assert(section(c, pw, '{', '}') == Some(body));
    if es.len() >= 1 {
        lemma_json_pairs_join(es);
    } else {
        assert(json_pairs(body) =~= es);
    }
}

proof fn lemma_index_part(m: Map<Seq<char>, Seq<char>>, order: Seq<Seq<char>>, index: Seq<
    Seq<char>,
>)
    requires
        order.to_set() == m.dom(),
        safe_store(m, index),
    ensures
        stored_index(store_json(m, order, index)) == index,
{
    reveal_strlit("{\"passwords\":{");
    reveal_strlit("},\"index\":[");
    lemma_index_label_chars();
    lemma_sorted_entries(m, order);
    let es = sorted_entries(m, order);
    lemma_text_layout(es, index);
    let body = join_with(es, ","@);
    let items = index.map_values(|k: Seq<char>| quoted(k));
    let list = join_with(items, ","@);
    let c = store_json(m, order, index);
    let bl = body.len() as int;
    let ll = list.len() as int;
    let lab = index_label();
    let q = 16 + bl;
    let st = if without_index_word(m) {
        assert forall|i: int| 0 <= i < es.len() implies label_free_entry(#[trigger] es[i]) by {
            let k = choose|k: Seq<char>| m.contains_key(k) && es[i] == entry_text(k, m[k]);
            assert(safe_key(k) && safe_value(m[k]));
        }
        assert forall|p: int| 0 <= p < 14 implies p + lab.len() > c.len() || #[trigger] c.subrange(
            p,
            p + lab.len(),
        ) != lab by {
            assert(c.subrange(p, p + lab.len())[0] == c[p]);
            assert(c.subrange(p, p + lab.len())[1] == c[p + 1]);
        }
        lemma_find_skip(c, lab, 0, 14);
        assert(c[14 + bl + 0] == '}');
        lemma_find_label_join(c, 14, es);
        assert forall|p: int|
            14 + bl <= p < 16 + bl implies p + lab.len() > c.len() || #[trigger] c.subrange(
                p,
                p + lab.len(),
            ) != lab by {
            assert(c.subrange(p, p + lab.len())[0] == c[p]);
            assert(c[14 + bl + (p - 14 - bl)] == "},\"index\":["@[p - 14 - bl]);
        }
        lemma_find_skip(c, lab, 14 + bl, 16 + bl);
        assert(find_from(c, lab, q) == Some(q));
        assert forall|p: int| q <= p < q + 8 implies c[p] != '[' by {
            assert(c[14 + bl + (p - 14 - bl)] == "},\"index\":["@[p - 14 - bl]);
        }
        assert(c[14 + bl + 10] == '[');
        lemma_find_char_first(c, '[', q, q + 8);
        find_from(c, lab, 0)->0
    } else {
        assert forall|i: int| 0 <= i < es.len() implies lacks(#[trigger] es[i], '[') by {
            let k = choose|k: Seq<char>| m.contains_key(k) && es[i] == entry_text(k, m[k]);
            lemma_entry_lacks(k, m[k], '[');
        }
        reveal_strlit(",");
        assert(lacks(","@, '['));
        lemma_join_lacks(es, ","@, '[');
        lemma_find_within(c, lab, 0, q);
        let p = find_from(c, lab, 0)->0;
        assert forall|p2: int| p <= p2 < q + 8 implies c[p2] != '[' by {
            if 14 <= p2 < 14 + bl {
                assert(c[14 + (p2 - 14)] == body[p2 - 14]);
            } else if p2 >= 14 + bl {
                assert(c[14 + bl + (p2 - 14 - bl)] == "},\"index\":["@[p2 - 14 - bl]);
            }
        }
        assert(c[14 + bl + 10] == '[');
        lemma_find_char_first(c, '[', p, q + 8);
        p
    };
    assert(find_from(c, lab, 0) == Some(st));
    assert(find_from(c, seq!['['], st) == Some(q + 8));
    assert forall|i: int| 0 <= i < items.len() implies lacks(#[trigger] items[i], ']') by {
        assert(safe_item(index[i]));
        lemma_quoted_lacks(index[i], ']');
    }
    reveal_strlit(",");
    assert(lacks(","@, ']'));
    lemma_join_lacks(items, ","@, ']');
    assert forall|p: int| q + 8 <= p < 25 + bl + ll implies c[p] != ']' by {
        if p > q + 8 {
            assert(c[25 + bl + (p - 25 - bl)] == list[p - 25 - bl]);
        }
    }
    lemma_find_char_first(c, ']', q + 8, 25 + bl + ll);
    assert(section(c, lab, '[', ']') == Some(list));
    if index.len() == 0 {
        assert(list.len() == 0);
        assert(list.subrange(0, 0) =~= Seq::<char>::empty());
        assert(split_on(list, ',') =~= seq![Seq::<char>::empty()]);
        assert(unquoted(Seq::<char>::empty()) =~= Seq::<char>::empty());
        let un = split_on(list, ',').map_values(|p: Seq<char>| unquoted(p));
        assert(un =~= seq![Seq::<char>::empty()]);
        reveal_with_fuel(Seq::filter, 2);
        assert(un.drop_last() =~= Seq::<Seq<char>>::empty());
        assert(un.filter(nonempty_text()) =~= Seq::<Seq<char>>::empty());
        assert(list_items(list) =~= index);
    } else {
        assert forall|i: int| 0 <= i < items.len() implies lacks(#[trigger] items[i], ',') by {
            assert(safe_item(index[i]));
            lemma_quoted_lacks(index[i], ',');
        }
        lemma_split_join(items);
        let un = items.map_values(|p: Seq<char>| unquoted(p));
        assert forall|i: int| 0 <= i < index.len() implies un[i] == index[i] by {
            assert(safe_item(index[i]));
            lemma_unquote_quoted(index[i]);
        }
        assert(un =~= index);
        assert forall|i: int| 0 <= i < index.len() implies (#[trigger] index[i]).len() > 0 by {
            assert(safe_item(index[i]));
        }
        lemma_filter_keeps_all(index);
        assert(list_items(list) =~= index);
    }
}

/// Reading back the text written for a store gives the same passwords and
/// the same index, whatever order the keys were added in, provided the
/// keys, passwords and index items are ones the text keeps exactly.
pub proof fn law_store_text_round_trip(
    m: Map<Seq<char>, Seq<char>>,
    order: Seq<Seq<char>>,
    index: Seq<Seq<char>>,
)
    requires
        order.to_set() == m.dom(),
        safe_store(m, index),
    ensures
        parsed_store(store_json(m, order, index)) == (m, index),
{
    reveal_strlit("{\"passwords\":{");
    reveal_strlit("{}");
    let es = sorted_entries(m, order);
    lemma_text_layout(es, index);
    let c = store_json(m, order, index);
    assert(c[0] == '{');
    assert(c.last() == '}');
    lemma_trim_ws_noop(c);
    assert(c.len() != "{}"@.len());
    lemma_passwords_part(m, order, index);
    lemma_index_part(m, order, index);
}

/// A store written out with `FileStore::to_json` and read back with
/// `FileStore::parse` is the same store, when its keys, passwords and index
/// items are ones the text keeps exactly.
pub proof fn law_written_store_reads_back(s: FileStore)
    requires
        s.wf(),
        safe_store(s@.0, s@.1),
    ensures
        parsed_store(store_json(s@.0, s.key_order(), s@.1)) == s@,
{
    s.lemma_key_order();
    law_store_text_round_trip(s@.0, s.key_order(), s@.1);
}

/// A password stored under a key is what the key reads back after the
/// store is written out and read in again.
pub proof fn law_file_store_then_get(before: FileStore, after: FileStore, key: Seq<char>, password: Seq<char>)
    requires
        after.wf(),
        after@.0 == before@.0.insert(key, password),
        safe_store(after@.0, after@.1),
    ensures
        parsed_store(store_json(after@.0, after.key_order(), after@.1)).0.contains_key(key),
        parsed_store(store_json(after@.0, after.key_order(), after@.1)).0[key] == password,
{
    law_written_store_reads_back(after);
}

/// `pat` occurs somewhere in `s`.
pub open spec fn mentions(s: Seq<char>, pat: Seq<char>) -> bool {
    exists|i: int| 0 <= i && i + pat.len() <= s.len() && #[trigger] s.subrange(i, i + pat.len()) == pat
}

proof fn lemma_mentions_shrink(s: Seq<char>, a: int, b: int, pat: Seq<char>)
    requires
        0 <= a <= b <= s.len(),
        mentions(s.subrange(a, b), pat),
    ensures
        mentions(s, pat),
{
    let t = s.subrange(a, b);
    let i = choose|i: int| 0 <= i && i + pat.len() <= t.len() && #[trigger] t.subrange(i, i + pat.len()) == pat;
    assert(s.subrange(a + i, a + i + pat.len()) =~= t.subrange(i, i + pat.len()));
}

proof fn lemma_trim_front_is_suffix(s: Seq<char>, quote: bool)
    ensures
        trim_front(s, quote).len() <= s.len(),
        trim_front(s, quote) == s.subrange(s.len() - trim_front(s, quote).len(), s.len() as int),
    decreases s.len(),
{
    if s.len() > 0 && crate::scan::strips(s[0], quote) {
        lemma_trim_front_is_suffix(s.drop_first(), quote);
        let t = trim_front(s.drop_first(), quote);
        assert(s.drop_first().subrange(s.drop_first().len() - t.len(), s.drop_first().len() as int)
            =~= s.subrange(s.len() - t.len(), s.len() as int));
    } else {
        assert(s.subrange(0, s.len() as int) =~= s);
    }
}

proof fn lemma_trim_back_is_prefix(s: Seq<char>, quote: bool)
    ensures
        trim_back(s, quote).len() <= s.len(),
        trim_back(s, quote) == s.subrange(0, trim_back(s, quote).len() as int),
    decreases s.len(),
{
    if s.len() > 0 && crate::scan::strips(s.last(), quote) {
        lemma_trim_back_is_prefix(s.drop_last(), quote);
        let t = trim_back(s.drop_last(), quote);
        assert(s.drop_last().subrange(0, t.len() as int) =~= s.subrange(0, t.len() as int));
    } else {
        assert(s.subrange(0, s.len() as int) =~= s);
    }
}

proof fn lemma_section_needs_label(c: Seq<char>, content: Seq<char>, label: Seq<char>, open: char, close: char)
    requires
        c == trimmed(content, false),
        !mentions(content, label),
    ensures
        section(c, label, open, close) is None,
{
    let f = trim_front(content, false);
    lemma_trim_front_is_suffix(content, false);
    lemma_trim_back_is_prefix(f, false);
    if find_from(c, label, 0) is Some {
        lemma_find_from_found(c, label, 0);
        let i = find_from(c, label, 0)->0;
        assert(c.subrange(i, i + label.len()) == label);
        assert(mentions(c, label));
        lemma_mentions_shrink(f, 0, c.len() as int, label);
        lemma_mentions_shrink(content, content.len() - f.len(), content.len() as int, label);
    }
}

/// A store text that is blank, `{}`, or that names neither a
/// `"passwords"` object nor an `"index"` list holds nothing: no passwords
/// and an empty index. Reading never fails.
pub proof fn law_parse_without_store_is_empty(content: Seq<char>)
    requires
        trimmed(content, false).len() == 0 || trimmed(content, false) == "{}"@ || (!mentions(
            content,
            "\"passwords\""@,
        ) && !mentions(content, "\"index\""@)),
    ensures
        parsed_store(content) == (Map::<Seq<char>, Seq<char>>::empty(), Seq::<Seq<char>>::empty()),
{
    let c = trimmed(content, false);
    if !(c.len() == 0 || c == "{}"@) {
        lemma_section_needs_label(c, content, "\"passwords\""@, '{', '}');
        lemma_section_needs_label(c, content, "\"index\""@, '[', ']');
    }
}

} // verus!

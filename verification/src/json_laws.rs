use vstd::prelude::*;

use crate::file_store::{json_pairs, pairs_scan};
use crate::keychain::{join_with, lemma_join_cons};

verus! {

/// The entries of a scan joined back with commas: the scanned text from
/// `start`, or that text without its final comma when that comma closed
/// the last entry.
pub open spec fn joins_back(s: Seq<char>, start: int, pieces: Seq<Seq<char>>) -> bool {
    ||| pieces.len() == 0 && start == s.len()
    ||| pieces.len() > 0 && join_with(pieces, ","@) == s.subrange(start, s.len() as int)
    ||| pieces.len() > 0 && s.len() > start && s.last() == ',' && join_with(pieces, ","@)
        == s.subrange(start, s.len() - 1)
}

proof fn lemma_scan_joins_back(
    s: Seq<char>,
    i: int,
    start: int,
    depth: int,
    in_string: bool,
    escape: bool,
)
    requires
        0 <= start <= i <= s.len(),
    ensures
        joins_back(s, start, pairs_scan(s, i, start, depth, in_string, escape)),
    decreases s.len() - i,
{
    reveal_strlit(",");
    if i >= s.len() {
        if start < s.len() {
            let r = pairs_scan(s, i, start, depth, in_string, escape);
            assert(r == seq![s.subrange(start, s.len() as int)]);
            assert(join_with(r, ","@) == r[0]);
        }
    } else if escape {
        lemma_scan_joins_back(s, i + 1, start, depth, in_string, false);
    } else if s[i] == '\\' && in_string {
        lemma_scan_joins_back(s, i + 1, start, depth, in_string, true);
    } else if s[i] == '"' {
        lemma_scan_joins_back(s, i + 1, start, depth, !in_string, false);
    } else if (s[i] == '{' || s[i] == '[') && !in_string {
        lemma_scan_joins_back(s, i + 1, start, depth + 1, in_string, false);
    } else if (s[i] == '}' || s[i] == ']') && !in_string {
        lemma_scan_joins_back(s, i + 1, start, depth - 1, in_string, false);
    } else if s[i] == ',' && !in_string && depth == 0 {
        lemma_scan_joins_back(s, i + 1, i + 1, depth, in_string, false);
        let rest = pairs_scan(s, i + 1, i + 1, depth, in_string, false);
        let piece = s.subrange(start, i);
        let r = seq![piece] + rest;
        assert(pairs_scan(s, i, start, depth, in_string, escape) == r);
        if rest.len() == 0 {
            assert(i + 1 == s.len());
            assert(join_with(r, ","@) == r[0]);
            assert(s.last() == s[i]);
        } else {
            lemma_join_cons(r, ","@);
            assert(r.drop_first() =~= rest);
            assert(r[0] == piece);
            if join_with(rest, ","@) == s.subrange(i + 1, s.len() as int) {
                assert(join_with(r, ","@) =~= s.subrange(start, s.len() as int));
            } else {
                assert(join_with(r, ","@) =~= s.subrange(start, s.len() - 1));
            }
        }
    } else {
        lemma_scan_joins_back(s, i + 1, start, depth, in_string, false);
    }
}

/// The entries of a JSON object body joined back with commas give the
/// body again, less a final comma that closed the last entry; an empty
/// body has no entries.
pub proof fn law_json_pairs_join_back(s: Seq<char>)
    ensures
        joins_back(s, 0, json_pairs(s)),
        json_pairs(s).len() == 0 <==> s.len() == 0,
{
    lemma_scan_joins_back(s, 0, 0, 0, false, false);
    if s.len() == 0 {
        assert(json_pairs(s) == Seq::<Seq<char>>::empty());
    }
}

/// One character through the lexer of a JSON object body: the bracket
/// depth, whether inside a string, and whether the character before was an
/// escaping backslash inside a string.
pub open spec fn lex_step(state: (int, bool, bool), c: char) -> (int, bool, bool) {
    let (depth, in_string, escape) = state;
    if escape {
        (depth, in_string, false)
    } else if c == '\\' && in_string {
        (depth, in_string, true)
    } else if c == '"' {
        (depth, !in_string, false)
    } else if (c == '{' || c == '[') && !in_string {
        (depth + 1, in_string, false)
    } else if (c == '}' || c == ']') && !in_string {
        (depth - 1, in_string, false)
    } else {
        (depth, in_string, false)
    }
}

/// The lexer's state just before position `i` of `s`.
pub open spec fn lex_state(s: Seq<char>, i: int) -> (int, bool, bool)
    decreases i,
{
    if i <= 0 {
        (0, false, false)
    } else {
        lex_step(lex_state(s, i - 1), s[i - 1])
    }
}

/// Position `j` of `s` holds a comma outside every string and bracket.
pub open spec fn top_level_comma(s: Seq<char>, j: int) -> bool {
    &&& 0 <= j < s.len()
    &&& s[j] == ','
    &&& lex_state(s, j) == (0int, false, false)
}

/// `piece` is `s[a..b]`, a stretch that starts at the beginning or just
/// after a top-level comma, ends at the end or just before one, and holds
/// none.
pub open spec fn piece_between_commas(s: Seq<char>, piece: Seq<char>, a: int, b: int) -> bool {
    &&& 0 <= a <= b <= s.len()
    &&& piece == s.subrange(a, b)
    &&& (a == 0 || top_level_comma(s, a - 1))
    &&& (b == s.len() || top_level_comma(s, b))
    &&& forall|j: int| a <= j < b ==> !#[trigger] top_level_comma(s, j)
}

/// `piece` is one of the stretches of `s` between top-level commas.
pub open spec fn is_comma_piece(s: Seq<char>, piece: Seq<char>) -> bool {
    exists|a: int, b: int| piece_between_commas(s, piece, a, b)
}

proof fn lemma_scan_between_commas(
    s: Seq<char>,
    i: int,
    start: int,
    depth: int,
    in_string: bool,
    escape: bool,
)
    requires
        0 <= start <= i <= s.len(),
        lex_state(s, i) == (depth, in_string, escape),
        start == 0 || top_level_comma(s, start - 1),
        forall|j: int| start <= j < i ==> !#[trigger] top_level_comma(s, j),
    ensures
        ({
            let r = pairs_scan(s, i, start, depth, in_string, escape);
            forall|k: int| 0 <= k < r.len() ==> is_comma_piece(s, #[trigger] r[k])
        }),
    decreases s.len() - i,
{
    let r = pairs_scan(s, i, start, depth, in_string, escape);
    if i >= s.len() {
        assert forall|k: int| 0 <= k < r.len() implies is_comma_piece(s, #[trigger] r[k]) by {
            assert(piece_between_commas(s, r[0], start, s.len() as int));
        }
    } else {
        assert(lex_state(s, i + 1) == lex_step(lex_state(s, i), s[i]));
        let separator = !escape && !(s[i] == '\\' && in_string) && s[i] != '"' && !((s[i] == '{'
            || s[i] == '[') && !in_string) && !((s[i] == '}' || s[i] == ']') && !in_string) && s[i]
            == ',' && !in_string && depth == 0;
        let next = lex_step((depth, in_string, escape), s[i]);
        if separator {
            assert(top_level_comma(s, i));
            lemma_scan_between_commas(s, i + 1, i + 1, next.0, next.1, next.2);
            let rest = pairs_scan(s, i + 1, i + 1, next.0, next.1, next.2);
            assert(r == seq![s.subrange(start, i)] + rest);
            assert(piece_between_commas(s, r[0], start, i));
            assert forall|k: int| 0 <= k < r.len() implies is_comma_piece(s, #[trigger] r[k]) by {
                if k == 0 {
                    assert(piece_between_commas(s, r[0], start, i));
                } else {
                    assert(r[k] == rest[k - 1]);
                }
            }
        } else {
            assert(!top_level_comma(s, i));
            lemma_scan_between_commas(s, i + 1, start, next.0, next.1, next.2);
            let rest = pairs_scan(s, i + 1, start, next.0, next.1, next.2);
            assert(r == rest);
            assert forall|k: int| 0 <= k < r.len() implies is_comma_piece(s, #[trigger] r[k]) by {
                assert(r[k] == rest[k]);
            }
        }
    }
}

/// The entries of a JSON object body are exactly the stretches between
/// its top-level commas: each starts at the beginning or after such a
/// comma, ends at the end or before one, and holds none.
pub proof fn law_json_pairs_split_at_top_level_commas(s: Seq<char>)
    ensures
        forall|k: int| 0 <= k < json_pairs(s).len() ==> is_comma_piece(s, #[trigger] json_pairs(s)[k]),
{
    lemma_scan_between_commas(s, 0, 0, 0, false, false);
    let r = pairs_scan(s, 0, 0, 0, false, false);
    assert forall|k: int| 0 <= k < json_pairs(s).len() implies is_comma_piece(s, #[trigger] json_pairs(s)[k]) by {
        assert(json_pairs(s)[k] == r[k]);
    }
}

} // verus!

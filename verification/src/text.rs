use vstd::prelude::*;
use vstd::string::StringExecFns;

use crate::scan::{split_on, split_ranges};

verus! {

/// `String::push` appends the character to the string's text.
pub assume_specification[ String::push ](s: &mut String, ch: char)
    ensures
        final(s)@ == old(s)@.push(ch),
;

/// The characters of a string, in order.
pub fn chars_of(s: &str) -> (v: Vec<char>)
    ensures
        v@ == s@,
{
    let mut v: Vec<char> = Vec::new();
    for c in it: s.chars()
        invariant
            v@ == it.seq().take(it.index() as int),
            it.seq() == s@,
    {
        v.push(c);
    }
    v
}

/// A string made of the given characters.
pub fn string_from_chars(v: &[char]) -> (s: String)
    ensures
        s@ == v@,
{
    let mut s = String::new();
    let mut i: usize = 0;
    while i < v.len()
        invariant
            i <= v.len(),
            s@ == v@.take(i as int),
        decreases v.len() - i,
    {
        s.push(v[i]);
        proof {
            assert(v@.take(i + 1) =~= v@.take(i as int).push(v@[i as int]));
        }
        i = i + 1;
    }
    proof {
        assert(v@.take(i as int) =~= v@);
    }
    s
}

/// The view of an optional string.
pub open spec fn opt_view(o: Option<String>) -> Option<Seq<char>> {
    match o {
        Some(s) => Some(s@),
        None => None,
    }
}

/// The views of a sequence of strings.
pub open spec fn seq_views(v: Seq<String>) -> Seq<Seq<char>> {
    v.map_values(|s: String| s@)
}

/// A piece of a Unix path between slashes that names a component: not
/// empty and not `.` (`..` names the parent).
pub open spec fn names_component(piece: Seq<char>) -> bool {
    piece.len() > 0 && piece != seq!['.']
}

/// The test `names_component`.
pub open spec fn component_piece() -> spec_fn(Seq<char>) -> bool {
    |q: Seq<char>| names_component(q)
}

/// The named components of a Unix path, in order: the pieces between
/// slashes, without empty ones and `.`.
pub open spec fn path_names(path: Seq<char>) -> Seq<Seq<char>> {
    split_on(path, '/').filter(component_piece())
}

/// The path starts at the root `/`.
pub open spec fn path_has_root(path: Seq<char>) -> bool {
    path.len() > 0 && path[0] == '/'
}

/// The path starts with the current directory `.` as its own component.
pub open spec fn path_starts_at_cur_dir(path: Seq<char>) -> bool {
    path.len() > 0 && path[0] == '.' && (path.len() == 1 || path[1] == '/')
}

/// The last component of a Unix path, as `std::path::Path::file_name`
/// gives it: the last named component, unless that is `..` or there is
/// none (for `/`, `.` and the empty path).
pub open spec fn path_file_name(path: Seq<char>) -> Option<Seq<char>> {
    let n = path_names(path);
    if n.len() > 0 && n.last() != seq!['.', '.'] {
        Some(n.last())
    } else {
        None
    }
}

/// How many components `std::path::Path::components` finds in a Unix
/// path: the root, a leading `.`, and the named components.
pub open spec fn path_component_count(path: Seq<char>) -> nat {
    (if path_has_root(path) {
        1nat
    } else {
        0nat
    }) + (if path_starts_at_cur_dir(path) {
        1nat
    } else {
        0nat
    }) + path_names(path).len()
}

/// Whether the characters `chars[a..b]` name a component.
fn piece_names_component(chars: &[char], a: usize, b: usize) -> (r: bool)
    requires
        a <= b <= chars@.len(),
    ensures
        r == names_component(chars@.subrange(a as int, b as int)),
{
    let ghost p = chars@.subrange(a as int, b as int);
    if a == b {
        return false;
    }
    if b - a == 1 && chars[a] == '.' {
        proof {
            assert(p =~= seq!['.']);
        }
        return false;
    }
    proof {
        if b - a == 1 {
            assert(p[0] != seq!['.'][0]);
        } else {
            assert(p.len() != seq!['.'].len());
        }
    }
    true
}

/// The file name of a Unix path, as `Path::file_name` gives it.
pub fn file_name_of(path: &str) -> (r: Option<String>)
    ensures
        opt_view(r) == path_file_name(path@),
{
    let chars = chars_of(path);
    let ranges = split_ranges(chars.as_slice(), '/');
    let ghost pieces = split_on(chars@, '/');
    let mut last: Option<(usize, usize)> = None;
    let mut i: usize = 0;
    while i < ranges.len()
        invariant
            i <= ranges@.len(),
            chars@ == path@,
            pieces == split_on(chars@, '/'),
            ranges@.len() == pieces.len(),
            forall|k: int|
                #![trigger ranges@[k]]
                0 <= k < ranges@.len() ==> ranges@[k].0 <= ranges@[k].1 <= chars@.len()
                    && chars@.subrange(ranges@[k].0 as int, ranges@[k].1 as int) == pieces[k],
            match last {
                None => pieces.take(i as int).filter(component_piece()).len() == 0,
                Some((a, b)) => a <= b <= chars@.len() && pieces.take(i as int).filter(
                    component_piece(),
                ).len() > 0 && chars@.subrange(a as int, b as int) == pieces.take(i as int).filter(
                    component_piece(),
                ).last(),
            },
        decreases ranges@.len() - i,
    {
        let (a, b) = ranges[i];
        proof {
            reveal_with_fuel(Seq::filter, 1);
            assert(pieces.take(i + 1).drop_last() =~= pieces.take(i as int));
            assert(pieces.take(i + 1).last() == pieces[i as int]);
        }
        if piece_names_component(chars.as_slice(), a, b) {
            last = Some((a, b));
        }
        i = i + 1;
    }
    proof {
        assert(pieces.take(i as int) =~= pieces);
    }
    match last {
        None => None,
        Some((a, b)) => {
            let ghost p = chars@.subrange(a as int, b as int);
            if b - a == 2 && chars[a] == '.' && chars[a + 1] == '.' {
                proof {
                    assert(p =~= seq!['.', '.']);
                }
                None
            } else {
                proof {
                    if p.len() == 2 {
                        assert(p[0] != seq!['.', '.'][0] || p[1] != seq!['.', '.'][1]);
                    }
                }
                Some(string_from_chars(&chars.as_slice()[a..b]))
            }
        },
    }
}

/// How many components a Unix path has, as `Path::components` counts them.
pub fn component_count(path: &str) -> (n: usize)
    ensures
        n == path_component_count(path@),
{
    let chars = chars_of(path);
    let root: usize = if chars.len() > 0 && chars[0] == '/' {
        1
    } else {
        0
    };
    let cur: usize = if chars.len() > 0 && chars[0] == '.' && (chars.len() == 1 || chars[1] == '/') {
        1
    } else {
        0
    };
    let ranges = split_ranges(chars.as_slice(), '/');
    let ghost pieces = split_on(chars@, '/');
    proof {
        reveal_with_fuel(crate::scan::split_scan, 3);
        if root + cur == 1 {
            assert(!names_component(pieces[0])) by {
                if chars@.len() > 1 && chars@[1] == '/' && chars@[0] == '.' {
                    assert(pieces[0] =~= seq!['.']);
                } else if chars@.len() == 1 && chars@[0] == '.' {
                    assert(pieces[0] =~= seq!['.']);
                }
            }
        }
    }
    let mut count: usize = 0;
    let mut i: usize = 0;
    while i < ranges.len()
        invariant
            i <= ranges@.len(),
            chars@ == path@,
            pieces == split_on(chars@, '/'),
            ranges@.len() == pieces.len(),
            root + cur <= 1,
            root + cur == 1 ==> !names_component(pieces[0]),
            forall|k: int|
                #![trigger ranges@[k]]
                0 <= k < ranges@.len() ==> ranges@[k].0 <= ranges@[k].1 <= chars@.len()
                    && chars@.subrange(ranges@[k].0 as int, ranges@[k].1 as int) == pieces[k],
            count == pieces.take(i as int).filter(component_piece()).len(),
            count + (if i > 0 {
                root + cur
            } else {
                0
            }) <= i,
        decreases ranges@.len() - i,
    {
        let (a, b) = ranges[i];
        proof {
            reveal_with_fuel(Seq::filter, 1);
            assert(pieces.take(i + 1).drop_last() =~= pieces.take(i as int));
            assert(pieces.take(i + 1).last() == pieces[i as int]);
        }
        if piece_names_component(chars.as_slice(), a, b) {
            count = count + 1;
        }
        i = i + 1;
    }
    proof {
        assert(pieces.take(i as int) =~= pieces);
    }
    count + root + cur
}

/// Whether a Unix path is relative (`Path::is_relative`): it does not
/// start at the root `/`.
pub open spec fn path_is_relative(path: Seq<char>) -> bool {
    !(path.len() > 0 && path[0] == '/')
}

/// The Unix path `Path::join(base, path)` gives: `path` itself when it is
/// absolute, otherwise `base` and `path` with a `/` between them unless
/// `base` is empty or already ends with one.
pub open spec fn path_joined(base: Seq<char>, path: Seq<char>) -> Seq<char> {
    if !path_is_relative(path) {
        path
    } else if base.len() > 0 && base.last() != '/' {
        base + seq!['/'] + path
    } else {
        base + path
    }
}

/// Whether a Unix path is relative.
pub fn is_relative_path(path: &str) -> (b: bool)
    ensures
        b == path_is_relative(path@),
{
    let c = chars_of(path);
    !(c.len() > 0 && c[0] == '/')
}

/// The Unix path `base` joined with `path`, as `Path::join` gives it.
pub fn join_path(base: &str, path: &str) -> (r: String)
    ensures
        r@ == path_joined(base@, path@),
{
    if !is_relative_path(path) {
        return path.to_owned();
    }
    let b = chars_of(base);
    let mut r = base.to_owned();
    if b.len() > 0 && b[b.len() - 1] != '/' {
        r.push('/');
    }
    r.append(path);
    proof {
        if b@.len() > 0 {
            assert(b@.last() == b@[b@.len() - 1]);
        }
        if b@.len() > 0 && b@.last() != '/' {
            assert(r@ =~= base@ + seq!['/'] + path@);
        } else {
            assert(r@ =~= base@ + path@);
        }
    }
    r
}

/// Whether two character slices hold the same characters.
pub fn chars_eq(a: &[char], b: &[char]) -> (r: bool)
    ensures
        r == (a@ == b@),
{
    if a.len() != b.len() {
        return false;
    }
    let mut i: usize = 0;
    while i < a.len()
        invariant
            i <= a.len(),
            a.len() == b.len(),
            forall|j: int| 0 <= j < i ==> a@[j] == b@[j],
        decreases a.len() - i,
    {
        if a[i] != b[i] {
            return false;
        }
        i = i + 1;
    }
    proof {
        assert(a@ =~= b@);
    }
    true
}

/// Whether two strings are equal.
pub fn str_eq(a: &str, b: &str) -> (r: bool)
    ensures
        r == (a@ == b@),
{
    let av = chars_of(a);
    let bv = chars_of(b);
    chars_eq(av.as_slice(), bv.as_slice())
}

/// Whether `s` begins with `prefix`.
pub fn chars_start_with(s: &[char], prefix: &[char]) -> (r: bool)
    ensures
        r == prefix@.is_prefix_of(s@),
{
    if prefix.len() > s.len() {
        return false;
    }
    let mut i: usize = 0;
    while i < prefix.len()
        invariant
            i <= prefix.len(),
            prefix.len() <= s.len(),
            forall|j: int| 0 <= j < i ==> prefix@[j] == s@[j],
        decreases prefix.len() - i,
    {
        if prefix[i] != s[i] {
            return false;
        }
        i = i + 1;
    }
    proof {
        assert(prefix@ =~= s@.subrange(0, prefix@.len() as int));
    }
    true
}

/// Whether `s` ends with `suffix`.
pub fn chars_end_with(s: &[char], suffix: &[char]) -> (r: bool)
    ensures
        r == suffix@.is_suffix_of(s@),
{
    if suffix.len() > s.len() {
        return false;
    }
    let off = s.len() - suffix.len();
    let mut i: usize = 0;
    while i < suffix.len()
        invariant
            i <= suffix.len(),
            off + suffix.len() == s.len(),
            forall|j: int| 0 <= j < i ==> suffix@[j] == s@[off + j],
        decreases suffix.len() - i,
    {
        if suffix[i] != s[off + i] {
            return false;
        }
        i = i + 1;
    }
    proof {
        assert(suffix@ =~= s@.subrange(off as int, s@.len() as int));
    }
    true
}

/// Whether `c` occurs in `s`.
pub fn chars_contain(s: &[char], c: char) -> (r: bool)
    ensures
        r == s@.contains(c),
{
    let mut i: usize = 0;
    while i < s.len()
        invariant
            i <= s.len(),
            forall|j: int| 0 <= j < i ==> s@[j] != c,
        decreases s.len() - i,
    {
        if s[i] == c {
            assert(s@[i as int] == c);
            return true;
        }
        i = i + 1;
    }
    false
}

/// The index of the first line break at or after `i`, or the length when
/// there is none.
pub open spec fn next_newline(s: Seq<char>, i: int) -> int
    decreases s.len() - i,
{
    if i >= s.len() {
        s.len() as int
    } else if s[i] == '\n' {
        i
    } else {
        next_newline(s, i + 1)
    }
}

pub proof fn lemma_next_newline_ge(s: Seq<char>, i: int)
    ensures
        i <= s.len() ==> i <= next_newline(s, i) <= s.len(),
    decreases s.len() - i,
{
    if i < s.len() && s[i] != '\n' {
        lemma_next_newline_ge(s, i + 1);
    }
}

/// The lines of `s` from index `i` on, as `str::lines` splits them: at each
/// `\n`, dropping a `\r` right before it; a final line break ends the
/// last line without starting another.
pub open spec fn lines_from(s: Seq<char>, i: int) -> Seq<Seq<char>>
    decreases s.len() - i,
{
    if i >= s.len() {
        Seq::empty()
    } else {
        let k = next_newline(s, i);
        proof {
            lemma_next_newline_ge(s, i);
        }
        let raw = s.subrange(i, k);
        let line = if k < s.len() && raw.len() > 0 && raw.last() == '\r' {
            raw.drop_last()
        } else {
            raw
        };
        if k < s.len() {
            seq![line] + lines_from(s, k + 1)
        } else {
            seq![line]
        }
    }
}

/// The lines of a text, as `str::lines` splits them.
pub open spec fn lines_of(s: Seq<char>) -> Seq<Seq<char>> {
    lines_from(s, 0)
}

pub proof fn lemma_next_newline(s: Seq<char>, i: int)
    requires
        0 <= i <= s.len(),
    ensures
        i <= next_newline(s, i) <= s.len(),
        next_newline(s, i) < s.len() ==> s[next_newline(s, i)] == '\n',
        forall|j: int| i <= j < next_newline(s, i) ==> s[j] != '\n',
    decreases s.len() - i,
{
    if i < s.len() && s[i] != '\n' {
        lemma_next_newline(s, i + 1);
    }
}

/// The position of the first line break at or after `i`.
fn find_newline(s: &[char], i: usize) -> (k: usize)
    requires
        i <= s.len(),
    ensures
        k == next_newline(s@, i as int),
{
    let mut k = i;
    while k < s.len() && s[k] != '\n'
        invariant
            i <= k <= s.len(),
            next_newline(s@, i as int) == next_newline(s@, k as int),
        decreases s.len() - k,
    {
        k = k + 1;
    }
    k
}

/// Splits text into lines exactly as `str::lines` does.
pub fn split_lines(s: &[char]) -> (lines: Vec<Vec<char>>)
    ensures
        lines@.map_values(|l: Vec<char>| l@) == lines_of(s@),
{
    let mut lines: Vec<Vec<char>> = Vec::new();
    let mut i: usize = 0;
    proof {
        assert(lines@.map_values(|l: Vec<char>| l@) + lines_from(s@, 0) =~= lines_of(s@));
    }
    while i < s.len()
        invariant
            i <= s.len(),
            lines@.map_values(|l: Vec<char>| l@) + lines_from(s@, i as int) == lines_of(s@),
        decreases s.len() - i,
    {
        let k = find_newline(s, i);
        proof {
            lemma_next_newline(s@, i as int);
        }
        let mut end = k;
        if k < s.len() && k > i && s[k - 1] == '\r' {
            end = k - 1;
        }
        let mut line: Vec<char> = Vec::new();
        let mut j = i;
        while j < end
            invariant
                i <= j <= end <= k <= s.len(),
                line@ == s@.subrange(i as int, j as int),
            decreases end - j,
        {
            line.push(s[j]);
            proof {
                assert(s@.subrange(i as int, j + 1) =~= s@.subrange(i as int, j as int).push(s@[j as int]));
            }
            j = j + 1;
        }
        let ghost before = lines@.map_values(|l: Vec<char>| l@);
        proof {
            let raw = s@.subrange(i as int, k as int);
            if k < s.len() && k > i && s@[k - 1] == '\r' {
                assert(raw.drop_last() =~= s@.subrange(i as int, end as int));
            }
        }
        lines.push(line);
        proof {
            assert(lines@.map_values(|l: Vec<char>| l@) =~= before.push(s@.subrange(i as int, end as int)));
            if k < s.len() {
                assert(lines_from(s@, i as int) =~= seq![s@.subrange(i as int, end as int)] + lines_from(s@, k + 1));
                assert(lines@.map_values(|l: Vec<char>| l@) + lines_from(s@, k + 1) =~= before + lines_from(s@, i as int));
            } else {
                assert(lines_from(s@, i as int) =~= seq![s@.subrange(i as int, end as int)]);
                assert(lines@.map_values(|l: Vec<char>| l@) + lines_from(s@, k as int) =~= before + lines_from(s@, i as int));
            }
        }
        i = if k < s.len() { k + 1 } else { k };
    }
    proof {
        assert(lines@.map_values(|l: Vec<char>| l@) + lines_from(s@, i as int) =~= lines@.map_values(|l: Vec<char>| l@));
    }
    lines
}

} // verus!

use vstd::prelude::*;

verus! {

/// Unicode white space, the characters that `char::is_whitespace` accepts
/// and that `str::trim` removes.
pub open spec fn is_white_space(c: char) -> bool {
    let n = c as u32;
    ||| 0x09 <= n <= 0x0d
    ||| n == 0x20
    ||| n == 0x85
    ||| n == 0xa0
    ||| n == 0x1680
    ||| 0x2000 <= n <= 0x200a
    ||| n == 0x2028
    ||| n == 0x2029
    ||| n == 0x202f
    ||| n == 0x205f
    ||| n == 0x3000
}

/// The characters a trim removes: double quotes when `quote`, white space
/// otherwise.
pub open spec fn strips(c: char, quote: bool) -> bool {
    if quote {
        c == '"'
    } else {
        is_white_space(c)
    }
}

/// `s` without its leading stripped characters.
pub open spec fn trim_front(s: Seq<char>, quote: bool) -> Seq<char>
    decreases s.len(),
{
    if s.len() > 0 && strips(s[0], quote) {
        trim_front(s.drop_first(), quote)
    } else {
        s
    }
}

/// `s` without its trailing stripped characters.
pub open spec fn trim_back(s: Seq<char>, quote: bool) -> Seq<char>
    decreases s.len(),
{
    if s.len() > 0 && strips(s.last(), quote) {
        trim_back(s.drop_last(), quote)
    } else {
        s
    }
}

/// `s` without leading and trailing stripped characters (`str::trim` for
/// white space, `str::trim_matches('"')` for quotes).
pub open spec fn trimmed(s: Seq<char>, quote: bool) -> Seq<char> {
    trim_back(trim_front(s, quote), quote)
}

/// `s` with white space and then double quotes trimmed from both ends.
pub open spec fn unquoted(s: Seq<char>) -> Seq<char> {
    trimmed(trimmed(s, false), true)
}

/// The first position at or after `i` where `pat` occurs in `s`.
pub open spec fn find_from(s: Seq<char>, pat: Seq<char>, i: int) -> Option<int>
    decreases s.len() + 1 - i,
{
    if i < 0 || i + pat.len() > s.len() {
        None
    } else if s.subrange(i, i + pat.len()) == pat {
        Some(i)
    } else {
        find_from(s, pat, i + 1)
    }
}

/// Whether a text is not empty.
pub open spec fn nonempty_text() -> spec_fn(Seq<char>) -> bool {
    |t: Seq<char>| t.len() > 0
}

/// A position that `find_from` reports holds `pat`, at or after the
/// starting point.
pub proof fn lemma_find_from_found(s: Seq<char>, pat: Seq<char>, i: int)
    requires
        find_from(s, pat, i) is Some,
    ensures
        i <= find_from(s, pat, i)->0,
        find_from(s, pat, i)->0 + pat.len() <= s.len(),
        s.subrange(find_from(s, pat, i)->0, find_from(s, pat, i)->0 + pat.len()) == pat,
    decreases s.len() + 1 - i,
{
    if !(i < 0 || i + pat.len() > s.len()) && s.subrange(i, i + pat.len()) != pat {
        lemma_find_from_found(s, pat, i + 1);
    }
}

/// The pieces of `s` between the occurrences of `c`, scanning from `i`
/// with the current piece starting at `start` (`str::split` with a
/// character).
pub open spec fn split_scan(s: Seq<char>, c: char, i: int, start: int) -> Seq<Seq<char>>
    decreases s.len() - i,
{
    if i >= s.len() {
        seq![s.subrange(start, s.len() as int)]
    } else if s[i] == c {
        seq![s.subrange(start, i)] + split_scan(s, c, i + 1, i + 1)
    } else {
        split_scan(s, c, i + 1, start)
    }
}

/// The pieces of `s` between the occurrences of `c`.
pub open spec fn split_on(s: Seq<char>, c: char) -> Seq<Seq<char>> {
    split_scan(s, c, 0, 0)
}

/// Whether `c` is removed by a trim.
fn strips_char(c: char, quote: bool) -> (r: bool)
    ensures
        r == strips(c, quote),
{
    if quote {
        c == '"'
    } else {
        let n = c as u32;
        (0x09 <= n && n <= 0x0d) || n == 0x20 || n == 0x85 || n == 0xa0 || n == 0x1680 || (0x2000
            <= n && n <= 0x200a) || n == 0x2028 || n == 0x2029 || n == 0x202f || n == 0x205f || n
            == 0x3000
    }
}

/// The bounds, within `from..to`, of that range with stripped characters
/// trimmed from both ends.
pub fn trim_bounds(s: &[char], from: usize, to: usize, quote: bool) -> (r: (usize, usize))
    requires
        from <= to <= s@.len(),
    ensures
        from <= r.0 <= r.1 <= to,
        s@.subrange(r.0 as int, r.1 as int) == trimmed(s@.subrange(from as int, to as int), quote),
{
    let mut a = from;
    while a < to && strips_char(s[a], quote)
        invariant
            from <= a <= to <= s@.len(),
            trim_front(s@.subrange(from as int, to as int), quote) == trim_front(
                s@.subrange(a as int, to as int),
                quote,
            ),
        decreases to - a,
    {
        proof {
            assert(s@.subrange(a as int, to as int).drop_first() =~= s@.subrange(
                a + 1,
                to as int,
            ));
        }
        a = a + 1;
    }
    proof {
        assert(trim_front(s@.subrange(a as int, to as int), quote) == s@.subrange(
            a as int,
            to as int,
        ));
    }
    let mut b = to;
    while b > a && strips_char(s[b - 1], quote)
        invariant
            from <= a <= b <= to <= s@.len(),
            trim_front(s@.subrange(from as int, to as int), quote) == s@.subrange(
                a as int,
                to as int,
            ),
            trim_back(s@.subrange(a as int, to as int), quote) == trim_back(
                s@.subrange(a as int, b as int),
                quote,
            ),
        decreases b - a,
    {
        proof {
            assert(s@.subrange(a as int, b as int).drop_last() =~= s@.subrange(
                a as int,
                b - 1,
            ));
        }
        b = b - 1;
    }
    (a, b)
}

/// Whether `pat` occurs in `s` at position `i`.
fn occurs_at(s: &[char], pat: &[char], i: usize) -> (r: bool)
    requires
        i + pat@.len() <= s@.len(),
    ensures
        r == (s@.subrange(i as int, i + pat@.len()) == pat@),
{
    let n: usize = s.len();
    let mut j: usize = 0;
    while j < pat.len()
        invariant
            j <= pat@.len(),
            n == s@.len(),
            i + pat@.len() <= s@.len(),
            forall|k: int| 0 <= k < j ==> s@[i + k] == pat@[k],
        decreases pat.len() - j,
    {
        assert(i + j < n);
        if s[i + j] != pat[j] {
            proof {
                assert(s@.subrange(i as int, i + pat@.len())[j as int] != pat@[j as int]);
            }
            return false;
        }
        j = j + 1;
    }
    proof {
        assert(s@.subrange(i as int, i + pat@.len()) =~= pat@);
    }
    true
}

/// The first position at or after `from` where `pat` occurs in `s`.
pub fn find_text(s: &[char], pat: &[char], from: usize) -> (r: Option<usize>)
    ensures
        match r {
            Some(k) => find_from(s@, pat@, from as int) == Some(k as int),
            None => find_from(s@, pat@, from as int) is None,
        },
{
    let mut i = from;
    while i <= s.len() && pat.len() <= s.len() - i
        invariant
            from <= i,
            find_from(s@, pat@, from as int) == find_from(s@, pat@, i as int),
        decreases s@.len() + 1 - i,
    {
        if occurs_at(s, pat, i) {
            return Some(i);
        }
        proof {
            if pat@.len() == 0 {
                assert(s@.subrange(i as int, i as int) =~= pat@);
            }
        }
        i = i + 1;
    }
    None
}

/// The first position at or after `from` where `c` occurs in `s`.
pub fn find_char(s: &[char], c: char, from: usize) -> (r: Option<usize>)
    ensures
        match r {
            Some(k) => find_from(s@, seq![c], from as int) == Some(k as int) && from <= k < s@.len()
                && s@[k as int] == c,
            None => find_from(s@, seq![c], from as int) is None,
        },
{
    let mut i = from;
    while i < s.len()
        invariant
            from <= i,
            find_from(s@, seq![c], from as int) == find_from(s@, seq![c], i as int),
        decreases s@.len() - i,
    {
        proof {
            assert(s@.subrange(i as int, i + 1) =~= seq![s@[i as int]]);
        }
        if s[i] == c {
            return Some(i);
        }
        proof {
            assert(s@.subrange(i as int, i + 1)[0] != c);
        }
        i = i + 1;
    }
    None
}

/// The pieces of `s` between the occurrences of `c`, as index ranges.
pub fn split_ranges(s: &[char], c: char) -> (r: Vec<(usize, usize)>)
    ensures
        r@.len() == split_on(s@, c).len(),
        forall|i: int|
            #![trigger r@[i]]
            0 <= i < r@.len() ==> r@[i].0 <= r@[i].1 <= s@.len() && s@.subrange(
                r@[i].0 as int,
                r@[i].1 as int,
            ) == split_on(s@, c)[i],
{
    let mut r: Vec<(usize, usize)> = Vec::new();
    let mut start: usize = 0;
    let mut i: usize = 0;
    while i < s.len()
        invariant
            start <= i <= s@.len(),
            split_on(s@, c) == r@.map_values(
                |p: (usize, usize)| s@.subrange(p.0 as int, p.1 as int),
            ) + split_scan(s@, c, i as int, start as int),
            forall|k: int|
                #![trigger r@[k]]
                0 <= k < r@.len() ==> r@[k].0 <= r@[k].1 <= s@.len(),
        decreases s@.len() - i,
    {
        let ghost before = r@;
        if s[i] == c {
            r.push((start, i));
            proof {
                assert(r@.map_values(|p: (usize, usize)| s@.subrange(p.0 as int, p.1 as int))
                    =~= before.map_values(
                    |p: (usize, usize)| s@.subrange(p.0 as int, p.1 as int),
                ).push(s@.subrange(start as int, i as int)));
                assert(split_on(s@, c) =~= r@.map_values(
                    |p: (usize, usize)| s@.subrange(p.0 as int, p.1 as int),
                ) + split_scan(s@, c, i + 1, i + 1));
            }
            start = i + 1;
        }
        i = i + 1;
    }
    let ghost before = r@;
    r.push((start, s.len()));
    proof {
        assert(r@.map_values(|p: (usize, usize)| s@.subrange(p.0 as int, p.1 as int))
            =~= before.map_values(|p: (usize, usize)| s@.subrange(p.0 as int, p.1 as int)).push(
            s@.subrange(start as int, s@.len() as int),
        ));
        assert(split_on(s@, c) =~= r@.map_values(
            |p: (usize, usize)| s@.subrange(p.0 as int, p.1 as int),
        ));
        assert forall|i: int| 0 <= i < r@.len() implies s@.subrange(
            #[trigger] r@[i].0 as int,
            r@[i].1 as int,
        ) == split_on(s@, c)[i] by {}
    }
    r
}

} // verus!

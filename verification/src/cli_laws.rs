use vstd::prelude::*;

use crate::cli::{
    is_ssh_value_flag, ssh_destination_from, ssh_g_pair, ssh_g_scan, ssh_value_flag_letters, starts_with_dash,
    user_at_host_from,
};
use crate::text::lines_of;

verus! {

proof fn lemma_destination(args: Seq<Seq<char>>, i: int)
    requires
        i >= 1,
    ensures
        ssh_destination_from(args, i) matches Some(d) ==> exists|k: int|
            i <= k < args.len() && args[k] == d && !starts_with_dash(d),
        (forall|k: int| i <= k < args.len() ==> starts_with_dash(#[trigger] args[k]))
            ==> ssh_destination_from(args, i) is None,
    decreases args.len() + 1 - i,
{
    if i < args.len() {
        if crate::cli::is_ssh_value_flag(args[i]) {
            lemma_destination(args, i + 2);
            assert(starts_with_dash(args[i]));
        } else if starts_with_dash(args[i]) {
            lemma_destination(args, i + 1);
        }
    }
}

proof fn lemma_destination_skips_program(args: Seq<Seq<char>>, program: Seq<char>, i: int)
    requires
        i >= 1,
        args.len() > 0,
    ensures
        ssh_destination_from(args.update(0, program), i) == ssh_destination_from(args, i),
    decreases args.len() + 1 - i,
{
    let other = args.update(0, program);
    if i < args.len() {
        assert(other[i] == args[i]);
        lemma_destination_skips_program(args, program, i + 1);
        lemma_destination_skips_program(args, program, i + 2);
    }
}

proof fn lemma_user_at_host_skips_program(
    args: Seq<Seq<char>>,
    program: Seq<char>,
    i: int,
    user: Option<Seq<char>>,
)
    requires
        args.len() > 0,
    ensures
        user_at_host_from(args.update(0, program), i, user) == user_at_host_from(args, i, user),
    decreases args.len() + 1 - i,
{
    let other = args.update(0, program);
    if 1 <= i < args.len() {
        assert(other[i] == args[i]);
        if i + 1 < args.len() {
            assert(other[i + 1] == args[i + 1]);
        }
        let next = if i + 1 < args.len() {
            Some(args[i + 1])
        } else {
            None::<Seq<char>>
        };
        lemma_user_at_host_skips_program(args, program, i + 2, next);
        lemma_user_at_host_skips_program(args, program, i + 1, user);
    }
}

/// The ssh destination found is one of the arguments after the program
/// name and does not start with `-`; when every such argument starts with
/// `-` (or there is none), there is no destination. The program name
/// itself is never looked at.
pub proof fn law_destination_is_plain_argument(args: Seq<Seq<char>>, program: Seq<char>)
    ensures
        args.len() > 0 ==> ssh_destination_from(args.update(0, program), 1)
            == ssh_destination_from(args, 1),
        ssh_destination_from(args, 1) matches Some(d) ==> exists|k: int|
            1 <= k < args.len() && args[k] == d && !starts_with_dash(d),
        (forall|k: int| 1 <= k < args.len() ==> starts_with_dash(#[trigger] args[k]))
            ==> ssh_destination_from(args, 1) is None,
{
    lemma_destination(args, 1);
    if args.len() > 0 {
        lemma_destination_skips_program(args, program, 1);
    }
}

/// `user@host` formed from the value of an `-l` at `i` and a host at `j`.
pub open spec fn l_flag_key(args: Seq<Seq<char>>, i: int, j: int, k: Seq<char>) -> bool {
    &&& 1 <= i
    &&& i + 1 < j < args.len()
    &&& args[i] == "-l"@
    &&& !starts_with_dash(args[j])
    &&& k == args[i + 1] + "@"@ + args[j]
}

#[verifier::spinoff_prover]
#[verifier::rlimit(40)]
proof fn lemma_user_at_host(args: Seq<Seq<char>>, i: int, user: Option<Seq<char>>)
    requires
        i >= 1,
        user matches Some(u) ==> exists|i0: int|
            1 <= i0 && i0 + 2 <= i && i0 + 1 < args.len() && #[trigger] args[i0] == "-l"@
                && args[i0 + 1] == u,
    ensures
        user_at_host_from(args, i, user) is Some ==> ({
            let k = user_at_host_from(args, i, user)->0;
            (i == 1 && k == args[1] && args[1].contains('@')) || exists|i0: int, j: int|
                l_flag_key(args, i0, j, k)
        }),
    decreases args.len() + 1 - i,
{
    if i < args.len() {
        if i == 1 && !starts_with_dash(args[i]) && args[i].contains('@') {
            assert(user_at_host_from(args, i, user) == Some(args[1]));
        } else if args[i] == "-l"@ {
            let next = if i + 1 < args.len() {
                Some(args[i + 1])
            } else {
                None::<Seq<char>>
            };
            if i + 1 < args.len() {
                assert(args[i] == "-l"@);
            }
            lemma_user_at_host(args, i + 2, next);
            assert(user_at_host_from(args, i, user) == user_at_host_from(args, i + 2, next));
        } else if !starts_with_dash(args[i]) {
            if let Some(u) = user {
                let i0 = choose|i0: int|
                    1 <= i0 && i0 + 2 <= i && i0 + 1 < args.len() && #[trigger] args[i0] == "-l"@
                        && args[i0 + 1] == u;
                let r = user_at_host_from(args, i, user);
                assert(r->0 == u + "@"@ + args[i]);
                assert(l_flag_key(args, i0, i, r->0));
            } else {
                assert(user_at_host_from(args, i, user) is None);
            }
        } else {
            lemma_user_at_host(args, i + 1, user);
            assert(user_at_host_from(args, i, user) == user_at_host_from(args, i + 1, user));
        }
    }
}

/// The key derived from ssh arguments is either the first argument itself,
/// when it holds `@` and is no option, or `user@host` made of an `-l`
/// value and a later plain argument; either way it holds `@`. Fewer than
/// two arguments give no key, and a first argument holding `@` is the key.
/// The program name itself is never looked at.
pub proof fn law_user_at_host(args: Seq<Seq<char>>, program: Seq<char>)
    ensures
        args.len() > 0 ==> user_at_host_from(args.update(0, program), 1, None)
            == user_at_host_from(args, 1, None),
        user_at_host_from(args, 1, None) matches Some(k) ==> k.contains('@') && (k == args[1]
            || exists|i: int, j: int| l_flag_key(args, i, j, k)),
        args.len() < 2 ==> user_at_host_from(args, 1, None) is None,
        args.len() >= 2 && !starts_with_dash(args[1]) && args[1].contains('@')
            ==> user_at_host_from(args, 1, None) == Some(args[1]),
{
    reveal_strlit("@");
    lemma_user_at_host(args, 1, None);
    if args.len() > 0 {
        lemma_user_at_host_skips_program(args, program, 1, None);
    }
    if let Some(k) = user_at_host_from(args, 1, None) {
        if !(k == args[1] && args[1].contains('@')) {
            let (i, j) = choose|i: int, j: int| l_flag_key(args, i, j, k);
            let a = args[i + 1];
            assert(k[a.len() as int] == '@');
            assert(k.contains('@'));
        }
    }
}

/// A line `prefix` + value.
pub open spec fn line_with(lines: Seq<Seq<char>>, k: int, prefix: Seq<char>, v: Seq<char>) -> bool {
    0 <= k < lines.len() && prefix.is_prefix_of(lines[k]) && lines[k].skip(prefix.len() as int)
        == v
}

/// Whether some line from `j` on starts with `prefix`.
pub open spec fn has_line(lines: Seq<Seq<char>>, j: int, prefix: Seq<char>) -> bool {
    exists|k: int| j <= k < lines.len() && prefix.is_prefix_of(#[trigger] lines[k])
}

proof fn lemma_scan(
    lines: Seq<Seq<char>>,
    j: int,
    user: Option<Seq<char>>,
    host: Option<Seq<char>>,
)
    requires
        0 <= j <= lines.len(),
        !(user is Some && host is Some),
    ensures
        ssh_g_scan(lines, j, user, host) is None <==> ((user is None && !has_line(
            lines,
            j,
            "user "@,
        )) || (host is None && !has_line(lines, j, "hostname "@))),
        ssh_g_scan(lines, j, user, host) matches Some((u, h)) ==> (user == Some(u) || exists|k: int|
            j <= k && line_with(lines, k, "user "@, u)) && (host == Some(h) || exists|k: int|
            j <= k && line_with(lines, k, "hostname "@, h)),
    decreases lines.len() - j,
{
    let up = "user "@;
    let hp = "hostname "@;
    if j < lines.len() {
        let line = lines[j];
        let u = if up.is_prefix_of(line) {
            Some(line.skip(up.len() as int))
        } else {
            user
        };
        let h = if hp.is_prefix_of(line) {
            Some(line.skip(hp.len() as int))
        } else {
            host
        };
        if u is Some && h is Some {
            if up.is_prefix_of(line) {
                assert(line_with(lines, j, up, u->0));
                assert(has_line(lines, j, up));
            }
            if hp.is_prefix_of(line) {
                assert(line_with(lines, j, hp, h->0));
                assert(has_line(lines, j, hp));
            }
        } else {
            lemma_scan(lines, j + 1, u, h);
            if has_line(lines, j, up) && !up.is_prefix_of(line) {
                let k = choose|k: int| j <= k < lines.len() && up.is_prefix_of(#[trigger] lines[k]);
                assert(k != j);
                assert(has_line(lines, j + 1, up));
            }
            if has_line(lines, j, hp) && !hp.is_prefix_of(line) {
                let k = choose|k: int| j <= k < lines.len() && hp.is_prefix_of(#[trigger] lines[k]);
                assert(k != j);
                assert(has_line(lines, j + 1, hp));
            }
            if has_line(lines, j + 1, up) {
                let k = choose|k: int| j + 1 <= k < lines.len() && up.is_prefix_of(
                    #[trigger] lines[k],
                );
                assert(has_line(lines, j, up));
            }
            if has_line(lines, j + 1, hp) {
                let k = choose|k: int| j + 1 <= k < lines.len() && hp.is_prefix_of(
                    #[trigger] lines[k],
                );
                assert(has_line(lines, j, hp));
            }
            if up.is_prefix_of(line) {
                assert(has_line(lines, j, up));
                assert(line_with(lines, j, up, u->0));
            }
            if hp.is_prefix_of(line) {
                assert(has_line(lines, j, hp));
                assert(line_with(lines, j, hp, h->0));
            }
        }
    }
}

/// `ssh -G` output names no pair exactly when it has no `user ` line or no
/// `hostname ` line; a pair it names comes from such lines.
pub proof fn law_ssh_g_pair(output: Seq<char>)
    ensures
        ssh_g_pair(output) is None <==> (!has_line(lines_of(output), 0, "user "@) || !has_line(
            lines_of(output),
            0,
            "hostname "@,
        )),
        ssh_g_pair(output) matches Some((u, h)) ==> (exists|k: int|
            line_with(lines_of(output), k, "user "@, u)) && (exists|k: int|
            line_with(lines_of(output), k, "hostname "@, h)),
{
    lemma_scan(lines_of(output), 0, None, None);
}

/// Some line before `end` starts with `prefix`.
pub open spec fn has_line_before(lines: Seq<Seq<char>>, end: int, prefix: Seq<char>) -> bool {
    exists|b: int| 0 <= b < end && b < lines.len() && prefix.is_prefix_of(#[trigger] lines[b])
}

/// The last line before `end` that starts with `prefix` is at `a` and
/// holds `v` after the prefix.
pub open spec fn last_line_at(lines: Seq<Seq<char>>, end: int, a: int, prefix: Seq<char>, v: Seq<char>) -> bool {
    &&& a < end
    &&& line_with(lines, a, prefix, v)
    &&& forall|b: int| a < b < end && b < lines.len() ==> !prefix.is_prefix_of(#[trigger] lines[b])
}

/// The value after `prefix` on the last line before `end` that starts
/// with it is `v`.
pub open spec fn last_line_before(lines: Seq<Seq<char>>, end: int, prefix: Seq<char>, v: Seq<char>) -> bool {
    exists|a: int| last_line_at(lines, end, a, prefix, v)
}

/// What a scan from line `j` has gathered: the value of the last line of
/// each kind before `j`, or nothing when there is none.
pub open spec fn gathered(lines: Seq<Seq<char>>, j: int, prefix: Seq<char>, value: Option<Seq<char>>) -> bool {
    match value {
        Some(v) => last_line_before(lines, j, prefix, v),
        None => !has_line_before(lines, j, prefix),
    }
}

proof fn lemma_gathered_step(lines: Seq<Seq<char>>, j: int, prefix: Seq<char>, value: Option<Seq<char>>)
    requires
        0 <= j < lines.len(),
        gathered(lines, j, prefix, value),
    ensures
        gathered(
            lines,
            j + 1,
            prefix,
            if prefix.is_prefix_of(lines[j]) {
                Some(lines[j].skip(prefix.len() as int))
            } else {
                value
            },
        ),
{
    let line = lines[j];
    if prefix.is_prefix_of(line) {
        assert(last_line_at(lines, j + 1, j, prefix, line.skip(prefix.len() as int)));
    } else {
        match value {
            Some(v) => {
                let a = choose|a: int| last_line_at(lines, j, a, prefix, v);
                assert(last_line_at(lines, j + 1, a, prefix, v));
            },
            None => {
                if has_line_before(lines, j + 1, prefix) {
                    let b = choose|b: int| 0 <= b < j + 1 && b < lines.len() && prefix.is_prefix_of(
                        #[trigger] lines[b],
                    );
                    assert(has_line_before(lines, j, prefix));
                }
            },
        }
    }
}

proof fn lemma_scan_latest(
    lines: Seq<Seq<char>>,
    j: int,
    user: Option<Seq<char>>,
    host: Option<Seq<char>>,
)
    requires
        0 <= j <= lines.len(),
        !(user is Some && host is Some),
        gathered(lines, j, "user "@, user),
        gathered(lines, j, "hostname "@, host),
    ensures
        ssh_g_scan(lines, j, user, host) matches Some((u, h)) ==> exists|k: int|
            #![trigger lines[k]]
            j <= k < lines.len() && last_line_before(lines, k + 1, "user "@, u)
                && last_line_before(lines, k + 1, "hostname "@, h) && !(has_line_before(
                lines,
                k,
                "user "@,
            ) && has_line_before(lines, k, "hostname "@)),
    decreases lines.len() - j,
{
    let up = "user "@;
    let hp = "hostname "@;
    if j < lines.len() {
        let line = lines[j];
        let u = if up.is_prefix_of(line) {
            Some(line.skip(up.len() as int))
        } else {
            user
        };
        let h = if hp.is_prefix_of(line) {
            Some(line.skip(hp.len() as int))
        } else {
            host
        };
        lemma_gathered_step(lines, j, up, user);
        lemma_gathered_step(lines, j, hp, host);
        if u is Some && h is Some {
            assert(!(has_line_before(lines, j, up) && has_line_before(lines, j, hp)));
            assert(line == lines[j]);
        } else {
            lemma_scan_latest(lines, j + 1, u, h);
        }
    }
}

/// A pair named by `ssh -G` output is read at the first line by which both
/// a `user ` line and a `hostname ` line have appeared, each from the
/// last line of its kind up to there.
pub proof fn law_ssh_g_pair_is_latest(output: Seq<char>)
    ensures
        ssh_g_pair(output) matches Some((u, h)) ==> exists|k: int|
            #![trigger lines_of(output)[k]]
            0 <= k < lines_of(output).len() && last_line_before(lines_of(output), k + 1, "user "@, u)
                && last_line_before(lines_of(output), k + 1, "hostname "@, h) && !(has_line_before(
                lines_of(output),
                k,
                "user "@,
            ) && has_line_before(lines_of(output), k, "hostname "@)),
{
    lemma_scan_latest(lines_of(output), 0, None, None);
}

/// The letters of the ssh options that take a value, as the ssh manual
/// lists them: `-B -b -c -D -E -e -F -I -i -J -L -l -m -O -o -p -Q -R -S
/// -W -w`.
pub open spec fn ssh_manual_value_letter(c: char) -> bool {
    c == 'B' || c == 'b' || c == 'c' || c == 'D' || c == 'E' || c == 'e' || c == 'F' || c == 'I' || c == 'i' || c == 'J' || c == 'L' || c == 'l' || c == 'm' || c == 'O' || c == 'o' || c == 'p' || c == 'Q' || c == 'R' || c == 'S' || c == 'W' || c == 'w'
}

proof fn lemma_manual_letter_is_value_flag(c: char)
    requires
        ssh_manual_value_letter(c),
    ensures
        is_ssh_value_flag(seq!['-', c]),
{
    if c == 'B' {
        assert(ssh_value_flag_letters()[0] == c);
    } else if c == 'b' {
        assert(ssh_value_flag_letters()[1] == c);
    } else if c == 'c' {
        assert(ssh_value_flag_letters()[2] == c);
    } else if c == 'D' {
        assert(ssh_value_flag_letters()[3] == c);
    } else if c == 'E' {
        assert(ssh_value_flag_letters()[4] == c);
    } else if c == 'e' {
        assert(ssh_value_flag_letters()[5] == c);
    } else if c == 'F' {
        assert(ssh_value_flag_letters()[6] == c);
    } else if c == 'I' {
        assert(ssh_value_flag_letters()[7] == c);
    } else if c == 'i' {
        assert(ssh_value_flag_letters()[8] == c);
    } else if c == 'J' {
        assert(ssh_value_flag_letters()[9] == c);
    } else if c == 'L' {
        assert(ssh_value_flag_letters()[10] == c);
    } else if c == 'l' {
        assert(ssh_value_flag_letters()[11] == c);
    } else if c == 'm' {
        assert(ssh_value_flag_letters()[12] == c);
    } else if c == 'O' {
        assert(ssh_value_flag_letters()[13] == c);
    } else if c == 'o' {
        assert(ssh_value_flag_letters()[14] == c);
    } else if c == 'p' {
        assert(ssh_value_flag_letters()[15] == c);
    } else if c == 'Q' {
        assert(ssh_value_flag_letters()[16] == c);
    } else if c == 'R' {
        assert(ssh_value_flag_letters()[17] == c);
    } else if c == 'S' {
        assert(ssh_value_flag_letters()[18] == c);
    } else if c == 'W' {
        assert(ssh_value_flag_letters()[19] == c);
    } else if c == 'w' {
        assert(ssh_value_flag_letters()[20] == c);
    }
}

proof fn lemma_destination_after_pair(a: Seq<Seq<char>>, b: Seq<Seq<char>>, i: int)
    requires
        i >= 1,
        a.len() == b.len() + 2,
        forall|k: int| 1 <= k < b.len() ==> a[k + 2] == b[k],
    ensures
        ssh_destination_from(a, i + 2) == ssh_destination_from(b, i),
    decreases b.len() + 1 - i,
{
    if i < b.len() {
        assert(a[i + 2] == b[i]);
        lemma_destination_after_pair(a, b, i + 1);
        lemma_destination_after_pair(a, b, i + 2);
    }
}

/// The argument after an ssh option that takes a value is never the
/// destination: removing such an option and its value from right after
/// the program name leaves the destination found unchanged.
pub proof fn law_value_option_is_skipped(
    program: Seq<char>,
    c: char,
    value: Seq<char>,
    rest: Seq<Seq<char>>,
)
    requires
        ssh_manual_value_letter(c),
    ensures
        ssh_destination_from(seq![program, seq!['-', c], value] + rest, 1) == ssh_destination_from(
            seq![program] + rest,
            1,
        ),
{
    let a = seq![program, seq!['-', c], value] + rest;
    let b = seq![program] + rest;
    lemma_manual_letter_is_value_flag(c);
    assert(a[1] == seq!['-', c]);
    assert forall|k: int| 1 <= k < b.len() implies a[k + 2] == b[k] by {
        assert(a[k + 2] == rest[k - 1]);
        assert(b[k] == rest[k - 1]);
    }
    lemma_destination_after_pair(a, b, 1);
}

/// With `-l user` right after the program name, the key is `user@host`
/// where the host is the next argument, when it is no option; whatever
/// follows (the remote command) does not matter.
pub proof fn law_l_option_key(
    program: Seq<char>,
    user: Seq<char>,
    host: Seq<char>,
    rest: Seq<Seq<char>>,
)
    requires
        !starts_with_dash(host),
    ensures
        user_at_host_from(seq![program, "-l"@, user, host] + rest, 1, None) == Some(
            user + "@"@ + host,
        ),
{
    reveal_strlit("-l");
    let a = seq![program, "-l"@, user, host] + rest;
    assert(a[1] == "-l"@);
    assert(a[2] == user);
    assert(a[3] == host);
    assert(starts_with_dash(a[1]));
    if host == "-l"@ {
        assert(host[0] == '-');
    }
    assert(user_at_host_from(a, 1, None) == user_at_host_from(a, 3, Some(user)));
}

} // verus!

use vstd::prelude::*;

use crate::matcher::{
    MatchEvent, MatcherState, feed_spec, matcher_step, progress_justified,
    default_password_pattern, host_key_unknown_pattern, host_key_changed_pattern,
};

verus! {

/// The pattern is non-empty and its first byte occurs nowhere else in it.
/// For such a pattern, restarting on a mismatch finds every occurrence.
pub open spec fn first_byte_unique(pattern: Seq<u8>) -> bool {
    &&& pattern.len() > 0
    &&& forall|k: int| 1 <= k < pattern.len() ==> #[trigger] pattern[k] != pattern[0]
}

/// `state` is the longest proper prefix of `pattern` that ends `seen`.
pub open spec fn longest_progress(pattern: Seq<u8>, state: nat, seen: Seq<u8>) -> bool {
    &&& progress_justified(pattern, state, seen)
    &&& forall|k: int|
        state < k < pattern.len() ==> !(#[trigger] pattern.take(k)).is_suffix_of(seen)
}

/// Each of the three matchers is as far along as `seen` allows.
pub open spec fn all_longest(pattern: Seq<u8>, m: MatcherState, seen: Seq<u8>) -> bool {
    &&& longest_progress(pattern, m.password, seen)
    &&& longest_progress(host_key_unknown_pattern(), m.host_key_unknown, seen)
    &&& longest_progress(host_key_changed_pattern(), m.host_key_changed, seen)
}

/// The event that `text` ends with, the host-key-changed message first,
/// then the host-key-unknown message, then the password prompt.
pub open spec fn event_at_end(pattern: Seq<u8>, text: Seq<u8>) -> MatchEvent {
    if host_key_changed_pattern().is_suffix_of(text) {
        MatchEvent::HostKeyChanged
    } else if host_key_unknown_pattern().is_suffix_of(text) {
        MatchEvent::HostKeyUnknown
    } else if pattern.len() > 0 && pattern.is_suffix_of(text) {
        MatchEvent::PasswordPrompt
    } else {
        MatchEvent::NoMatch
    }
}

/// The state of a matcher that has seen nothing.
pub open spec fn fresh_state() -> MatcherState {
    MatcherState { password: 0, host_key_unknown: 0, host_key_changed: 0, password_matches: 0 }
}

proof fn lemma_prefix_suffixes_exclusive(pattern: Seq<u8>, j: int, s: int, seen: Seq<u8>)
    requires
        first_byte_unique(pattern),
        1 <= j < s <= pattern.len(),
        pattern.take(s).is_suffix_of(seen),
    ensures
        !pattern.take(j).is_suffix_of(seen),
{
    let n = seen.len() as int;
    if pattern.take(j).is_suffix_of(seen) {
        assert(pattern.take(j)[0] == seen.subrange(n - j, n)[0]);
        assert(pattern.take(s)[s - j] == seen.subrange(n - s, n)[s - j]);
        assert(pattern[s - j] != pattern[0]);
    }
}

proof fn lemma_suffix_after_push(pattern: Seq<u8>, k: int, seen: Seq<u8>, b: u8)
    requires
        1 <= k <= pattern.len(),
    ensures
        pattern.take(k).is_suffix_of(seen.push(b)) <==> (pattern.take(k - 1).is_suffix_of(seen)
            && pattern[k - 1] == b),
{
    let seen2 = seen.push(b);
    let n = seen.len() as int;
    assert(pattern.take(k) =~= pattern.take(k - 1).push(pattern[k - 1]));
    if k - 1 <= n {
        assert(seen2.subrange(n + 1 - k, n + 1) =~= seen.subrange(n - (k - 1), n).push(b));
        if pattern.take(k).is_suffix_of(seen2) {
            assert(pattern.take(k)[k - 1] == seen2.subrange(n + 1 - k, n + 1)[k - 1]);
            assert(pattern.take(k - 1) =~= pattern.take(k).drop_last());
            assert(seen.subrange(n - (k - 1), n) =~= seen2.subrange(n + 1 - k, n + 1).drop_last());
        }
    }
}

proof fn lemma_step_longest(pattern: Seq<u8>, state: nat, seen: Seq<u8>, b: u8)
    requires
        first_byte_unique(pattern),
        longest_progress(pattern, state, seen),
    ensures
        ({
            let (s2, hit) = matcher_step(pattern, state, b);
            &&& longest_progress(pattern, s2, seen.push(b))
            &&& hit == pattern.is_suffix_of(seen.push(b))
        }),
{
    let seen2 = seen.push(b);
    let len = pattern.len() as int;
    let (s2, hit) = matcher_step(pattern, state, b);
    crate::matcher::lemma_step_justified(pattern, state, seen, b);
    assert(pattern.take(len) =~= pattern);
    // A prefix of length k >= 1 ends seen2 only if k - 1 is 0 or `state`.
    assert forall|k: int| 1 <= k <= len && #[trigger] pattern.take(k).is_suffix_of(seen2) implies (
    k - 1 == 0 || k - 1 == state) && pattern[k - 1] == b by {
        lemma_suffix_after_push(pattern, k, seen, b);
        if k - 1 != 0 && k - 1 != state {
            if k - 1 > state {
                assert(!pattern.take(k - 1).is_suffix_of(seen));
            } else {
                lemma_prefix_suffixes_exclusive(pattern, k - 1, state as int, seen);
            }
        }
    }
    if hit {
        assert forall|k: int| s2 < k < len implies !(#[trigger] pattern.take(k)).is_suffix_of(
            seen2,
        ) by {
            lemma_prefix_suffixes_exclusive(pattern, k, len, seen2);
        }
    } else {
        assert forall|k: int| s2 < k <= len implies !(#[trigger] pattern.take(k)).is_suffix_of(
            seen2,
        ) by {
            if pattern.take(k).is_suffix_of(seen2) {
                assert(k - 1 == 0 || k - 1 == state);
            }
        }
    }
}

proof fn lemma_fresh_longest(pattern: Seq<u8>)
    ensures
        longest_progress(pattern, 0, Seq::<u8>::empty()),
{
    let e = Seq::<u8>::empty();
    assert(pattern.take(0) =~= e.subrange(0, 0));
}

/// The state after one byte through all three matchers (prompt count
/// unchanged).
pub open spec fn step_all(pattern: Seq<u8>, m: MatcherState, b: u8) -> MatcherState {
    MatcherState {
        password: matcher_step(pattern, m.password, b).0,
        host_key_unknown: matcher_step(host_key_unknown_pattern(), m.host_key_unknown, b).0,
        host_key_changed: matcher_step(host_key_changed_pattern(), m.host_key_changed, b).0,
        password_matches: m.password_matches,
    }
}

proof fn lemma_step_all(pattern: Seq<u8>, m: MatcherState, seen: Seq<u8>, b: u8)
    requires
        first_byte_unique(pattern),
        all_longest(pattern, m, seen),
    ensures
        all_longest(pattern, step_all(pattern, m, b), seen.push(b)),
        matcher_step(host_key_changed_pattern(), m.host_key_changed, b).1
            == host_key_changed_pattern().is_suffix_of(seen.push(b)),
        matcher_step(host_key_unknown_pattern(), m.host_key_unknown, b).1
            == host_key_unknown_pattern().is_suffix_of(seen.push(b)),
        matcher_step(pattern, m.password, b).1 == pattern.is_suffix_of(seen.push(b)),
{
    law_fixed_patterns_first_byte_unique();
    lemma_step_longest(pattern, m.password, seen, b);
    lemma_step_longest(host_key_unknown_pattern(), m.host_key_unknown, seen, b);
    lemma_step_longest(host_key_changed_pattern(), m.host_key_changed, seen, b);
}

/// Feeding `bytes` from a state whose progress is the longest that `seen`
/// allows: no byte before the one reported completes any pattern, the
/// reported byte completes the reported pattern and none of higher
/// priority, and the progress stays the longest possible.
#[verifier::spinoff_prover]
#[verifier::rlimit(50)]
pub proof fn lemma_feed_first_occurrence(
    pattern: Seq<u8>,
    m: MatcherState,
    seen: Seq<u8>,
    bytes: Seq<u8>,
)
    requires
        first_byte_unique(pattern),
        all_longest(pattern, m, seen),
    ensures
        ({
            let (m2, ev, n) = feed_spec(pattern, m, bytes);
            let scanned: int = if ev == MatchEvent::NoMatch {
                bytes.len() as int
            } else {
                n - 1
            };
            &&& forall|i: int|
                1 <= i <= scanned ==> event_at_end(pattern, seen + #[trigger] bytes.take(i))
                    == MatchEvent::NoMatch
            &&& ev != MatchEvent::NoMatch ==> event_at_end(pattern, seen + bytes.take(n as int))
                == ev
            &&& all_longest(pattern, m2, seen + bytes.take(n as int))
        }),
    decreases bytes.len(),
{
    if bytes.len() == 0 {
        assert(seen + bytes.take(0) =~= seen);
    } else {
        let b = bytes[0];
        let seen1 = seen.push(b);
        let rest = bytes.drop_first();
        let next = step_all(pattern, m, b);
        lemma_step_all(pattern, m, seen, b);
        assert(seen + bytes.take(1) =~= seen1);
        if event_at_end(pattern, seen1) == MatchEvent::NoMatch {
            lemma_feed_first_occurrence(pattern, next, seen1, rest);
            crate::matcher::law_feed_consumption_and_count(pattern, next, rest);
            let (m2, ev, n) = feed_spec(pattern, next, rest);
            assert(feed_spec(pattern, m, bytes) == (m2, ev, (n + 1) as nat));
            assert(seen + bytes.take((n + 1) as int) =~= seen1 + rest.take(n as int));
            let scanned: int = if ev == MatchEvent::NoMatch {
                bytes.len() as int
            } else {
                n as int
            };
            assert forall|i: int| 1 <= i <= scanned implies event_at_end(
                pattern,
                seen + #[trigger] bytes.take(i),
            ) == MatchEvent::NoMatch by {
                if i > 1 {
                    assert(seen + bytes.take(i) =~= seen1 + rest.take(i - 1));
                }
            }
        }
    }
}

/// What the matcher is for: fed to a fresh matcher, output is reported at
/// the first byte that completes the password prompt or one of ssh's two
/// host-key messages (the changed-key message first, then the unknown-host
/// message, then the prompt), or as no match when no byte does; the prompt
/// needs only a first byte that occurs nowhere else in it.
pub proof fn law_feed_reports_first_occurrence(pattern: Seq<u8>, bytes: Seq<u8>)
    requires
        first_byte_unique(pattern),
    ensures
        ({
            let (m2, ev, n) = feed_spec(pattern, fresh_state(), bytes);
            &&& forall|i: int|
                1 <= i <= (if ev == MatchEvent::NoMatch {
                    bytes.len() as int
                } else {
                    n - 1
                }) ==> event_at_end(pattern, #[trigger] bytes.take(i)) == MatchEvent::NoMatch
            &&& ev != MatchEvent::NoMatch ==> n >= 1 && event_at_end(pattern, bytes.take(n as int))
                == ev
        }),
{
    let e = Seq::<u8>::empty();
    lemma_fresh_longest(pattern);
    lemma_fresh_longest(host_key_unknown_pattern());
    lemma_fresh_longest(host_key_changed_pattern());
    lemma_feed_first_occurrence(pattern, fresh_state(), e, bytes);
    crate::matcher::law_feed_consumption_and_count(pattern, fresh_state(), bytes);
    let (m2, ev, n) = feed_spec(pattern, fresh_state(), bytes);
    assert forall|i: int|
        1 <= i <= (if ev == MatchEvent::NoMatch {
            bytes.len() as int
        } else {
            n - 1
        }) implies event_at_end(pattern, #[trigger] bytes.take(i)) == MatchEvent::NoMatch by {
        assert(e + bytes.take(i) =~= bytes.take(i));
    }
    if ev != MatchEvent::NoMatch {
        assert(e + bytes.take(n as int) =~= bytes.take(n as int));
    }
}

/// The default prompt and ssh's two host-key messages each begin with a
/// byte that occurs nowhere else in them.
pub proof fn law_fixed_patterns_first_byte_unique()
    ensures
        first_byte_unique(default_password_pattern()),
        first_byte_unique(host_key_unknown_pattern()),
        first_byte_unique(host_key_changed_pattern()),
{
    reveal_strlit("assword:");
    reveal_strlit("The authenticity of host ");
    reveal_strlit("WARNING: REMOTE HOST IDENTIFICATION HAS CHANGED");
    vstd::utf8::is_ascii_chars_encode_utf8("assword:"@);
    vstd::utf8::is_ascii_chars_encode_utf8("The authenticity of host "@);
    vstd::utf8::is_ascii_chars_encode_utf8("WARNING: REMOTE HOST IDENTIFICATION HAS CHANGED"@);
}

/// Output fed chunk after chunk, as it arrives, until a chunk reports an
/// event: the state and the event at that point (no match when none
/// does). Bytes of a chunk after its event are not examined.
pub open spec fn feed_chunks(pattern: Seq<u8>, m: MatcherState, chunks: Seq<Seq<u8>>) -> (
    MatcherState,
    MatchEvent,
)
    decreases chunks.len(),
{
    if chunks.len() == 0 {
        (m, MatchEvent::NoMatch)
    } else {
        let (m1, ev, _) = feed_spec(pattern, m, chunks[0]);
        if ev != MatchEvent::NoMatch {
            (m1, ev)
        } else {
            feed_chunks(pattern, m1, chunks.drop_first())
        }
    }
}

proof fn lemma_feed_stops_at_event(pattern: Seq<u8>, m: MatcherState, first: Seq<u8>, rest: Seq<u8>)
    requires
        feed_spec(pattern, m, first).1 != MatchEvent::NoMatch,
    ensures
        feed_spec(pattern, m, first + rest) == feed_spec(pattern, m, first),
    decreases first.len(),
{
    if first.len() > 0 {
        let b = first[0];
        let (ps, ph) = matcher_step(pattern, m.password, b);
        let (us, uh) = matcher_step(host_key_unknown_pattern(), m.host_key_unknown, b);
        let (cs, ch) = matcher_step(host_key_changed_pattern(), m.host_key_changed, b);
        let next = MatcherState {
            password: ps,
            host_key_unknown: us,
            host_key_changed: cs,
            password_matches: m.password_matches,
        };
        assert((first + rest)[0] == b);
        assert((first + rest).drop_first() =~= first.drop_first() + rest);
        if !ch && !uh && !ph {
            lemma_feed_stops_at_event(pattern, next, first.drop_first(), rest);
        }
    }
}

/// Output split into any number of chunks is matched as if it came in one
/// piece: fed chunk by chunk, the first event reported, and the matcher's
/// state then, are those of feeding all the output at once.
pub proof fn law_feed_chunks_as_one(pattern: Seq<u8>, m: MatcherState, chunks: Seq<Seq<u8>>)
    ensures
        ({
            let (m2, ev, _) = feed_spec(pattern, m, chunks.flatten());
            feed_chunks(pattern, m, chunks) == (m2, ev)
        }),
    decreases chunks.len(),
{
    if chunks.len() == 0 {
        assert(chunks.flatten() =~= Seq::<u8>::empty());
    } else {
        let first = chunks[0];
        let rest = chunks.drop_first().flatten();
        assert(chunks.flatten() == first + rest);
        let (m1, ev, _) = feed_spec(pattern, m, first);
        if ev != MatchEvent::NoMatch {
            lemma_feed_stops_at_event(pattern, m, first, rest);
        } else {
            crate::matcher::law_feed_in_pieces(pattern, m, first, rest);
            law_feed_chunks_as_one(pattern, m1, chunks.drop_first());
        }
    }
}

} // verus!

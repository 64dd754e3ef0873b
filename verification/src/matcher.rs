use vstd::prelude::*;
use vstd::slice::slice_to_vec;
use vstd::utf8::encode_utf8;
use vstd::string::StringSliceAdditionalSpecFns;

verus! {

/// What a chunk of PTY output revealed.
#[derive(Debug, Clone, Copy, PartialEq, Eq, Structural)]
pub enum MatchEvent {
    NoMatch,
    PasswordPrompt,
    HostKeyUnknown,
    HostKeyChanged,
}

/// The prompt pattern used when none (or an empty one) is given.
pub open spec fn default_password_pattern() -> Seq<u8> {
    "assword:".spec_bytes()
}

/// The start of ssh's message about a host whose key is not yet known.
pub open spec fn host_key_unknown_pattern() -> Seq<u8> {
    "The authenticity of host ".spec_bytes()
}

/// The start of ssh's warning about a host whose key has changed.
pub open spec fn host_key_changed_pattern() -> Seq<u8> {
    "WARNING: REMOTE HOST IDENTIFICATION HAS CHANGED".spec_bytes()
}

/// One byte through a streaming literal matcher that restarts on mismatch:
/// the progress after the byte, and whether the whole pattern was just
/// completed (progress then starts over at zero).
pub open spec fn matcher_step(pattern: Seq<u8>, state: nat, byte: u8) -> (nat, bool) {
    if pattern.len() == 0 {
        (0, false)
    } else {
        let advanced: nat = if pattern[state as int] == byte {
            state + 1
        } else if pattern[0] == byte {
            1
        } else {
            0
        };
        if advanced == pattern.len() {
            (0, true)
        } else {
            (advanced, false)
        }
    }
}

/// The prompt text a matcher made for `pattern` searches for: the default
/// `assword:` when `pattern` is empty, else `pattern` itself.
pub open spec fn chosen_prompt(pattern: Seq<char>) -> Seq<char> {
    if pattern.len() == 0 {
        "assword:"@
    } else {
        pattern
    }
}

/// One byte through a single-pattern matcher whose progress is in range:
/// an empty pattern never matches and keeps progress zero; otherwise the
/// byte completes the pattern exactly when it is the next expected byte of
/// the last position, progress then restarts at zero, else it advances on
/// the expected byte, restarts at one on the pattern's first byte, or at
/// zero; progress stays below the pattern's length.
pub proof fn law_matcher_step(pattern: Seq<u8>, state: nat, byte: u8)
    requires
        pattern.len() == 0 ==> state == 0,
        pattern.len() > 0 ==> state < pattern.len(),
    ensures
        ({
            let (next, hit) = matcher_step(pattern, state, byte);
            &&& pattern.len() == 0 ==> next == state && !hit
            &&& pattern.len() > 0 ==> {
                &&& hit == (pattern[state as int] == byte && state + 1 == pattern.len())
                &&& next == (if hit {
                    0
                } else if pattern[state as int] == byte {
                    state + 1
                } else if pattern[0] == byte {
                    1
                } else {
                    0
                })
                &&& next < pattern.len()
            }
        }),
{
}

/// The progress of the three matchers and the number of password prompts seen.
pub struct MatcherState {
    pub password: nat,
    pub host_key_unknown: nat,
    pub host_key_changed: nat,
    pub password_matches: nat,
}

/// Feeding `bytes` from state `m`, with `pattern` as the password prompt:
/// the state after the bytes that were consumed, the event reported, and
/// how many bytes were consumed. Bytes are consumed up to and including the
/// first one that completes a pattern; a host-key-changed match wins over a
/// host-key-unknown match, which wins over a password prompt.
pub open spec fn feed_spec(pattern: Seq<u8>, m: MatcherState, bytes: Seq<u8>) -> (
    MatcherState,
    MatchEvent,
    nat,
)
    decreases bytes.len(),
{
    if bytes.len() == 0 {
        (m, MatchEvent::NoMatch, 0)
    } else {
        let b = bytes[0];
        let (ps, ph) = matcher_step(pattern, m.password, b);
        let (us, uh) = matcher_step(host_key_unknown_pattern(), m.host_key_unknown, b);
        let (cs, ch) = matcher_step(host_key_changed_pattern(), m.host_key_changed, b);
        let next = MatcherState {
            password: ps,
            host_key_unknown: us,
            host_key_changed: cs,
            password_matches: m.password_matches,
        };
        if ch {
            (next, MatchEvent::HostKeyChanged, 1)
        } else if uh {
            (next, MatchEvent::HostKeyUnknown, 1)
        } else if ph {
            (
                MatcherState { password_matches: m.password_matches + 1, ..next },
                MatchEvent::PasswordPrompt,
                1,
            )
        } else {
            let (m2, ev, n) = feed_spec(pattern, next, bytes.drop_first());
            (m2, ev, n + 1)
        }
    }
}

/// Feeding a chunk that reports nothing consumes all of it, and the
/// password-prompt count grows by one exactly when a password prompt is
/// reported.
pub proof fn law_feed_consumption_and_count(pattern: Seq<u8>, m: MatcherState, bytes: Seq<u8>)
    ensures
        ({
            let (m2, ev, n) = feed_spec(pattern, m, bytes);
            &&& n <= bytes.len()
            &&& (ev == MatchEvent::NoMatch ==> n == bytes.len())
            &&& (ev != MatchEvent::NoMatch ==> n >= 1)
            &&& m2.password_matches == m.password_matches + (if ev == MatchEvent::PasswordPrompt {
                1int
            } else {
                0int
            })
        }),
    decreases bytes.len(),
{
    if bytes.len() > 0 {
        let b = bytes[0];
        let (ps, ph) = matcher_step(pattern, m.password, b);
        let (us, uh) = matcher_step(host_key_unknown_pattern(), m.host_key_unknown, b);
        let (cs, ch) = matcher_step(host_key_changed_pattern(), m.host_key_changed, b);
        let next = MatcherState {
            password: ps,
            host_key_unknown: us,
            host_key_changed: cs,
            password_matches: m.password_matches,
        };
        law_feed_consumption_and_count(pattern, next, bytes.drop_first());
    }
}

/// Output split into two chunks is matched as if it came in one piece: when
/// the first chunk reports nothing, feeding the second chunk afterwards gives
/// the same state and event as feeding their concatenation.
pub proof fn law_feed_in_pieces(pattern: Seq<u8>, m: MatcherState, first: Seq<u8>, second: Seq<u8>)
    requires
        feed_spec(pattern, m, first).1 == MatchEvent::NoMatch,
    ensures
        ({
            let (m1, _, n1) = feed_spec(pattern, m, first);
            let (m2, ev2, n2) = feed_spec(pattern, m1, second);
            feed_spec(pattern, m, first + second) == (m2, ev2, (n1 + n2) as nat)
        }),
    decreases first.len(),
{
    if first.len() == 0 {
        assert(first + second =~= second);
    } else {
        let b = first[0];
        let (ps, ph) = matcher_step(pattern, m.password, b);
        let (us, uh) = matcher_step(host_key_unknown_pattern(), m.host_key_unknown, b);
        let (cs, ch) = matcher_step(host_key_changed_pattern(), m.host_key_changed, b);
        let next = MatcherState {
            password: ps,
            host_key_unknown: us,
            host_key_changed: cs,
            password_matches: m.password_matches,
        };
        assert((first + second)[0] == b);
        assert((first + second).drop_first() =~= first.drop_first() + second);
        law_feed_in_pieces(pattern, next, first.drop_first(), second);
    }
}

/// The progress `state` of a matcher for `pattern` is justified by `seen`:
/// the bytes seen so far end with the first `state` bytes of the pattern.
pub open spec fn progress_justified(pattern: Seq<u8>, state: nat, seen: Seq<u8>) -> bool {
    &&& state <= pattern.len()
    &&& (pattern.len() > 0 ==> state < pattern.len())
    &&& pattern.take(state as int).is_suffix_of(seen)
}

/// One byte keeps a matcher's progress justified by the bytes seen, and a
/// reported completion means the pattern ends them.
pub proof fn lemma_step_justified(pattern: Seq<u8>, state: nat, seen: Seq<u8>, b: u8)
    requires
        progress_justified(pattern, state, seen),
    ensures
        ({
            let (s2, hit) = matcher_step(pattern, state, b);
            &&& progress_justified(pattern, s2, seen.push(b))
            &&& (hit ==> pattern.len() > 0 && pattern.is_suffix_of(seen.push(b)))
        }),
{
    let seen2 = seen.push(b);
    if pattern.len() > 0 {
        if pattern[state as int] == b {
            let t = pattern.take(state + 1 as int);
            assert(t =~= pattern.take(state as int).push(b));
            assert(t =~= seen2.subrange(seen2.len() - t.len(), seen2.len() as int));
            if state + 1 == pattern.len() {
                assert(t =~= pattern);
            }
        } else if pattern[0] == b {
            let t = pattern.take(1);
            assert(t =~= seen2.subrange(seen2.len() - 1, seen2.len() as int));
            if pattern.len() == 1 {
                assert(t =~= pattern);
            }
        }
    }
    let (s2, hit) = matcher_step(pattern, state, b);
    if s2 == 0 {
        assert(pattern.take(0) =~= seen2.subrange(seen2.len() as int, seen2.len() as int));
    }
}

/// A streaming matcher for one literal byte pattern.
#[derive(Debug, Clone)]
struct SingleMatcher {
    pattern: Vec<u8>,
    state: usize,
}

impl SingleMatcher {
    spec fn wf(&self) -> bool {
        &&& self.state <= self.pattern.len()
        &&& (self.pattern.len() > 0 ==> self.state < self.pattern.len())
        &&& (self.pattern.len() == 0 ==> self.state == 0)
    }

    /// Creates a matcher for the bytes of `pattern`, with no progress yet.
    fn new(pattern: &str) -> (m: SingleMatcher)
        ensures
            m.pattern@ == pattern.spec_bytes(),
            m.state == 0,
            m.wf(),
    {
        SingleMatcher { pattern: slice_to_vec(pattern.as_bytes()), state: 0 }
    }

    /// Feeds one byte; returns whether it completed the pattern.
    fn feed_byte(&mut self, byte: u8) -> (hit: bool)
        requires
            old(self).wf(),
        ensures
            final(self).wf(),
            final(self).pattern == old(self).pattern,
            (final(self).state as nat, hit) == matcher_step(
                old(self).pattern@,
                old(self).state as nat,
                byte,
            ),
    {
        if self.pattern.len() == 0 {
            return false;
        }
        if self.pattern[self.state] == byte {
            self.state = self.state + 1;
        } else {
            self.state = 0;
            if self.pattern[self.state] == byte {
                self.state = self.state + 1;
            }
        }
        if self.state == self.pattern.len() {
            self.state = 0;
            return true;
        }
        false
    }

    /// Drops any partial progress.
    fn reset(&mut self)
        requires
            old(self).wf(),
        ensures
            final(self).wf(),
            final(self).pattern == old(self).pattern,
            final(self).state == 0,
    {
        self.state = 0;
    }
}

/// Watches PTY output for the password prompt and for ssh's host-key
/// messages, across chunk boundaries.
#[derive(Clone)]
pub struct PromptMatcher {
    password: SingleMatcher,
    host_key_unknown: SingleMatcher,
    host_key_changed: SingleMatcher,
    password_matches: usize,
    prompt_text: String,
    seen: Ghost<Seq<u8>>,
}

/// A call left the prompt being searched for as it was.
pub open spec fn keeps_prompt(before: PromptMatcher, after: PromptMatcher) -> bool {
    &&& after.prompt_text() == before.prompt_text()
    &&& after.password_pattern() == before.password_pattern()
}

/// Over any run of calls that each keep the prompt (as `feed` and
/// `reset_password` do), starting from `PromptMatcher::new(pattern)`, the
/// matcher searches for the prompt chosen at creation: `pattern`, or the
/// default `assword:` when it was empty.
pub proof fn law_prompt_kept_over_calls(pattern: Seq<char>, run: Seq<PromptMatcher>)
    requires
        run.len() > 0,
        run[0].prompt_text() == chosen_prompt(pattern),
        forall|i: int| 0 <= i < run.len() - 1 ==> keeps_prompt(#[trigger] run[i], run[i + 1]),
    ensures
        forall|i: int| 0 <= i < run.len() ==> (#[trigger] run[i]).prompt_text() == chosen_prompt(pattern),
    decreases run.len(),
{
    if run.len() > 1 {
        let front = run.drop_last();
        assert forall|i: int| 0 <= i < front.len() - 1 implies keeps_prompt(#[trigger] front[i], front[i + 1]) by {
            assert(front[i] == run[i] && front[i + 1] == run[i + 1]);
            assert(keeps_prompt(run[i], run[i + 1]));
        }
        law_prompt_kept_over_calls(pattern, front);
        assert(keeps_prompt(run[run.len() - 2], run[run.len() - 1]));
        assert forall|i: int| 0 <= i < run.len() implies (#[trigger] run[i]).prompt_text() == chosen_prompt(pattern) by {
            if i < run.len() - 1 {
                assert(run[i] == front[i]);
            } else {
                assert(front[run.len() - 2] == run[run.len() - 2]);
            }
        }
    }
}

impl PromptMatcher {
    /// The password prompt pattern in use.
    pub closed spec fn password_pattern(&self) -> Seq<u8> {
        self.password.pattern@
    }

    /// The text of the password prompt pattern in use.
    pub closed spec fn prompt_text(&self) -> Seq<char> {
        self.prompt_text@
    }

    /// The current matching progress and prompt count.
    pub closed spec fn state(&self) -> MatcherState {
        MatcherState {
            password: self.password.state as nat,
            host_key_unknown: self.host_key_unknown.state as nat,
            host_key_changed: self.host_key_changed.state as nat,
            password_matches: self.password_matches as nat,
        }
    }

    /// Every byte fed to this matcher so far.
    pub closed spec fn seen(&self) -> Seq<u8> {
        self.seen@
    }

    /// The well-formedness invariant: the patterns are the fixed ones, and
    /// each matcher's progress is justified by the bytes seen.
    pub closed spec fn wf(&self) -> bool {
        &&& self.password.wf()
        &&& self.host_key_unknown.wf()
        &&& self.host_key_changed.wf()
        &&& self.host_key_unknown.pattern@ == host_key_unknown_pattern()
        &&& self.host_key_changed.pattern@ == host_key_changed_pattern()
        &&& self.password.pattern@ == encode_utf8(self.prompt_text@)
        &&& self.prompt_text@.len() > 0
        &&& progress_justified(self.password.pattern@, self.password.state as nat, self.seen@)
        &&& progress_justified(
            host_key_unknown_pattern(),
            self.host_key_unknown.state as nat,
            self.seen@,
        )
        &&& progress_justified(
            host_key_changed_pattern(),
            self.host_key_changed.state as nat,
            self.seen@,
        )
    }

    /// Creates a matcher for `password_pattern` (the default `assword:` when
    /// it is empty) and the two fixed host-key messages, with no progress.
    pub fn new(password_pattern: &str) -> (m: PromptMatcher)
        ensures
            m.wf(),
            m.prompt_text() == chosen_prompt(password_pattern@),
            m.password_pattern() == encode_utf8(m.prompt_text()),
            m.state() == (MatcherState {
                password: 0,
                host_key_unknown: 0,
                host_key_changed: 0,
                password_matches: 0,
            }),
            m.seen() == Seq::<u8>::empty(),
    {
        let chosen: &str = if password_pattern.is_empty() {
            "assword:"
        } else {
            password_pattern
        };
        proof {
            reveal_strlit("assword:");
        }
        let m = PromptMatcher {
            password: SingleMatcher::new(chosen),
            host_key_unknown: SingleMatcher::new("The authenticity of host "),
            host_key_changed: SingleMatcher::new("WARNING: REMOTE HOST IDENTIFICATION HAS CHANGED"),
            password_matches: 0,
            prompt_text: chosen.to_owned(),
            seen: Ghost(Seq::empty()),
        };
        proof {
            assert(Seq::<u8>::empty().take(0) =~= Seq::<u8>::empty().subrange(0, 0));
        }
        m
    }

    /// Feeds a chunk of PTY output through all three matchers, byte by byte,
    /// and reports the first event (see `feed_spec`); bytes after that event
    /// are not examined. Every reported event is justified by the bytes fed
    /// so far, which end with the matching pattern.
    pub fn feed(&mut self, buffer: &[u8]) -> (ev: MatchEvent)
        requires
            old(self).wf(),
            old(self).state().password_matches < usize::MAX,
        ensures
            final(self).wf(),
            keeps_prompt(*old(self), *final(self)),
            ({
                let (m, e, n) = feed_spec(old(self).password_pattern(), old(self).state(), buffer@);
                &&& final(self).state() == m
                &&& ev == e
                &&& final(self).seen() == old(self).seen() + buffer@.take(n as int)
            }),
            ev == MatchEvent::PasswordPrompt ==> old(self).password_pattern().is_suffix_of(
                final(self).seen(),
            ),
            ev == MatchEvent::HostKeyUnknown ==> host_key_unknown_pattern().is_suffix_of(
                final(self).seen(),
            ),
            ev == MatchEvent::HostKeyChanged ==> host_key_changed_pattern().is_suffix_of(
                final(self).seen(),
            ),
    {
        let ghost pattern = self.password_pattern();
        let ghost start = self.state();
        let ghost seen0 = self.seen();
        let mut i: usize = 0;
        proof {
            assert(buffer@.skip(0) =~= buffer@);
            assert(buffer@.take(0) =~= Seq::<u8>::empty());
            assert(seen0 + Seq::<u8>::empty() =~= seen0);
        }
        while i < buffer.len()
            invariant
                i <= buffer.len(),
                self.wf(),
                self.password_pattern() == pattern,
                pattern == old(self).password_pattern(),
                start == old(self).state(),
                seen0 == old(self).seen(),
                self.prompt_text() == old(self).prompt_text(),
                self.state().password_matches == start.password_matches,
                start.password_matches < usize::MAX,
                self.seen() == seen0 + buffer@.take(i as int),
                ({
                    let (m, e, n) = feed_spec(pattern, self.state(), buffer@.skip(i as int));
                    feed_spec(pattern, start, buffer@) == (m, e, (n + i) as nat)
                }),
            decreases buffer.len() - i,
        {
            let byte = buffer[i];
            let ghost before = self.state();
            let ghost seen_before = self.seen();
            proof {
                lemma_step_justified(pattern, before.password, seen_before, byte);
                lemma_step_justified(host_key_unknown_pattern(), before.host_key_unknown, seen_before, byte);
                lemma_step_justified(host_key_changed_pattern(), before.host_key_changed, seen_before, byte);
                assert(buffer@.skip(i as int).drop_first() =~= buffer@.skip(i + 1));
                assert(buffer@.take(i + 1) =~= buffer@.take(i as int).push(byte));
            }
            let password_match = self.password.feed_byte(byte);
            let unknown_match = self.host_key_unknown.feed_byte(byte);
            let changed_match = self.host_key_changed.feed_byte(byte);
            self.seen = Ghost(seen_before.push(byte));
            if changed_match {
                return MatchEvent::HostKeyChanged;
            }
            if unknown_match {
                return MatchEvent::HostKeyUnknown;
            }
            if password_match {
                self.password_matches = self.password_matches + 1;
                return MatchEvent::PasswordPrompt;
            }
            i = i + 1;
        }
        proof {
            assert(buffer@.skip(i as int) =~= Seq::<u8>::empty());
            assert(buffer@.take(i as int) =~= buffer@);
        }
        MatchEvent::NoMatch
    }

    /// The password prompt text being searched for.
    pub fn prompt(&self) -> (p: &str)
        ensures
            p@ == self.prompt_text(),
    {
        self.prompt_text.as_str()
    }

    /// How many password prompts have been detected.
    pub fn password_match_count(&self) -> (n: usize)
        ensures
            n == self.state().password_matches,
    {
        self.password_matches
    }

    /// Drops any partial password-prompt progress (after the password was
    /// sent); the host-key matchers and the prompt count are untouched.
    pub fn reset_password(&mut self)
        requires
            old(self).wf(),
        ensures
            final(self).wf(),
            keeps_prompt(*old(self), *final(self)),
            final(self).seen() == old(self).seen(),
            final(self).state() == (MatcherState { password: 0, ..old(self).state() }),
    {
        self.password.reset();
        proof {
            let seen = self.seen@;
            assert(Seq::<u8>::empty() =~= seen.subrange(seen.len() as int, seen.len() as int));
            assert(self.password.pattern@.take(0) =~= Seq::<u8>::empty());
        }
    }
}

} // verus!

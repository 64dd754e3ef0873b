use sshpass_rs::matcher::{MatchEvent, PromptMatcher};

#[test]
fn test_password_prompt_match() {
    let mut matcher = PromptMatcher::new("assword:");

    assert_eq!(matcher.feed(b"Enter password:"), MatchEvent::PasswordPrompt);
}

#[test]
fn test_split_buffer() {
    let mut matcher = PromptMatcher::new("assword:");

    assert_eq!(matcher.feed(b"Pass"), MatchEvent::NoMatch);
    assert_eq!(matcher.feed(b"word:"), MatchEvent::PasswordPrompt);
}

#[test]
fn test_no_match() {
    let mut matcher = PromptMatcher::new("assword:");

    assert_eq!(matcher.feed(b"username:"), MatchEvent::NoMatch);
}

#[test]
fn test_partial_match_pending() {
    let mut matcher = PromptMatcher::new("assword:");

    assert_eq!(matcher.feed(b"passw"), MatchEvent::NoMatch);
}

#[test]
fn test_double_match() {
    let mut matcher = PromptMatcher::new("assword:");

    assert_eq!(matcher.feed(b"Enter password:"), MatchEvent::PasswordPrompt);
    matcher.reset_password();
    assert_eq!(matcher.feed(b"Enter password:"), MatchEvent::PasswordPrompt);
    assert_eq!(matcher.password_match_count(), 2);
}

#[test]
fn test_reset_password() {
    let mut matcher = PromptMatcher::new("assword:");

    assert_eq!(matcher.feed(b"Enter password:"), MatchEvent::PasswordPrompt);
    matcher.reset_password();
    assert_eq!(matcher.feed(b"Enter password:"), MatchEvent::PasswordPrompt);
}

#[test]
fn matcher_test_host_key_unknown() {
    let mut matcher = PromptMatcher::new("assword:");

    assert_eq!(
        matcher.feed(b"The authenticity of host 'example.com' can't be established."),
        MatchEvent::HostKeyUnknown,
    );
}

#[test]
fn matcher_test_host_key_changed() {
    let mut matcher = PromptMatcher::new("assword:");

    assert_eq!(
        matcher.feed(b"WARNING: REMOTE HOST IDENTIFICATION HAS CHANGED"),
        MatchEvent::HostKeyChanged,
    );
}

#[test]
fn test_custom_pattern() {
    let mut matcher = PromptMatcher::new("secret:");

    assert_eq!(matcher.feed(b"Enter secret:"), MatchEvent::PasswordPrompt);
}

#[test]
fn test_empty_buffer() {
    let mut matcher = PromptMatcher::new("assword:");

    assert_eq!(matcher.feed(&[]), MatchEvent::NoMatch);
}

#[test]
fn test_single_byte_at_a_time() {
    let mut matcher = PromptMatcher::new("assword:");
    let mut event = MatchEvent::NoMatch;

    for byte in b"Password:" {
        event = matcher.feed(&[*byte]);
    }

    assert_eq!(event, MatchEvent::PasswordPrompt);
}

#[test]
fn test_simultaneous_patterns() {
    let mut matcher = PromptMatcher::new("assword:");

    assert_eq!(matcher.feed(b"The authenticity of h"), MatchEvent::NoMatch);
    assert_eq!(matcher.feed(b"ost 'example.com'"), MatchEvent::HostKeyUnknown);
    assert_eq!(matcher.feed(b"Password:"), MatchEvent::PasswordPrompt);
    matcher.reset_password();
    assert_eq!(
        matcher.feed(b"WARNING: REMOTE HOST IDENTIFICATION HAS CHANGED"),
        MatchEvent::HostKeyChanged,
    );
}

#[test]
fn empty_pattern_falls_back_to_default_prompt() {
    let mut matcher = PromptMatcher::new("");

    assert_eq!(matcher.prompt(), "assword:");
    assert_eq!(matcher.feed(b"root@host's password:"), MatchEvent::PasswordPrompt);
}

#[test]
fn prompt_split_over_two_chunks_counts_once() {
    let mut matcher = PromptMatcher::new("assword:");

    assert_eq!(matcher.feed(b"Enter pass"), MatchEvent::NoMatch);
    assert_eq!(matcher.password_match_count(), 0);
    assert_eq!(matcher.feed(b"word: "), MatchEvent::PasswordPrompt);
    assert_eq!(matcher.password_match_count(), 1);
}

#[test]
fn restart_after_mismatch_finds_pattern() {
    let mut matcher = PromptMatcher::new("aab");

    assert_eq!(matcher.feed(b"aaab"), MatchEvent::NoMatch);
    assert_eq!(matcher.feed(b"aab"), MatchEvent::PasswordPrompt);
}

#[test]
fn first_completed_pattern_is_reported() {
    let mut matcher = PromptMatcher::new("");
    let output = b"The authenticity of host 'h' can't be established.\nuser@h's password:";
    assert_eq!(matcher.feed(output), MatchEvent::HostKeyUnknown);
    assert_eq!(matcher.feed(b" rest"), MatchEvent::NoMatch);

    let mut matcher = PromptMatcher::new("");
    assert_eq!(matcher.feed(b"aassword: then The authenticity of host "), MatchEvent::PasswordPrompt);
    assert_eq!(matcher.password_match_count(), 1);

    let mut matcher = PromptMatcher::new("");
    assert_eq!(matcher.feed(b"no prompt in this output"), MatchEvent::NoMatch);
    assert_eq!(matcher.password_match_count(), 0);
}

#[test]
fn chunked_output_reports_as_whole() {
    let whole: &[u8] = b"banner\nThe authenticity of host 'h' can't be established.\npassword:";
    let mut one = PromptMatcher::new("");
    let expected = one.feed(whole);
    for cut in 0..whole.len() {
        let mut m = PromptMatcher::new("");
        let first = m.feed(&whole[..cut]);
        let got = if first != MatchEvent::NoMatch { first } else { m.feed(&whole[cut..]) };
        assert_eq!(got, expected, "cut at {}", cut);
    }
    assert_eq!(expected, MatchEvent::HostKeyUnknown);
}

use sshpass_rs::error::{SshpassError, SshpassExitCode};
use sshpass_rs::matcher::PromptMatcher;
use sshpass_rs::session::child_pid_for_signals;
use sshpass_rs::session::{
    exit_code_from_status, finalize_child_exit, flush_step, is_legacy_stdio_child,
    matcher_pattern_description, normalize_command, pty_size, read_step, spawn_target, write_step,
    AfterSend, ChildExit, FlushStep, IoOutcome, OutputAction, ReadStep, SessionState,
    TerminalSize, WriteStep,
};

fn strings(items: &[&str]) -> Vec<String> {
    items.iter().map(|s| s.to_string()).collect()
}

fn exited(code: i32) -> ChildExit {
    ChildExit { code: Some(code), signal: None }
}

#[test]
fn first_prompt_gets_password_second_fails() {
    let mut s = SessionState::new(PromptMatcher::new("assword:"), false);

    assert_eq!(s.on_output(b"Welcome\r\n"), OutputAction::Ignore);
    assert_eq!(s.on_output(b"user@host's password: "), OutputAction::SendPassword);
    assert_eq!(s.after_password_sent(true), AfterSend::Continue);
    assert_eq!(
        s.on_output(b"Permission denied, please try again.\r\npassword:"),
        OutputAction::Terminate(SshpassExitCode::IncorrectPassword)
    );
    assert_eq!(s.prompt_count(), 2);
}

#[test]
fn host_key_prompts_terminate() {
    let mut s = SessionState::new(PromptMatcher::new(""), false);
    assert_eq!(
        s.on_output(b"The authenticity of host 'x' can't be established."),
        OutputAction::Terminate(SshpassExitCode::HostKeyUnknown)
    );
    let mut s = SessionState::new(PromptMatcher::new(""), false);
    assert_eq!(
        s.on_output(b"@@@ WARNING: REMOTE HOST IDENTIFICATION HAS CHANGED! @@@"),
        OutputAction::Terminate(SshpassExitCode::HostKeyChanged)
    );
}

#[test]
fn closed_pty_finishes() {
    let mut s = SessionState::new(PromptMatcher::new("assword:"), true);
    assert_eq!(s.on_output(&[]), OutputAction::Finish);
}

#[test]
fn legacy_child_output_is_forwarded_and_slave_released() {
    let mut s = SessionState::new(PromptMatcher::new("assword:"), true);
    assert!(s.polls_stdin());
    assert_eq!(s.on_output(b"banner\n"), OutputAction::Forward);
    assert_eq!(s.on_output(b"Password:"), OutputAction::SendPassword);
    assert_eq!(s.after_password_sent(true), AfterSend::ReleaseSlave);
    s.on_stdin(0, true);
    assert!(!s.polls_stdin());
}

#[test]
fn refused_password_write_finishes() {
    let mut s = SessionState::new(PromptMatcher::new("assword:"), false);
    assert_eq!(s.on_output(b"password:"), OutputAction::SendPassword);
    assert_eq!(s.after_password_sent(false), AfterSend::Finish);
}

#[test]
fn stdin_forwarding_stops_when_refused() {
    let mut s = SessionState::new(PromptMatcher::new("assword:"), true);
    s.on_stdin(3, true);
    assert!(s.polls_stdin());
    s.on_stdin(3, false);
    assert!(!s.polls_stdin());
}

#[test]
fn exit_after_prompt_passes_code_through() {
    let mut s = SessionState::new(PromptMatcher::new("assword:"), false);
    assert_eq!(s.on_child_exit(exited(1)), 4);
    assert_eq!(s.on_child_exit(exited(0)), 0);
    s.on_output(b"password:");
    assert_eq!(s.on_child_exit(exited(42)), 42);
}

#[test]
fn exit_codes_from_status() {
    assert_eq!(exit_code_from_status(exited(3)), 3);
    assert_eq!(exit_code_from_status(ChildExit { code: None, signal: Some(9) }), 137);
    assert_eq!(exit_code_from_status(ChildExit { code: None, signal: None }), 1);
    assert_eq!(finalize_child_exit(exited(255), false), 4);
    assert_eq!(finalize_child_exit(exited(255), true), 255);
    assert_eq!(finalize_child_exit(ChildExit { code: None, signal: Some(15) }, true), 143);
}

#[test]
fn pattern_description_is_prompt_text() {
    assert_eq!(matcher_pattern_description(&PromptMatcher::new("")), "assword:");
    assert_eq!(matcher_pattern_description(&PromptMatcher::new("secret:")), "secret:");
    let s = SessionState::new(PromptMatcher::new("Passphrase"), false);
    assert_eq!(s.pattern_description(), "Passphrase");
}

#[test]
fn legacy_child_detection() {
    assert!(is_legacy_stdio_child("target/debug/fake_ssh"));
    assert!(is_legacy_stdio_child("fake_ssh"));
    assert!(!is_legacy_stdio_child("/usr/bin/ssh"));
    assert!(!is_legacy_stdio_child("fake_ssh2"));
}

#[test]
fn spawn_targets() {
    match spawn_target(&[]) {
        Err(SshpassError::ChildSpawn(m)) => assert_eq!(m, "command cannot be empty"),
        _ => panic!("expected a spawn error"),
    }
    let t = spawn_target(&strings(&["target/debug/fake_ssh", "--mode", "success"])).unwrap();
    assert_eq!(t.program, "target/debug/fake_ssh");
    assert_eq!(t.args, strings(&["--mode", "success"]));
    assert!(t.legacy_stdio);
}

#[test]
fn pty_sizes() {
    assert_eq!(
        pty_size(None),
        TerminalSize { rows: 24, cols: 80, pixel_width: 0, pixel_height: 0 }
    );
    assert_eq!(
        pty_size(Some((0, 0, 5, 6))),
        TerminalSize { rows: 1, cols: 1, pixel_width: 5, pixel_height: 6 }
    );
    assert_eq!(
        pty_size(Some((50, 132, 0, 0))),
        TerminalSize { rows: 50, cols: 132, pixel_width: 0, pixel_height: 0 }
    );
}

#[test]
fn relative_program_paths_are_made_absolute() {
    let cmd = strings(&["target/debug/fake_ssh", "--mode", "success"]);
    let r = normalize_command(&cmd, Ok("/work".to_string())).unwrap();
    assert_eq!(r, strings(&["/work/target/debug/fake_ssh", "--mode", "success"]));

    let plain = strings(&["ssh", "host"]);
    let failing_cwd = Err(SshpassError::Io(std::io::Error::new(std::io::ErrorKind::Other, "x")));
    assert_eq!(normalize_command(&plain, failing_cwd).unwrap(), plain);

    let absolute = strings(&["/usr/bin/ssh", "host"]);
    assert_eq!(normalize_command(&absolute, Ok("/work".to_string())).unwrap(), absolute);

    assert!(normalize_command(&[], Ok("/work".to_string())).unwrap().is_empty());

    let failing_cwd = Err(SshpassError::Io(std::io::Error::new(std::io::ErrorKind::Other, "x")));
    assert!(matches!(normalize_command(&cmd, failing_cwd), Err(SshpassError::Io(_))));
}

#[test]
fn io_retry_steps() {
    assert_eq!(read_step(IoOutcome::Done(7)), ReadStep::Data(7));
    assert_eq!(read_step(IoOutcome::Interrupted), ReadStep::Retry);
    assert_eq!(read_step(IoOutcome::BrokenPipe), ReadStep::Fail);

    assert_eq!(write_step(2, 10, IoOutcome::Done(3), true), WriteStep::Advance(5));
    assert_eq!(write_step(2, 10, IoOutcome::Done(0), true), WriteStep::WroteZero);
    assert_eq!(write_step(0, 1, IoOutcome::Interrupted, true), WriteStep::Retry);
    assert_eq!(write_step(0, 1, IoOutcome::BrokenPipe, true), WriteStep::Closed);
    assert_eq!(write_step(0, 1, IoOutcome::BrokenPipe, false), WriteStep::Fail);
    assert_eq!(write_step(0, 1, IoOutcome::Failed, true), WriteStep::Fail);

    assert_eq!(flush_step(IoOutcome::Done(0)), FlushStep::Flushed);
    assert_eq!(flush_step(IoOutcome::Interrupted), FlushStep::Retry);
    assert_eq!(flush_step(IoOutcome::BrokenPipe), FlushStep::Closed);
    assert_eq!(flush_step(IoOutcome::Failed), FlushStep::Fail);
}

#[test]
fn child_pids_for_signals() {
    assert_eq!(child_pid_for_signals(Some(1234)).unwrap(), 1234);
    match child_pid_for_signals(None) {
        Err(SshpassError::ChildSpawn(m)) => assert_eq!(m, "PTY child pid is unavailable"),
        _ => panic!("expected a spawn error"),
    }
    match child_pid_for_signals(Some(3_000_000_000)) {
        Err(SshpassError::ChildSpawn(m)) => assert_eq!(m, "PTY child pid exceeds i32 range"),
        _ => panic!("expected a spawn error"),
    }
}

#[test]
fn description_survives_feeding_and_resets() {
    let mut m = PromptMatcher::new("");
    m.feed(b"Pass");
    m.reset_password();
    m.feed(b"word:");
    assert_eq!(matcher_pattern_description(&m), "assword:");
    let mut m = PromptMatcher::new("Token:");
    m.feed(b"Token:");
    m.reset_password();
    assert_eq!(matcher_pattern_description(&m), "Token:");
}

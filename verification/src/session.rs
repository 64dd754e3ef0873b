use vstd::prelude::*;

use crate::error::{SshpassError, SshpassExitCode, exit_code_value};
use crate::matcher::{MatchEvent, MatcherState, PromptMatcher, feed_spec, keeps_prompt};
use crate::text::{
    component_count, file_name_of, is_relative_path, join_path, path_component_count,
    path_file_name, path_is_relative, path_joined, seq_views, str_eq,
};

verus! {

/// How a child process ended: with an exit code, or killed by a signal.
#[derive(Debug, Clone, Copy, PartialEq, Eq, Structural)]
pub struct ChildExit {
    pub code: Option<i32>,
    pub signal: Option<i32>,
}

/// The exit code reported for a child: its own code, else 128 plus the
/// signal that killed it, else 1.
pub open spec fn status_exit_code(status: ChildExit) -> int {
    match status.code {
        Some(c) => c as int,
        None => match status.signal {
            Some(s) => 128 + s,
            None => 1,
        },
    }
}

/// The exit status has a code, or its signal number leaves room for 128
/// to be added to it.
pub open spec fn reportable(status: ChildExit) -> bool {
    status.code is None ==> (status.signal matches Some(s) ==> s <= i32::MAX - 128)
}

/// The exit code reported for a child.
pub fn exit_code_from_status(status: ChildExit) -> (c: i32)
    requires
        reportable(status),
    ensures
        c == status_exit_code(status),
{
    match status.code {
        Some(c) => c,
        None => match status.signal {
            Some(s) => 128 + s,
            None => 1,
        },
    }
}

/// The exit code of the whole run once the child has ended: a failing
/// child that never showed a password prompt is reported as a parse error
/// (the prompt was never found); otherwise the child's own code.
pub open spec fn final_exit_code(status: ChildExit, saw_match: bool) -> int {
    let code = status_exit_code(status);
    if code != 0 && !saw_match {
        exit_code_value(SshpassExitCode::ParseError) as int
    } else {
        code
    }
}

/// The exit code of the whole run once the child has ended.
pub fn finalize_child_exit(status: ChildExit, saw_match: bool) -> (c: i32)
    requires
        reportable(status),
    ensures
        c == final_exit_code(status, saw_match),
{
    let exit_code = exit_code_from_status(status);
    if exit_code != 0 && !saw_match {
        SshpassExitCode::ParseError.value()
    } else {
        exit_code
    }
}

/// What to do with a chunk of output read from the PTY.
#[derive(Debug, Clone, Copy, PartialEq, Eq, Structural)]
pub enum OutputAction {
    /// The PTY is closed: wait for the child and report its exit.
    Finish,
    /// A password prompt: send the password.
    SendPassword,
    /// Stop the child and exit with this code.
    Terminate(SshpassExitCode),
    /// Copy the output to standard output.
    Forward,
    /// Nothing to do.
    Ignore,
}

/// The action for a chunk in which the matcher reported `event`, with
/// `prompts` password prompts seen so far (this one included).
pub open spec fn action_for(event: MatchEvent, prompts: nat, legacy_stdio: bool) -> OutputAction {
    match event {
        MatchEvent::PasswordPrompt => if prompts >= 2 {
            OutputAction::Terminate(SshpassExitCode::IncorrectPassword)
        } else {
            OutputAction::SendPassword
        },
        MatchEvent::HostKeyUnknown => OutputAction::Terminate(SshpassExitCode::HostKeyUnknown),
        MatchEvent::HostKeyChanged => OutputAction::Terminate(SshpassExitCode::HostKeyChanged),
        MatchEvent::NoMatch => if legacy_stdio {
            OutputAction::Forward
        } else {
            OutputAction::Ignore
        },
    }
}

/// What follows an attempt to send the password.
#[derive(Debug, Clone, Copy, PartialEq, Eq, Structural)]
pub enum AfterSend {
    /// The PTY no longer takes input: wait for the child and report its exit.
    Finish,
    /// Put the PTY's child side in raw mode and release it, then go on.
    ReleaseSlave,
    /// Go on.
    Continue,
}

/// The decisions of the password handshake on a PTY: which prompts were
/// seen, and whether keyboard input is still forwarded.
pub struct SessionState {
    matcher: PromptMatcher,
    legacy_stdio: bool,
    saw_match: bool,
    forward_stdin: bool,
}

impl SessionState {
    /// The matcher's consistency.
    pub closed spec fn wf(&self) -> bool {
        self.matcher.wf()
    }

    /// The prompt matcher.
    pub closed spec fn matcher(&self) -> PromptMatcher {
        self.matcher
    }

    /// Whether the child runs with the PTY as its standard streams, its
    /// output copied to ours.
    pub closed spec fn legacy_stdio(&self) -> bool {
        self.legacy_stdio
    }

    /// Whether a password prompt has been seen.
    pub closed spec fn saw_match(&self) -> bool {
        self.saw_match
    }

    /// Whether keyboard input is still forwarded to the child.
    pub closed spec fn forward_stdin(&self) -> bool {
        self.forward_stdin
    }

    /// A session that has seen nothing yet; keyboard input is forwarded
    /// only to a child that uses the PTY as its standard streams.
    pub fn new(matcher: PromptMatcher, legacy_stdio: bool) -> (s: SessionState)
        requires
            matcher.wf(),
        ensures
            s.wf(),
            s.matcher() == matcher,
            s.legacy_stdio() == legacy_stdio,
            !s.saw_match(),
            s.forward_stdin() == legacy_stdio,
    {
        SessionState { matcher, legacy_stdio, saw_match: false, forward_stdin: legacy_stdio }
    }

    /// The prompt text being searched for.
    pub fn pattern_description(&self) -> (d: String)
        ensures
            d@ == self.matcher().prompt_text(),
    {
        matcher_pattern_description(&self.matcher)
    }

    /// Whether to wait for keyboard input as well as for PTY output.
    pub fn polls_stdin(&self) -> (b: bool)
        ensures
            b == (self.legacy_stdio() && self.forward_stdin()),
    {
        self.legacy_stdio && self.forward_stdin
    }

    /// How many password prompts have been seen.
    pub fn prompt_count(&self) -> (n: usize)
        ensures
            n == self.matcher().state().password_matches,
    {
        self.matcher.password_match_count()
    }

    /// Decides what to do with a chunk read from the PTY: an empty chunk
    /// means the PTY closed; otherwise the chunk goes through the matcher.
    pub fn on_output(&mut self, output: &[u8]) -> (a: OutputAction)
        requires
            old(self).wf(),
            old(self).matcher().state().password_matches < usize::MAX,
        ensures
            final(self).wf(),
            final(self).legacy_stdio() == old(self).legacy_stdio(),
            final(self).forward_stdin() == old(self).forward_stdin(),
            keeps_prompt(old(self).matcher(), final(self).matcher()),
            output@.len() == 0 ==> a == OutputAction::Finish && *final(self) == *old(self),
            output@.len() > 0 ==> ({
                let (m, e, n) = feed_spec(
                    old(self).matcher().password_pattern(),
                    old(self).matcher().state(),
                    output@,
                );
                &&& final(self).matcher().state() == m
                &&& final(self).saw_match() == (old(self).saw_match() || e
                    == MatchEvent::PasswordPrompt)
                &&& a == action_for(e, m.password_matches, old(self).legacy_stdio())
            }),
    {
        if output.len() == 0 {
            return OutputAction::Finish;
        }
        match self.matcher.feed(output) {
            MatchEvent::PasswordPrompt => {
                self.saw_match = true;
                if self.matcher.password_match_count() >= 2 {
                    OutputAction::Terminate(SshpassExitCode::IncorrectPassword)
                } else {
                    OutputAction::SendPassword
                }
            },
            MatchEvent::HostKeyUnknown => OutputAction::Terminate(SshpassExitCode::HostKeyUnknown),
            MatchEvent::HostKeyChanged => OutputAction::Terminate(SshpassExitCode::HostKeyChanged),
            MatchEvent::NoMatch => {
                if self.legacy_stdio {
                    OutputAction::Forward
                } else {
                    OutputAction::Ignore
                }
            },
        }
    }

    /// After the password was written: when the PTY refused it, the session
    /// ends; otherwise the partial prompt progress is dropped, and a child
    /// on the PTY's standard streams gets its side released.
    pub fn after_password_sent(&mut self, delivered: bool) -> (a: AfterSend)
        requires
            old(self).wf(),
        ensures
            final(self).wf(),
            final(self).legacy_stdio() == old(self).legacy_stdio(),
            final(self).saw_match() == old(self).saw_match(),
            final(self).forward_stdin() == old(self).forward_stdin(),
            keeps_prompt(old(self).matcher(), final(self).matcher()),
            !delivered ==> a == AfterSend::Finish && *final(self) == *old(self),
            delivered ==> final(self).matcher().state() == (MatcherState {
                password: 0,
                ..old(self).matcher().state()
            }),
            delivered && old(self).legacy_stdio() ==> a == AfterSend::ReleaseSlave,
            delivered && !old(self).legacy_stdio() ==> a == AfterSend::Continue,
    {
        if !delivered {
            return AfterSend::Finish;
        }
        self.matcher.reset_password();
        if self.legacy_stdio {
            AfterSend::ReleaseSlave
        } else {
            AfterSend::Continue
        }
    }

    /// After keyboard input was read (`count` bytes) and, when there was
    /// some, written to the PTY: forwarding stops at the end of input or
    /// once the PTY refuses it.
    pub fn on_stdin(&mut self, count: usize, delivered: bool)
        ensures
            final(self).matcher() == old(self).matcher(),
            final(self).legacy_stdio() == old(self).legacy_stdio(),
            final(self).saw_match() == old(self).saw_match(),
            final(self).forward_stdin() == (old(self).forward_stdin() && count != 0 && delivered),
    {
        if count == 0 || !delivered {
            self.forward_stdin = false;
        }
    }

    /// The exit code of the run once the child has ended.
    pub fn on_child_exit(&self, status: ChildExit) -> (c: i32)
        requires
            reportable(status),
        ensures
            c == final_exit_code(status, self.saw_match()),
    {
        finalize_child_exit(status, self.saw_match)
    }
}

/// The first password prompt is answered with the password; any later one
/// means the password was refused and ends the run with exit code 5; a
/// host-key question or warning ends it with 6 or 7.
pub proof fn law_prompt_answers(pattern: Seq<u8>, m: MatcherState, output: Seq<u8>, legacy: bool)
    ensures
        ({
            let (m2, e, n) = feed_spec(pattern, m, output);
            &&& (e == MatchEvent::PasswordPrompt && m.password_matches == 0) ==> action_for(
                e,
                m2.password_matches,
                legacy,
            ) == OutputAction::SendPassword
            &&& (e == MatchEvent::PasswordPrompt && m.password_matches >= 1) ==> action_for(
                e,
                m2.password_matches,
                legacy,
            ) == OutputAction::Terminate(SshpassExitCode::IncorrectPassword)
            &&& e == MatchEvent::HostKeyUnknown ==> action_for(e, m2.password_matches, legacy)
                == OutputAction::Terminate(SshpassExitCode::HostKeyUnknown)
            &&& e == MatchEvent::HostKeyChanged ==> action_for(e, m2.password_matches, legacy)
                == OutputAction::Terminate(SshpassExitCode::HostKeyChanged)
        }),
{
    crate::matcher::law_feed_consumption_and_count(pattern, m, output);
}

/// A child's exit code is passed through, except that a failing child that
/// never showed a password prompt is reported as a parse error (4).
pub proof fn law_exit_passthrough(status: ChildExit, saw_match: bool)
    ensures
        (saw_match || status_exit_code(status) == 0) ==> final_exit_code(status, saw_match)
            == status_exit_code(status),
        (!saw_match && status_exit_code(status) != 0) ==> final_exit_code(status, saw_match)
            == 4,
{
}

/// The prompt text a matcher searches for.
pub fn matcher_pattern_description(matcher: &PromptMatcher) -> (d: String)
    ensures
        d@ == matcher.prompt_text(),
{
    matcher.prompt().to_owned()
}

/// Whether the program is the test double that talks over its standard
/// streams (its file name is `fake_ssh`).
pub fn is_legacy_stdio_child(program: &str) -> (b: bool)
    ensures
        b == (path_file_name(program@) == Some("fake_ssh"@)),
{
    match file_name_of(program) {
        Some(name) => str_eq(name.as_str(), "fake_ssh"),
        None => false,
    }
}

/// The program to run, its arguments, and whether it talks over the PTY
/// as its standard streams.
pub struct SpawnTarget {
    pub program: String,
    pub args: Vec<String>,
    pub legacy_stdio: bool,
}

/// What to spawn for a command line; an empty command is refused.
pub fn spawn_target(command: &[String]) -> (r: Result<SpawnTarget, SshpassError>)
    ensures
        command@.len() == 0 ==> (r matches Err(SshpassError::ChildSpawn(m)) && m@
            == "command cannot be empty"@),
        command@.len() > 0 ==> (r matches Ok(t) && t.program@ == command@[0]@ && t.args@
            == command@.skip(1) && t.legacy_stdio == (path_file_name(command@[0]@) == Some(
            "fake_ssh"@,
        ))),
{
    if command.len() == 0 {
        return Err(SshpassError::ChildSpawn("command cannot be empty".to_owned()));
    }
    let program = command[0].clone();
    let mut args: Vec<String> = Vec::new();
    let mut i: usize = 1;
    while i < command.len()
        invariant
            1 <= i <= command@.len(),
            args@ == command@.subrange(1, i as int),
        decreases command@.len() - i,
    {
        let a = command[i].clone();
        args.push(a);
        proof {
            assert(args@ =~= command@.subrange(1, i + 1));
        }
        i = i + 1;
    }
    let legacy_stdio = is_legacy_stdio_child(program.as_str());
    Ok(SpawnTarget { program, args, legacy_stdio })
}

/// The size given to a new PTY.
#[derive(Debug, Clone, Copy, PartialEq, Eq, Structural)]
pub struct TerminalSize {
    pub rows: u16,
    pub cols: u16,
    pub pixel_width: u16,
    pub pixel_height: u16,
}

/// The PTY size for the terminal's size (rows, columns, pixel width and
/// height), when it is known: at least one row and one column; 24 by 80
/// when it is not known.
pub fn pty_size(winsize: Option<(u16, u16, u16, u16)>) -> (s: TerminalSize)
    ensures
        match winsize {
            Some(w) => s == (TerminalSize {
                rows: if w.0 >= 1 { w.0 } else { 1 },
                cols: if w.1 >= 1 { w.1 } else { 1 },
                pixel_width: w.2,
                pixel_height: w.3,
            }),
            None => s == (TerminalSize { rows: 24, cols: 80, pixel_width: 0, pixel_height: 0 }),
        },
{
    match winsize {
        Some((rows, cols, pixel_width, pixel_height)) => TerminalSize {
            rows: if rows >= 1 { rows } else { 1 },
            cols: if cols >= 1 { cols } else { 1 },
            pixel_width,
            pixel_height,
        },
        None => TerminalSize { rows: 24, cols: 80, pixel_width: 0, pixel_height: 0 },
    }
}

/// What a read, write or flush call returned.
#[derive(Debug, Clone, Copy, PartialEq, Eq, Structural)]
pub enum IoOutcome {
    /// It succeeded, moving this many bytes (0 for a flush).
    Done(usize),
    /// It was interrupted by a signal.
    Interrupted,
    /// The other end is closed.
    BrokenPipe,
    /// Another error.
    Failed,
}

/// The next step of a read that is retried when interrupted.
#[derive(Debug, Clone, Copy, PartialEq, Eq, Structural)]
pub enum ReadStep {
    Data(usize),
    Retry,
    Fail,
}

/// The next step of a read loop.
pub fn read_step(outcome: IoOutcome) -> (r: ReadStep)
    ensures
        r == match outcome {
            IoOutcome::Done(n) => ReadStep::Data(n),
            IoOutcome::Interrupted => ReadStep::Retry,
            _ => ReadStep::Fail,
        },
{
    match outcome {
        IoOutcome::Done(n) => ReadStep::Data(n),
        IoOutcome::Interrupted => ReadStep::Retry,
        _ => ReadStep::Fail,
    }
}

/// The next step of a loop that writes a whole buffer.
#[derive(Debug, Clone, Copy, PartialEq, Eq, Structural)]
pub enum WriteStep {
    /// This many bytes of the buffer are now written.
    Advance(usize),
    Retry,
    /// The other end is closed: stop, reporting that nothing more goes through.
    Closed,
    /// The write accepted no bytes: an error.
    WroteZero,
    Fail,
}

/// The next step of writing a buffer of `len` bytes of which `written` are
/// already written; a closed pipe ends the loop quietly when `pipe_closes`,
/// and is an error otherwise.
pub fn write_step(written: usize, len: usize, outcome: IoOutcome, pipe_closes: bool) -> (r:
    WriteStep)
    requires
        written < len,
        outcome matches IoOutcome::Done(n) ==> n <= len - written,
    ensures
        r == match outcome {
            IoOutcome::Done(n) => if n == 0 {
                WriteStep::WroteZero
            } else {
                WriteStep::Advance((written + n) as usize)
            },
            IoOutcome::Interrupted => WriteStep::Retry,
            IoOutcome::BrokenPipe => if pipe_closes {
                WriteStep::Closed
            } else {
                WriteStep::Fail
            },
            IoOutcome::Failed => WriteStep::Fail,
        },
{
    match outcome {
        IoOutcome::Done(n) => if n == 0 {
            WriteStep::WroteZero
        } else {
            WriteStep::Advance(written + n)
        },
        IoOutcome::Interrupted => WriteStep::Retry,
        IoOutcome::BrokenPipe => if pipe_closes {
            WriteStep::Closed
        } else {
            WriteStep::Fail
        },
        IoOutcome::Failed => WriteStep::Fail,
    }
}

/// The next step of a flush that is retried when interrupted.
#[derive(Debug, Clone, Copy, PartialEq, Eq, Structural)]
pub enum FlushStep {
    Flushed,
    Retry,
    Closed,
    Fail,
}

/// The next step of a flush loop.
pub fn flush_step(outcome: IoOutcome) -> (r: FlushStep)
    ensures
        r == match outcome {
            IoOutcome::Done(_) => FlushStep::Flushed,
            IoOutcome::Interrupted => FlushStep::Retry,
            IoOutcome::BrokenPipe => FlushStep::Closed,
            IoOutcome::Failed => FlushStep::Fail,
        },
{
    match outcome {
        IoOutcome::Done(_) => FlushStep::Flushed,
        IoOutcome::Interrupted => FlushStep::Retry,
        IoOutcome::BrokenPipe => FlushStep::Closed,
        IoOutcome::Failed => FlushStep::Fail,
    }
}

/// The command to spawn: a relative program path with more than one
/// component (such as `./bin/ssh`) is made absolute against the working
/// directory `cwd`, which is needed (and its failure reported) only then.
pub open spec fn normalized_command(command: Seq<Seq<char>>, cwd: Result<Seq<char>, SshpassError>) -> Result<Seq<Seq<char>>, SshpassError> {
    if command.len() == 0 {
        Ok(command)
    } else if path_component_count(command[0]) > 1 && path_is_relative(command[0]) {
        match cwd {
            Ok(d) => Ok(command.update(0, path_joined(d, command[0]))),
            Err(e) => Err(e),
        }
    } else {
        Ok(command)
    }
}

/// The view of a working-directory result.
pub open spec fn cwd_view(cwd: Result<String, SshpassError>) -> Result<Seq<char>, SshpassError> {
    match cwd {
        Ok(d) => Ok(d@),
        Err(e) => Err(e),
    }
}

/// The command to spawn, with a relative multi-component program path made
/// absolute.
pub fn normalize_command(command: &[String], cwd: Result<String, SshpassError>) -> (r: Result<
    Vec<String>,
    SshpassError,
>)
    ensures
        match normalized_command(seq_views(command@), cwd_view(cwd)) {
            Ok(c) => r matches Ok(v) && seq_views(v@) == c,
            Err(e) => r == Err::<Vec<String>, SshpassError>(e),
        },
{
    let mut normalized: Vec<String> = Vec::new();
    let mut i: usize = 0;
    while i < command.len()
        invariant
            i <= command@.len(),
            seq_views(normalized@) == seq_views(command@).take(i as int),
        decreases command@.len() - i,
    {
        let ghost before = normalized@;
        let c = command[i].clone();
        normalized.push(c);
        proof {
            assert(seq_views(normalized@) =~= seq_views(before).push(c@));
            assert(seq_views(command@).take(i + 1) =~= seq_views(command@).take(i as int).push(
                command@[i as int]@,
            ));
        }
        i = i + 1;
    }
    proof {
        assert(seq_views(command@).take(i as int) =~= seq_views(command@));
    }
    if command.len() == 0 {
        return Ok(normalized);
    }
    let program = command[0].as_str();
    if component_count(program) > 1 && is_relative_path(program) {
        match cwd {
            Ok(dir) => {
                let absolute = join_path(dir.as_str(), program);
                let ghost before = normalized@;
                normalized.set(0, absolute);
                proof {
                    assert(seq_views(normalized@) =~= seq_views(before).update(0, absolute@));
                }
                Ok(normalized)
            },
            Err(e) => Err(e),
        }
    } else {
        Ok(normalized)
    }
}

/// The child's process id as signals address it: an error when there is no
/// child or its id does not fit an `i32`.
pub fn child_pid_for_signals(pid: Option<u32>) -> (r: Result<i32, SshpassError>)
    ensures
        match pid {
            None => r matches Err(SshpassError::ChildSpawn(m)) && m@ == "PTY child pid is unavailable"@,
            Some(p) => if p <= i32::MAX {
                r == Ok::<i32, SshpassError>(p as i32)
            } else {
                r matches Err(SshpassError::ChildSpawn(m)) && m@ == "PTY child pid exceeds i32 range"@
            },
        },
{
    match pid {
        None => Err(SshpassError::ChildSpawn("PTY child pid is unavailable".to_owned())),
        Some(p) => if p <= 0x7fff_ffff {
            Ok(p as i32)
        } else {
            Err(SshpassError::ChildSpawn("PTY child pid exceeds i32 range".to_owned()))
        },
    }
}

} // verus!

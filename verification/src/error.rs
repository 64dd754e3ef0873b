use vstd::prelude::*;
use vstd::string::StringExecFns;

verus! {

/// Process exit codes, compatible with the original `sshpass`.
#[derive(Debug, Clone, Copy, PartialEq, Eq, Structural)]
pub enum SshpassExitCode {
    Success,
    InvalidArguments,
    ConflictingArguments,
    RuntimeError,
    ParseError,
    IncorrectPassword,
    HostKeyUnknown,
    HostKeyChanged,
}

/// The numeric value of an exit code.
pub open spec fn exit_code_value(code: SshpassExitCode) -> i32 {
    match code {
        SshpassExitCode::Success => 0,
        SshpassExitCode::InvalidArguments => 1,
        SshpassExitCode::ConflictingArguments => 2,
        SshpassExitCode::RuntimeError => 3,
        SshpassExitCode::ParseError => 4,
        SshpassExitCode::IncorrectPassword => 5,
        SshpassExitCode::HostKeyUnknown => 6,
        SshpassExitCode::HostKeyChanged => 7,
    }
}

/// The exit code named by a number; unknown numbers mean a runtime error.
pub open spec fn exit_code_of(value: i32) -> SshpassExitCode {
    if value == 0 {
        SshpassExitCode::Success
    } else if value == 1 {
        SshpassExitCode::InvalidArguments
    } else if value == 2 {
        SshpassExitCode::ConflictingArguments
    } else if value == 4 {
        SshpassExitCode::ParseError
    } else if value == 5 {
        SshpassExitCode::IncorrectPassword
    } else if value == 6 {
        SshpassExitCode::HostKeyUnknown
    } else if value == 7 {
        SshpassExitCode::HostKeyChanged
    } else {
        SshpassExitCode::RuntimeError
    }
}

impl SshpassExitCode {
    /// The numeric process exit code.
    pub fn value(self) -> (v: i32)
        ensures
            v == exit_code_value(self),
    {
        match self {
            SshpassExitCode::Success => 0,
            SshpassExitCode::InvalidArguments => 1,
            SshpassExitCode::ConflictingArguments => 2,
            SshpassExitCode::RuntimeError => 3,
            SshpassExitCode::ParseError => 4,
            SshpassExitCode::IncorrectPassword => 5,
            SshpassExitCode::HostKeyUnknown => 6,
            SshpassExitCode::HostKeyChanged => 7,
        }
    }

    /// The exit code for a number; numbers outside `0..=7` map to `RuntimeError`.
    pub fn from_value(value: i32) -> (c: SshpassExitCode)
        ensures
            c == exit_code_of(value),
    {
        match value {
            0 => SshpassExitCode::Success,
            1 => SshpassExitCode::InvalidArguments,
            2 => SshpassExitCode::ConflictingArguments,
            3 => SshpassExitCode::RuntimeError,
            4 => SshpassExitCode::ParseError,
            5 => SshpassExitCode::IncorrectPassword,
            6 => SshpassExitCode::HostKeyUnknown,
            7 => SshpassExitCode::HostKeyChanged,
            _ => SshpassExitCode::RuntimeError,
        }
    }
}

impl From<SshpassExitCode> for i32 {
    fn from(code: SshpassExitCode) -> (v: i32) {
        code.value()
    }
}

impl vstd::std_specs::convert::FromSpecImpl<SshpassExitCode> for i32 {
    open spec fn obeys_from_spec() -> bool {
        true
    }

    open spec fn from_spec(code: SshpassExitCode) -> i32 {
        exit_code_value(code)
    }
}

impl From<i32> for SshpassExitCode {
    fn from(value: i32) -> (c: SshpassExitCode) {
        SshpassExitCode::from_value(value)
    }
}

impl vstd::std_specs::convert::FromSpecImpl<i32> for SshpassExitCode {
    open spec fn obeys_from_spec() -> bool {
        true
    }

    open spec fn from_spec(value: i32) -> SshpassExitCode {
        exit_code_of(value)
    }
}

/// Reading a code back from its number gives the same code.
pub proof fn law_exit_code_round_trip(code: SshpassExitCode)
    ensures
        exit_code_of(exit_code_value(code)) == code,
{
}

/// Every number in `0..=7` names exactly one exit code, and any other number
/// reads as a runtime error.
pub proof fn law_exit_code_numbers(value: i32)
    ensures
        0 <= value <= 7 ==> exit_code_value(exit_code_of(value)) == value,
        !(0 <= value <= 7) ==> exit_code_of(value) == SshpassExitCode::RuntimeError,
{
}

/// `std::io::Error`, carried through opaquely.
#[verifier::external_type_specification]
#[verifier::external_body]
pub struct ExIoError(std::io::Error);

/// Runtime failures of the program.
#[derive(Debug)]
pub enum SshpassError {
    PasswordSource(String),
    PtyCreation(String),
    ChildSpawn(String),
    KeychainAccess(String),
    Io(std::io::Error),
}

/// Text of `std::io::Error`'s `Display`; what it prints comes from the
/// operating system and is not stated here.
#[verifier::external_body]
fn io_error_text(err: &std::io::Error) -> String {
    format!("{}", err)
}

impl SshpassError {
    /// The user-facing message: a fixed prefix naming the failure kind,
    /// followed by the detail.
    pub fn message(&self) -> (m: String)
        ensures
            match self {
                SshpassError::PasswordSource(d) => m@ == "password source error: "@ + d@,
                SshpassError::PtyCreation(d) => m@ == "PTY creation failed: "@ + d@,
                SshpassError::ChildSpawn(d) => m@ == "child process spawn failed: "@ + d@,
                SshpassError::KeychainAccess(d) => m@ == "keychain access error: "@ + d@,
                SshpassError::Io(_) => m@.take(11) == "I/O error: "@,
            },
    {
        match self {
            SshpassError::PasswordSource(d) => {
                let mut m = String::from_str("password source error: ");
                m.append(d.as_str());
                m
            },
            SshpassError::PtyCreation(d) => {
                let mut m = String::from_str("PTY creation failed: ");
                m.append(d.as_str());
                m
            },
            SshpassError::ChildSpawn(d) => {
                let mut m = String::from_str("child process spawn failed: ");
                m.append(d.as_str());
                m
            },
            SshpassError::KeychainAccess(d) => {
                let mut m = String::from_str("keychain access error: ");
                m.append(d.as_str());
                m
            },
            SshpassError::Io(e) => {
                let mut m = String::from_str("I/O error: ");
                let detail = io_error_text(e);
                m.append(detail.as_str());
                proof {
                    reveal_strlit("I/O error: ");
                    assert(m@.take(11) =~= "I/O error: "@);
                }
                m
            },
        }
    }

    /// The exit code a runtime error ends the process with.
    pub fn exit_code(&self) -> (c: SshpassExitCode)
        ensures
            c == SshpassExitCode::RuntimeError,
    {
        match self {
            SshpassError::PasswordSource(_) => SshpassExitCode::RuntimeError,
            SshpassError::PtyCreation(_) => SshpassExitCode::RuntimeError,
            SshpassError::ChildSpawn(_) => SshpassExitCode::RuntimeError,
            SshpassError::KeychainAccess(_) => SshpassExitCode::RuntimeError,
            SshpassError::Io(_) => SshpassExitCode::RuntimeError,
        }
    }
}

impl<'a> From<&'a SshpassError> for SshpassExitCode {
    fn from(err: &'a SshpassError) -> (c: SshpassExitCode) {
        err.exit_code()
    }
}

impl<'a> vstd::std_specs::convert::FromSpecImpl<&'a SshpassError> for SshpassExitCode {
    open spec fn obeys_from_spec() -> bool {
        true
    }

    open spec fn from_spec(err: &'a SshpassError) -> SshpassExitCode {
        SshpassExitCode::RuntimeError
    }
}

} // verus!

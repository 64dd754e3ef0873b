use vstd::prelude::*;
use vstd::string::StringExecFns;

use crate::cli::{Cli, parse_user_at_host, user_at_host_from};
use crate::error::SshpassError;
use crate::text::{chars_of, next_newline, seq_views, string_from_chars};

verus! {

/// A password held in memory, handed over only on request.
pub struct Password {
    text: String,
}

impl View for Password {
    type V = Seq<char>;

    closed spec fn view(&self) -> Seq<char> {
        self.text@
    }
}

impl Password {
    /// A password with the given text.
    pub fn new(text: String) -> (p: Password)
        ensures
            p@ == text@,
    {
        Password { text }
    }

    /// A password with a copy of the given text.
    pub fn from_text(text: &str) -> (p: Password)
        ensures
            p@ == text@,
    {
        Password { text: text.to_owned() }
    }

    /// The password's text.
    pub fn expose_secret(&self) -> (t: &str)
        ensures
            t@ == self@,
    {
        self.text.as_str()
    }
}

/// A source that yields the password.
pub trait PasswordSource {
    fn resolve(&self) -> Result<Password, SshpassError>;
}

/// A password given directly on the command line (`-p`).
pub struct ArgumentPassword {
    password: String,
}

impl View for ArgumentPassword {
    type V = Seq<char>;

    closed spec fn view(&self) -> Seq<char> {
        self.password@
    }
}

impl ArgumentPassword {
    /// A source that yields `password`.
    pub fn new(password: String) -> (s: ArgumentPassword)
        ensures
            s@ == password@,
    {
        ArgumentPassword { password }
    }
}

impl PasswordSource for ArgumentPassword {
    /// Always succeeds with the password it was given.
    fn resolve(&self) -> (r: Result<Password, SshpassError>)
        ensures
            r matches Ok(p) && p@ == self@,
    {
        Ok(Password::new(self.password.clone()))
    }
}

/// Where the password comes from.
pub enum PasswordResolver {
    Argument(String),
    File(String),
    FileDescriptor(i32),
    Environment,
    Keychain(String),
    /// `-k` with an ssh command that names no `user@host`: the key is
    /// resolved through `ssh -G`, and the password is asked for when that
    /// gives none.
    KeychainAlias(Vec<String>),
    Stdin,
}

/// A copy of a list of strings.
fn copy_strings(v: &[String]) -> (r: Vec<String>)
    ensures
        seq_views(r@) == seq_views(v@),
{
    let mut r: Vec<String> = Vec::new();
    let mut i: usize = 0;
    while i < v.len()
        invariant
            i <= v@.len(),
            seq_views(r@) == seq_views(v@).take(i as int),
        decreases v@.len() - i,
    {
        let ghost before = r@;
        let s = v[i].clone();
        r.push(s);
        proof {
            assert(seq_views(r@) =~= seq_views(before).push(s@));
            assert(seq_views(v@).take(i + 1) =~= seq_views(v@).take(i as int).push(v@[i as int]@));
        }
        i = i + 1;
    }
    proof {
        assert(seq_views(v@).take(i as int) =~= seq_views(v@));
    }
    r
}

/// The first line of a text: everything before its first line break.
pub open spec fn first_line(text: Seq<char>) -> Seq<char> {
    text.take(next_newline(text, 0))
}

/// The password a file, descriptor or standard input holds: its first line.
pub fn password_from_text(text: &str) -> (p: Password)
    ensures
        p@ == first_line(text@),
{
    let chars = chars_of(text);
    let mut i: usize = 0;
    while i < chars.len() && chars[i] != '\n'
        invariant
            i <= chars@.len(),
            chars@ == text@,
            next_newline(text@, 0) == next_newline(text@, i as int),
        decreases chars@.len() - i,
    {
        i = i + 1;
    }
    let line = string_from_chars(&chars.as_slice()[0..i]);
    proof {
        assert(chars@.subrange(0, i as int) =~= text@.take(i as int));
    }
    Password::new(line)
}

/// The password read from the file at `path`: its first line, or a
/// password-source error carrying `why` when the file could not be read.
pub fn password_from_file(path: &str, read: Result<String, String>) -> (r: Result<
    Password,
    SshpassError,
>)
    ensures
        match read {
            Ok(text) => r matches Ok(p) && p@ == first_line(text@),
            Err(why) => r matches Err(SshpassError::PasswordSource(m)) && m@
                == "cannot read password file "@ + path@ + ": "@ + why@,
        },
{
    match read {
        Ok(text) => Ok(password_from_text(text.as_str())),
        Err(why) => {
            let mut m = String::from_str("cannot read password file ");
            m.append(path);
            m.append(": ");
            m.append(why.as_str());
            Err(SshpassError::PasswordSource(m))
        },
    }
}

/// The password in the `SSHPASS` environment variable, or an error naming
/// the variable when it is not set.
pub fn password_from_env(value: Option<String>) -> (r: Result<Password, SshpassError>)
    ensures
        match value {
            Some(v) => r matches Ok(p) && p@ == v@,
            None => r matches Err(SshpassError::PasswordSource(m)) && m@
                == "SSHPASS environment variable is not set"@,
        },
{
    match value {
        Some(v) => Ok(Password::new(v)),
        None => Err(SshpassError::PasswordSource(String::from_str("SSHPASS environment variable is not set"))),
    }
}

/// The password read from a stream (a descriptor or standard input): its
/// first line, or a password-source error carrying `why` when reading
/// failed.
pub fn password_from_stream(read: Result<String, String>) -> (r: Result<Password, SshpassError>)
    ensures
        match read {
            Ok(text) => r matches Ok(p) && p@ == first_line(text@),
            Err(why) => r matches Err(SshpassError::PasswordSource(m)) && m@
                == "cannot read password: "@ + why@,
        },
{
    match read {
        Ok(text) => Ok(password_from_text(text.as_str())),
        Err(why) => {
            let mut m = String::from_str("cannot read password: ");
            m.append(why.as_str());
            Err(SshpassError::PasswordSource(m))
        },
    }
}

/// What was read for a password source that needs outside I/O.
pub enum SourceInput {
    /// Nothing was read: the source needs no I/O.
    Nothing,
    /// The text read from a file, a descriptor or standard input, or why
    /// reading failed.
    Read(Result<String, String>),
    /// The value of the `SSHPASS` environment variable, when it is set.
    Variable(Option<String>),
}

/// The input that a source needs: the text read for a file, a descriptor or
/// standard input, the variable's value for the environment, nothing for an
/// argument.
pub open spec fn input_fits(r: PasswordResolver, input: SourceInput) -> bool {
    match r {
        PasswordResolver::Argument(_) => input is Nothing,
        PasswordResolver::File(_) | PasswordResolver::FileDescriptor(_) | PasswordResolver::Stdin => input is Read,
        PasswordResolver::Environment => input is Variable,
        PasswordResolver::Keychain(_) | PasswordResolver::KeychainAlias(_) => false,
    }
}

impl PasswordResolver {
    /// Resolves every source but the keychain ones, given what was read
    /// for it: the argument itself; the first line of a file, a descriptor
    /// or standard input (an error naming the file, or the read failure,
    /// when reading failed); the `SSHPASS` variable (an error naming it
    /// when unset).
    pub fn resolve_input(&self, input: SourceInput) -> (r: Result<Password, SshpassError>)
        requires
            input_fits(*self, input),
        ensures
            match (*self, input) {
                (PasswordResolver::Argument(s), _) => r matches Ok(p) && p@ == s@,
                (PasswordResolver::File(path), SourceInput::Read(read)) => match read {
                    Ok(text) => r matches Ok(p) && p@ == first_line(text@),
                    Err(why) => r matches Err(SshpassError::PasswordSource(m)) && m@
                        == "cannot read password file "@ + path@ + ": "@ + why@,
                },
                (PasswordResolver::Environment, SourceInput::Variable(value)) => match value {
                    Some(v) => r matches Ok(p) && p@ == v@,
                    None => r matches Err(SshpassError::PasswordSource(m)) && m@
                        == "SSHPASS environment variable is not set"@,
                },
                (_, SourceInput::Read(read)) => match read {
                    Ok(text) => r matches Ok(p) && p@ == first_line(text@),
                    Err(why) => r matches Err(SshpassError::PasswordSource(m)) && m@
                        == "cannot read password: "@ + why@,
                },
                _ => false,
            },
    {
        match self {
            PasswordResolver::Argument(_) => self.resolve(),
            PasswordResolver::File(path) => match input {
                SourceInput::Read(read) => password_from_file(path.as_str(), read),
                _ => {
                    proof {
                        assert(false);
                    }
                    Err(SshpassError::PasswordSource(String::new()))
                },
            },
            PasswordResolver::Environment => match input {
                SourceInput::Variable(value) => password_from_env(value),
                _ => {
                    proof {
                        assert(false);
                    }
                    Err(SshpassError::PasswordSource(String::new()))
                },
            },
            _ => match input {
                SourceInput::Read(read) => password_from_stream(read),
                _ => {
                    proof {
                        assert(false);
                    }
                    Err(SshpassError::PasswordSource(String::new()))
                },
            },
        }
    }

    /// Resolves a password given directly on the command line; only that
    /// source resolves without outside I/O.
    pub fn resolve(&self) -> (r: Result<Password, SshpassError>)
        requires
            self is Argument,
        ensures
            self matches PasswordResolver::Argument(s) && r matches Ok(p) && p@ == s@,
    {
        match self {
            PasswordResolver::Argument(s) => ArgumentPassword::new(s.clone()).resolve(),
            _ => {
                proof {
                    assert(false);
                }
                Err(SshpassError::PasswordSource(String::new()))
            },
        }
    }

    /// Chooses the password source a command line asks for: `-p`, `-f`,
    /// `-d`, `-e`, `--key`, then `-k` (with the key derived from the ssh
    /// arguments), else standard input.
    pub fn for_cli(cli: &Cli) -> (r: Result<PasswordResolver, SshpassError>)
        ensures
            if cli.password is Some {
                r matches Ok(PasswordResolver::Argument(p)) && p@ == cli.password.unwrap()@
            } else if cli.filename is Some {
                r matches Ok(PasswordResolver::File(f)) && f@ == cli.filename.unwrap()@
            } else if cli.fd is Some {
                r matches Ok(PasswordResolver::FileDescriptor(d)) && d == cli.fd.unwrap()
            } else if cli.use_env {
                r matches Ok(PasswordResolver::Environment)
            } else if cli.key is Some {
                r matches Ok(PasswordResolver::Keychain(k)) && k@ == cli.key.unwrap()@
            } else if cli.use_keychain {
                match user_at_host_from(seq_views(cli.command@), 1, None) {
                    Some(k) => r matches Ok(PasswordResolver::Keychain(rk)) && rk@ == k,
                    None => r matches Ok(PasswordResolver::KeychainAlias(c)) && seq_views(c@)
                        == seq_views(cli.command@),
                }
            } else {
                r matches Ok(PasswordResolver::Stdin)
            },
    {
        if let Some(password) = &cli.password {
            Ok(PasswordResolver::Argument(password.clone()))
        } else if let Some(filename) = &cli.filename {
            Ok(PasswordResolver::File(filename.clone()))
        } else if let Some(fd) = cli.fd {
            Ok(PasswordResolver::FileDescriptor(fd))
        } else if cli.use_env {
            Ok(PasswordResolver::Environment)
        } else if let Some(key) = &cli.key {
            Ok(PasswordResolver::Keychain(key.clone()))
        } else if cli.use_keychain {
            match parse_user_at_host(cli.command.as_slice()) {
                Some(key) => Ok(PasswordResolver::Keychain(key)),
                None => Ok(PasswordResolver::KeychainAlias(copy_strings(cli.command.as_slice()))),
            }
        } else {
            Ok(PasswordResolver::Stdin)
        }
    }
}

} // verus!

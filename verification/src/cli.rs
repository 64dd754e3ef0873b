use vstd::prelude::*;
use vstd::string::StringExecFns;

use crate::text::{file_name_of, path_file_name, string_from_chars, chars_of, str_eq, opt_view, seq_views, chars_contain, chars_eq, chars_end_with, chars_start_with, split_lines, lines_of};
use crate::error::{SshpassError, SshpassExitCode, exit_code_value};

verus! {

/// The command-line state: password source, prompt pattern, password-store
/// operations and the wrapped command.
#[derive(Debug, Clone, PartialEq, Eq)]
pub struct Cli {
    pub password: Option<String>,
    pub filename: Option<String>,
    pub fd: Option<i32>,
    pub use_env: bool,
    pub prompt: String,
    pub verbose: bool,
    pub use_keychain: bool,
    pub key: Option<String>,
    pub store: Option<String>,
    pub delete: Option<String>,
    pub list: bool,
    pub help: bool,
    pub command: Vec<String>,
}

/// Which help text a command line asks for.
#[derive(Debug, Clone, Copy, PartialEq, Eq, Structural)]
pub enum HelpTopic {
    General,
    Store,
    Delete,
    List,
    Keychain,
}

/// General usage text.
pub const GENERAL_HELP: &'static str = "\
sshpassx — non-interactive SSH password provider

USAGE:
    sshpassx [OPTIONS] <command> [args...]
    sshpassx --store <key>
    sshpassx --delete <key>
    sshpassx --list

PASSWORD SOURCE FLAGS (mutually exclusive):
    -p <password>    Pass the password directly as an argument
    -f <filename>    Read the password from a file (first line)
    -d <number>      Read the password from a file descriptor
    -e               Read the password from the SSHPASS environment variable
    -k               Look up the password from the configured backend,
                     auto-deriving the key from the wrapped SSH command

OTHER FLAGS:
    -P <prompt>      Prompt pattern to match (default: \"assword:\")
    -v               Verbose mode; prints diagnostic output to stderr
    --key <value>    Explicit key name to use with -k (overrides auto-detection)
    -h, --help       Show this help message

KEYCHAIN MANAGEMENT (standalone, no wrapped command needed):
    --store <key>    Prompt for a password and store it under <key>
    --delete <key>   Delete the stored entry for <key>
    --list           List all entries managed by sshpassx

BACKEND SELECTION (environment variables):
    SSHPASSX_BACKEND     Set to \"op\" or \"1password\" for 1Password backend.
                         Default: macOS Keychain.
                         (Legacy SSHPASS_RS_BACKEND is also accepted.)
    SSHPASSX_VAULT       1Password vault to use (optional, default vault if unset).
                         (Legacy SSHPASS_RS_VAULT is also accepted.)

EXAMPLES:
    sshpassx -p mypass ssh user@host
    sshpassx -k ssh user@host
    sshpassx --store user@host
    sshpassx --list
    SSHPASSX_BACKEND=op sshpassx -k ssh user@host

Use --store --help, --list --help, or -k --help for command-specific help.";

/// Help text of `--store`.
pub const STORE_HELP: &'static str = "\
sshpassx --store — store a password in the configured backend

USAGE:
    sshpassx --store <key>

DESCRIPTION:
    Prompts for a password interactively and stores it under <key>.
    The key is typically in the format \"user@host\".

    The storage backend is determined by the SSHPASSX_BACKEND environment
    variable. Default: macOS Keychain. Set to \"op\" for 1Password.
    (Legacy SSHPASS_RS_BACKEND is also accepted.)

OPTIONS:
    -v               Verbose mode; shows which backend is used
    -h, --help       Show this help message

ENVIRONMENT:
    SSHPASSX_BACKEND     \"op\" or \"1password\" → 1Password; unset → macOS Keychain
    SSHPASSX_VAULT       1Password vault name (optional)

EXAMPLES:
    sshpassx --store user@host
    SSHPASSX_BACKEND=op sshpassx --store user@host";

/// Help text of `--delete`.
pub const DELETE_HELP: &'static str = "\
sshpassx --delete — remove a stored password

USAGE:
    sshpassx --delete <key>

DESCRIPTION:
    Deletes the password stored under <key> from the configured backend.

OPTIONS:
    -v               Verbose mode; shows which backend is used
    -h, --help       Show this help message

ENVIRONMENT:
    SSHPASSX_BACKEND     \"op\" or \"1password\" → 1Password; unset → macOS Keychain
    SSHPASSX_VAULT       1Password vault name (optional)

EXAMPLES:
    sshpassx --delete user@host
    SSHPASSX_BACKEND=op sshpassx --delete user@host";

/// Help text of `--list`.
pub const LIST_HELP: &'static str = "\
sshpassx --list — list stored passwords

USAGE:
    sshpassx --list

DESCRIPTION:
    Lists all password entries managed by sshpassx in the configured backend.
    Only entries tagged/indexed by sshpassx are shown.

OPTIONS:
    -v               Verbose mode; shows which backend is used
    -h, --help       Show this help message

ENVIRONMENT:
    SSHPASSX_BACKEND     \"op\" or \"1password\" → 1Password; unset → macOS Keychain
    SSHPASSX_VAULT       1Password vault name (optional)

EXAMPLES:
    sshpassx --list
    SSHPASSX_BACKEND=op sshpassx --list";

/// Help text of `-k`.
pub const KEYCHAIN_HELP: &'static str = "\
sshpassx -k — use stored password for SSH authentication

USAGE:
    sshpassx -k <command> [args...]
    sshpassx -k --key <name> <command> [args...]

DESCRIPTION:
    Looks up the password from the configured backend and uses it to
    authenticate the wrapped SSH command. The key is auto-derived from
    the SSH arguments (user@host) unless --key is specified.

    If the key is not found, falls back to an interactive password prompt
    and offers to save the password for future use.

OPTIONS:
    --key <value>    Use an explicit key name instead of auto-deriving
    -P <prompt>      Prompt pattern to match (default: \"assword:\")
    -v               Verbose mode; shows backend queries and results
    -h, --help       Show this help message

ENVIRONMENT:
    SSHPASSX_BACKEND     \"op\" or \"1password\" → 1Password; unset → macOS Keychain
    SSHPASSX_VAULT       1Password vault name (optional)

EXAMPLES:
    sshpassx -k ssh user@host
    sshpassx -k --key myserver ssh root@10.0.0.1
    SSHPASSX_BACKEND=op sshpassx -k ssh user@host";

/// The help text of a topic.
pub open spec fn help_text_of(topic: HelpTopic) -> Seq<char> {
    match topic {
        HelpTopic::General => GENERAL_HELP@,
        HelpTopic::Store => STORE_HELP@,
        HelpTopic::Delete => DELETE_HELP@,
        HelpTopic::List => LIST_HELP@,
        HelpTopic::Keychain => KEYCHAIN_HELP@,
    }
}

/// The number of password sources a command line selects
/// (`-p`, `-f`, `-d`, `-e`, `-k`).
pub open spec fn password_source_count(cli: Cli) -> int {
    (if cli.password is Some { 1int } else { 0int }) + (if cli.filename is Some {
        1int
    } else {
        0int
    }) + (if cli.fd is Some { 1int } else { 0int }) + (if cli.use_env { 1int } else { 0int }) + (
    if cli.use_keychain {
        1int
    } else {
        0int
    })
}

/// Whether a command line asks for a standalone password-store operation.
pub open spec fn is_standalone_spec(cli: Cli) -> bool {
    cli.store is Some || cli.delete is Some || cli.list
}

/// The help topic a command line asks for: the first of `--store`,
/// `--delete`, `--list`, and `-k`/`--key` that is present, else general.
pub open spec fn help_topic_of(cli: Cli) -> HelpTopic {
    if cli.store is Some {
        HelpTopic::Store
    } else if cli.delete is Some {
        HelpTopic::Delete
    } else if cli.list {
        HelpTopic::List
    } else if cli.use_keychain || cli.key is Some {
        HelpTopic::Keychain
    } else {
        HelpTopic::General
    }
}

/// What validation says of a command line: more than one password source is
/// a conflict (exit code 2); a missing wrapped command, outside standalone
/// operations and help, is an invalid argument (exit code 1).
pub open spec fn validation_of(cli: Cli) -> Option<(Seq<char>, i32)> {
    if password_source_count(cli) > 1 {
        Some(("password sources -p, -f, -d, -e, and -k are mutually exclusive"@, 2i32))
    } else if !is_standalone_spec(cli) && !cli.help && cli.command@.len() == 0 {
        Some(("missing wrapped command"@, 1i32))
    } else {
        None
    }
}

impl HelpTopic {
    /// The text of this help topic.
    pub fn text(self) -> (t: &'static str)
        ensures
            t@ == help_text_of(self),
    {
        match self {
            HelpTopic::General => GENERAL_HELP,
            HelpTopic::Store => STORE_HELP,
            HelpTopic::Delete => DELETE_HELP,
            HelpTopic::List => LIST_HELP,
            HelpTopic::Keychain => KEYCHAIN_HELP,
        }
    }
}

impl Cli {
    /// Whether this invocation is a standalone password-store operation, so
    /// that no wrapped command is needed.
    pub fn is_standalone(&self) -> (r: bool)
        ensures
            r == is_standalone_spec(*self),
    {
        self.store.is_some() || self.delete.is_some() || self.list
    }

    /// The help topic that the flags present select.
    pub fn help_topic(&self) -> (t: HelpTopic)
        ensures
            t == help_topic_of(*self),
    {
        if self.store.is_some() {
            HelpTopic::Store
        } else if self.delete.is_some() {
            HelpTopic::Delete
        } else if self.list {
            HelpTopic::List
        } else if self.use_keychain || self.key.is_some() {
            HelpTopic::Keychain
        } else {
            HelpTopic::General
        }
    }

    /// Checks the `sshpass` compatibility rules that follow argument parsing;
    /// an error carries a message and the process exit code.
    pub fn validate(&self) -> (r: Result<(), (String, i32)>)
        ensures
            match validation_of(*self) {
                None => r is Ok,
                Some((msg, code)) => r matches Err((m, c)) && m@ == msg && c == code,
            },
    {
        let mut count: usize = 0;
        if self.password.is_some() {
            count = count + 1;
        }
        if self.filename.is_some() {
            count = count + 1;
        }
        if self.fd.is_some() {
            count = count + 1;
        }
        if self.use_env {
            count = count + 1;
        }
        if self.use_keychain {
            count = count + 1;
        }
        if count > 1 {
            return Err(
                (
                    String::from_str(
                        "password sources -p, -f, -d, -e, and -k are mutually exclusive",
                    ),
                    2,
                ),
            );
        }
        if !self.is_standalone() && !self.help && self.command.len() == 0 {
            return Err((String::from_str("missing wrapped command"), 1));
        }
        Ok(())
    }
}

/// The letters of the ssh options that take a value (`-B`, `-b`, ... `-w`).
pub open spec fn ssh_value_flag_letters() -> Seq<char> {
    seq![
        'B', 'b', 'c', 'D', 'E', 'e', 'F', 'I', 'i', 'J', 'L', 'l', 'm', 'O', 'o', 'p', 'Q', 'R',
        'S', 'W', 'w',
    ]
}

/// Whether an argument is an ssh option that consumes the next argument.
pub open spec fn is_ssh_value_flag(arg: Seq<char>) -> bool {
    arg.len() == 2 && arg[0] == '-' && ssh_value_flag_letters().contains(arg[1])
}

/// Whether an argument starts with `-`.
pub open spec fn starts_with_dash(arg: Seq<char>) -> bool {
    arg.len() > 0 && arg[0] == '-'
}

/// The ssh destination among `args` from index `i` on: option values are
/// skipped, other options too, and the first remaining argument is it.
pub open spec fn ssh_destination_from(args: Seq<Seq<char>>, i: int) -> Option<Seq<char>>
    decreases args.len() + 1 - i,
{
    if i < 0 || i >= args.len() {
        None
    } else if is_ssh_value_flag(args[i]) {
        ssh_destination_from(args, i + 2)
    } else if starts_with_dash(args[i]) {
        ssh_destination_from(args, i + 1)
    } else {
        Some(args[i])
    }
}

/// The value of the first `-F` option among `args` from index `i` on; `None`
/// when there is no `-F`, or when the first one is the last argument.
pub open spec fn config_path_from(args: Seq<Seq<char>>, i: int) -> Option<Seq<char>>
    decreases args.len() - i,
{
    if i < 0 || i >= args.len() {
        None
    } else if args[i] == "-F"@ {
        if i + 1 < args.len() {
            Some(args[i + 1])
        } else {
            None
        }
    } else {
        config_path_from(args, i + 1)
    }
}

/// The `user@host` key named by ssh arguments from index `i` on, where `user`
/// is the value of the last `-l` seen: a first argument holding `@` is the
/// key itself; otherwise the first non-option argument is the host, joined
/// to the `-l` user when there is one.
pub open spec fn user_at_host_from(args: Seq<Seq<char>>, i: int, user: Option<Seq<char>>) -> Option<
    Seq<char>,
>
    decreases args.len() + 1 - i,
{
    if i < 1 || i >= args.len() {
        None
    } else if i == 1 && !starts_with_dash(args[i]) && args[i].contains('@') {
        Some(args[i])
    } else if args[i] == "-l"@ {
        user_at_host_from(
            args,
            i + 2,
            if i + 1 < args.len() {
                Some(args[i + 1])
            } else {
                None
            },
        )
    } else if !starts_with_dash(args[i]) {
        match user {
            Some(u) => Some(u + "@"@ + args[i]),
            None => None,
        }
    } else {
        user_at_host_from(args, i + 1, user)
    }
}

fn is_value_flag(arg: &[char]) -> (r: bool)
    ensures
        r == is_ssh_value_flag(arg@),
{
    if arg.len() != 2 || arg[0] != '-' {
        return false;
    }
    let letters: Vec<char> = vec![
        'B', 'b', 'c', 'D', 'E', 'e', 'F', 'I', 'i', 'J', 'L', 'l', 'm', 'O', 'o', 'p', 'Q', 'R',
        'S', 'W', 'w',
    ];
    proof {
        assert(letters@ =~= ssh_value_flag_letters());
    }
    chars_contain(letters.as_slice(), arg[1])
}

fn has_dash_start(arg: &[char]) -> (r: bool)
    ensures
        r == starts_with_dash(arg@),
{
    arg.len() > 0 && arg[0] == '-'
}

/// Finds the ssh destination argument (the first argument that is neither an
/// option nor an option's value), skipping the command name.
pub fn find_ssh_destination(args: &[String]) -> (r: Option<String>)
    ensures
        opt_view(r) == ssh_destination_from(seq_views(args@), 1),
{
    let ghost views = seq_views(args@);
    let mut index: usize = 1;
    while index < args.len()
        invariant
            views == seq_views(args@),
            1 <= index,
            ssh_destination_from(views, index as int) == ssh_destination_from(views, 1),
        decreases args.len() - index,
    {
        let arg = chars_of(args[index].as_str());
        if is_value_flag(arg.as_slice()) {
            if args.len() - index <= 2 {
                proof {
                    assert(ssh_destination_from(views, index + 2) == None::<Seq<char>>);
                }
                return None;
            }
            index = index + 2;
            continue;
        }
        if has_dash_start(arg.as_slice()) {
            index = index + 1;
            continue;
        }
        return Some(args[index].clone());
    }
    None
}

/// Finds the value of the first `-F` option (the ssh config file), if any.
pub fn extract_ssh_config_path(args: &[String]) -> (r: Option<String>)
    ensures
        opt_view(r) == config_path_from(seq_views(args@), 1),
{
    let ghost views = seq_views(args@);
    let flag = chars_of("-F");
    let mut index: usize = 1;
    while index < args.len()
        invariant
            views == seq_views(args@),
            flag@ == "-F"@,
            1 <= index,
            config_path_from(views, index as int) == config_path_from(views, 1),
        decreases args.len() - index,
    {
        let arg = chars_of(args[index].as_str());
        if chars_eq(arg.as_slice(), flag.as_slice()) {
            if index + 1 < args.len() {
                return Some(args[index + 1].clone());
            }
            return None;
        }
        index = index + 1;
    }
    None
}

/// Derives a `user@host` key from the supported ssh argument patterns:
/// `ssh user@host ...` and `ssh -l user host ...`.
pub fn parse_user_at_host(args: &[String]) -> (r: Option<String>)
    ensures
        opt_view(r) == user_at_host_from(seq_views(args@), 1, None),
{
    let ghost views = seq_views(args@);
    let dash_l = chars_of("-l");
    let mut user: Option<String> = None;
    let mut index: usize = 1;
    while index < args.len()
        invariant
            views == seq_views(args@),
            dash_l@ == "-l"@,
            1 <= index,
            user_at_host_from(views, index as int, opt_view(user)) == user_at_host_from(
                views,
                1,
                None,
            ),
        decreases args.len() - index,
    {
        let arg = chars_of(args[index].as_str());
        if index == 1 && !has_dash_start(arg.as_slice()) && chars_contain(arg.as_slice(), '@') {
            return Some(args[index].clone());
        }
        if chars_eq(arg.as_slice(), dash_l.as_slice()) {
            user = if index + 1 < args.len() {
                Some(args[index + 1].clone())
            } else {
                None
            };
            if args.len() - index <= 2 {
                proof {
                    assert(user_at_host_from(views, index + 2, opt_view(user)) == None::<Seq<char>>);
                }
                return None;
            }
            index = index + 2;
            continue;
        }
        if !has_dash_start(arg.as_slice()) {
            match user {
                Some(username) => {
                    let mut key = username;
                    key.append("@");
                    key.append(args[index].as_str());
                    return Some(key);
                },
                None => {
                    return None;
                },
            }
        }
        index = index + 1;
    }
    None
}

/// The `(user, hostname)` pair read from `ssh -G` output lines from index
/// `j` on: each `user ` line and `hostname ` line replaces the value seen so
/// far, and the pair is complete as soon as both have been seen.
pub open spec fn ssh_g_scan(
    lines: Seq<Seq<char>>,
    j: int,
    user: Option<Seq<char>>,
    host: Option<Seq<char>>,
) -> Option<(Seq<char>, Seq<char>)>
    decreases lines.len() - j,
{
    if j < 0 || j >= lines.len() {
        None
    } else {
        let line = lines[j];
        let u = if "user "@.is_prefix_of(line) {
            Some(line.skip("user "@.len() as int))
        } else {
            user
        };
        let h = if "hostname "@.is_prefix_of(line) {
            Some(line.skip("hostname "@.len() as int))
        } else {
            host
        };
        if u is Some && h is Some {
            Some((u.unwrap(), h.unwrap()))
        } else {
            ssh_g_scan(lines, j + 1, u, h)
        }
    }
}

/// The `(user, hostname)` pair that `ssh -G` output names.
pub open spec fn ssh_g_pair(output: Seq<char>) -> Option<(Seq<char>, Seq<char>)> {
    ssh_g_scan(lines_of(output), 0, None, None)
}

/// Reads the `user` and `hostname` settings from `ssh -G` output.
pub fn parse_ssh_g_output(output: &str) -> (r: Option<(String, String)>)
    ensures
        match ssh_g_pair(output@) {
            Some((u, h)) => r matches Some((ru, rh)) && ru@ == u && rh@ == h,
            None => r is None,
        },
{
    let text = chars_of(output);
    let lines = split_lines(text.as_slice());
    let ghost line_views = lines@.map_values(|l: Vec<char>| l@);
    let user_prefix = chars_of("user ");
    let host_prefix = chars_of("hostname ");
    let mut user: Option<Vec<char>> = None;
    let mut host: Option<Vec<char>> = None;
    let mut j: usize = 0;
    while j < lines.len()
        invariant
            line_views == lines@.map_values(|l: Vec<char>| l@),
            line_views == lines_of(output@),
            user_prefix@ == "user "@,
            host_prefix@ == "hostname "@,
            ssh_g_scan(
                line_views,
                j as int,
                match user {
                    Some(v) => Some(v@),
                    None => None::<Seq<char>>,
                },
                match host {
                    Some(v) => Some(v@),
                    None => None::<Seq<char>>,
                },
            ) == ssh_g_pair(output@),
        decreases lines.len() - j,
    {
        let line = &lines[j];
        if chars_start_with(line.as_slice(), user_prefix.as_slice()) {
            let mut value: Vec<char> = Vec::new();
            let mut k = user_prefix.len();
            while k < line.len()
                invariant
                    user_prefix.len() <= k <= line.len(),
                    value@ == line@.subrange(user_prefix.len() as int, k as int),
                decreases line.len() - k,
            {
                value.push(line[k]);
                proof {
                    assert(line@.subrange(user_prefix.len() as int, k + 1) =~= line@.subrange(
                        user_prefix.len() as int,
                        k as int,
                    ).push(line@[k as int]));
                }
                k = k + 1;
            }
            proof {
                assert(value@ =~= line@.skip(user_prefix.len() as int));
            }
            user = Some(value);
        }
        if chars_start_with(line.as_slice(), host_prefix.as_slice()) {
            let mut value: Vec<char> = Vec::new();
            let mut k = host_prefix.len();
            while k < line.len()
                invariant
                    host_prefix.len() <= k <= line.len(),
                    value@ == line@.subrange(host_prefix.len() as int, k as int),
                decreases line.len() - k,
            {
                value.push(line[k]);
                proof {
                    assert(line@.subrange(host_prefix.len() as int, k + 1) =~= line@.subrange(
                        host_prefix.len() as int,
                        k as int,
                    ).push(line@[k as int]));
                }
                k = k + 1;
            }
            proof {
                assert(value@ =~= line@.skip(host_prefix.len() as int));
            }
            host = Some(value);
        }
        match (&user, &host) {
            (Some(u), Some(h)) => {
                return Some((string_from_chars(u.as_slice()), string_from_chars(h.as_slice())));
            },
            _ => {},
        }
        j = j + 1;
    }
    None
}

/// The key `user@hostname` that `ssh -G` output names.
pub open spec fn ssh_g_key(output: Seq<char>) -> Option<Seq<char>> {
    match ssh_g_pair(output) {
        Some((u, h)) => Some(u + "@"@ + h),
        None => None,
    }
}

/// The password-store key `user@hostname` that `ssh -G` output resolves an
/// alias to.
pub fn key_from_ssh_g_output(output: &str) -> (r: Option<String>)
    ensures
        opt_view(r) == ssh_g_key(output@),
{
    match parse_ssh_g_output(output) {
        Some((user, hostname)) => {
            let mut key = user;
            key.append("@");
            key.append(hostname.as_str());
            Some(key)
        },
        None => None,
    }
}

/// What `ssh -G` must be asked to resolve an ssh alias: the destination
/// and the `-F` config file, if one was given.
#[derive(Debug, Clone, PartialEq, Eq)]
pub struct SshAliasQuery {
    pub destination: String,
    pub config_path: Option<String>,
}

/// Whether `args` runs ssh: the file name of the program ends with `ssh`.
pub open spec fn runs_ssh(args: Seq<Seq<char>>) -> bool {
    args.len() > 0 && (match path_file_name(args[0]) {
        Some(name) => "ssh"@.is_suffix_of(name),
        None => false,
    })
}

/// Builds the `ssh -G` query that resolves the alias in an ssh command line:
/// `None` when the program is not ssh or there is no destination.
pub fn ssh_alias_query(args: &[String]) -> (r: Option<SshAliasQuery>)
    ensures
        ({
            let views = seq_views(args@);
            if runs_ssh(views) && ssh_destination_from(views, 1) is Some {
                r matches Some(q) && q.destination@ == ssh_destination_from(views, 1).unwrap()
                    && opt_view(q.config_path) == config_path_from(views, 1)
            } else {
                r is None
            }
        }),
{
    if args.len() == 0 {
        return None;
    }
    let name = match file_name_of(args[0].as_str()) {
        Some(name) => name,
        None => {
            return None;
        },
    };
    let name_chars = chars_of(name.as_str());
    let ssh = chars_of("ssh");
    if !chars_end_with(name_chars.as_slice(), ssh.as_slice()) {
        return None;
    }
    let destination = match find_ssh_destination(args) {
        Some(d) => d,
        None => {
            return None;
        },
    };
    Some(SshAliasQuery { destination, config_path: extract_ssh_config_path(args) })
}

impl SshAliasQuery {
    /// The arguments given to `ssh` for the query: `-G`, then `-F` and the
    /// config file when there is one, then the destination.
    pub fn ssh_args(&self) -> (v: Vec<String>)
        ensures
            seq_views(v@) == (match self.config_path {
                Some(p) => seq!["-G"@, "-F"@, p@, self.destination@],
                None => seq!["-G"@, self.destination@],
            }),
    {
        let mut v: Vec<String> = Vec::new();
        v.push("-G".to_owned());
        match &self.config_path {
            Some(p) => {
                v.push("-F".to_owned());
                v.push(p.clone());
            },
            None => {},
        }
        v.push(self.destination.clone());
        proof {
            assert(seq_views(v@) =~= (match self.config_path {
                Some(p) => seq!["-G"@, "-F"@, p@, self.destination@],
                None => seq!["-G"@, self.destination@],
            }));
        }
        v
    }
}

/// A password-store operation that runs on its own, without a wrapped
/// command.
#[derive(Debug, Clone, PartialEq, Eq)]
pub enum StandaloneOp {
    Store(String),
    Delete(String),
    List,
}

/// The standalone operation a command line asks for, if any: storing
/// comes first, then deleting, then listing.
pub fn standalone_op(cli: &Cli) -> (r: Option<StandaloneOp>)
    ensures
        match cli.store {
            Some(k) => r matches Some(StandaloneOp::Store(k2)) && k2@ == k@,
            None => match cli.delete {
                Some(k) => r matches Some(StandaloneOp::Delete(k2)) && k2@ == k@,
                None => if cli.list {
                    r matches Some(StandaloneOp::List)
                } else {
                    r is None
                },
            },
        },
{
    match &cli.store {
        Some(k) => Some(StandaloneOp::Store(k.clone())),
        None => match &cli.delete {
            Some(k) => Some(StandaloneOp::Delete(k.clone())),
            None => if cli.list {
                Some(StandaloneOp::List)
            } else {
                None
            },
        },
    }
}

/// The process exit code once a standalone operation has run: success, or
/// the code of the error it failed with.
pub fn standalone_exit_code(outcome: &Result<(), SshpassError>) -> (c: i32)
    ensures
        outcome is Ok ==> c == 0,
        outcome is Err ==> c == exit_code_value(SshpassExitCode::RuntimeError),
{
    match outcome {
        Ok(()) => SshpassExitCode::Success.value(),
        Err(e) => e.exit_code().value(),
    }
}

/// The exit code when the arguments cannot be parsed: 0 when the parser
/// only asked for help or version text, otherwise 2 (bad flags).
pub fn usage_error_exit_code(help_or_version: bool) -> (c: i32)
    ensures
        c == (if help_or_version {
            0
        } else {
            exit_code_value(SshpassExitCode::ConflictingArguments)
        }),
{
    if help_or_version {
        0
    } else {
        SshpassExitCode::ConflictingArguments.value()
    }
}

} // verus!

use sshpass_rs::cli::{
    extract_ssh_config_path, find_ssh_destination, key_from_ssh_g_output, parse_ssh_g_output,
    parse_user_at_host, ssh_alias_query, standalone_exit_code, standalone_op, Cli, HelpTopic,
    StandaloneOp,
};
use sshpass_rs::cli::usage_error_exit_code;
use sshpass_rs::error::SshpassError;

fn strings(args: &[&str]) -> Vec<String> {
    args.iter().map(|a| a.to_string()).collect()
}

fn cli_with_command(command: &[&str]) -> Cli {
    Cli {
        password: None,
        filename: None,
        fd: None,
        use_env: false,
        prompt: String::new(),
        verbose: false,
        use_keychain: false,
        key: None,
        store: None,
        delete: None,
        list: false,
        help: false,
        command: strings(command),
    }
}

#[test]
fn test_user_at_host_direct() {
    let args = vec!["ssh".to_string(), "user@host".to_string()];

    assert_eq!(parse_user_at_host(&args).as_deref(), Some("user@host"));
}

#[test]
fn test_user_at_host_l_flag() {
    let args = vec![
        "ssh".to_string(),
        "-l".to_string(),
        "user".to_string(),
        "host".to_string(),
    ];

    assert_eq!(parse_user_at_host(&args).as_deref(), Some("user@host"));
}

#[test]
fn test_find_ssh_destination_simple_alias() {
    let args = vec!["ssh".to_string(), "myalias".to_string()];

    assert_eq!(find_ssh_destination(&args).as_deref(), Some("myalias"));
}

#[test]
fn test_find_ssh_destination_with_w_flag() {
    let args = vec![
        "ssh".to_string(),
        "-W".to_string(),
        "%h:%p".to_string(),
        "gw".to_string(),
    ];

    assert_eq!(find_ssh_destination(&args).as_deref(), Some("gw"));
}

#[test]
fn test_find_ssh_destination_with_multiple_value_flags() {
    let args = vec![
        "ssh".to_string(),
        "-o".to_string(),
        "Foo=bar".to_string(),
        "-p".to_string(),
        "22".to_string(),
        "host".to_string(),
    ];

    assert_eq!(find_ssh_destination(&args).as_deref(), Some("host"));
}

#[test]
fn test_find_ssh_destination_with_mixed_flags() {
    let args = vec![
        "ssh".to_string(),
        "-p".to_string(),
        "2222".to_string(),
        "-i".to_string(),
        "~/.ssh/id".to_string(),
        "-W".to_string(),
        "%h:%p".to_string(),
        "gw".to_string(),
    ];

    assert_eq!(find_ssh_destination(&args).as_deref(), Some("gw"));
}

#[test]
fn test_find_ssh_destination_missing_destination() {
    let args = vec!["ssh".to_string()];

    assert_eq!(find_ssh_destination(&args), None);
}

#[test]
fn test_find_ssh_destination_no_destination() {
    let args = vec!["ssh".to_string(), "-v".to_string(), "-N".to_string()];

    assert_eq!(find_ssh_destination(&args), None);
}

#[test]
fn test_extract_ssh_config_path_present() {
    let args = vec![
        "ssh".to_string(),
        "-F".to_string(),
        "/custom/config".to_string(),
        "myalias".to_string(),
    ];

    assert_eq!(extract_ssh_config_path(&args).as_deref(), Some("/custom/config"));
}

#[test]
fn test_extract_ssh_config_path_absent() {
    let args = vec!["ssh".to_string(), "myalias".to_string()];

    assert_eq!(extract_ssh_config_path(&args), None);
}

#[test]
fn test_extract_ssh_config_path_after_other_flags() {
    let args = vec![
        "ssh".to_string(),
        "-o".to_string(),
        "Foo=bar".to_string(),
        "-F".to_string(),
        "/tmp/cfg".to_string(),
        "host".to_string(),
    ];

    assert_eq!(extract_ssh_config_path(&args).as_deref(), Some("/tmp/cfg"));
}

#[test]
fn test_parse_ssh_g_output_normal() {
    let output = "user testuser\nhostname 10.0.0.1\nport 22\n";

    assert_eq!(
        parse_ssh_g_output(output),
        Some(("testuser".to_string(), "10.0.0.1".to_string()))
    );
}

#[test]
fn test_parse_ssh_g_output_missing_user() {
    let output = "hostname 10.0.0.1\nport 22\n";

    assert_eq!(parse_ssh_g_output(output), None);
}

#[test]
fn test_parse_ssh_g_output_missing_hostname() {
    let output = "user testuser\nport 22\n";

    assert_eq!(parse_ssh_g_output(output), None);
}

#[test]
fn test_parse_ssh_g_output_empty() {
    assert_eq!(parse_ssh_g_output(""), None);
}

#[test]
fn test_parse_ssh_g_output_real_world_output() {
    let output = "host gw\nuser admin\nhostname gateway.local\nport 22\ncanonicalizehostname false\n";

    assert_eq!(
        parse_ssh_g_output(output),
        Some(("admin".to_string(), "gateway.local".to_string()))
    );
}

#[test]
fn test_resolve_rejects_non_ssh() {
    let args = vec!["scp".to_string(), "myalias".to_string()];

    assert!(ssh_alias_query(&args).is_none());
}

#[test]
fn alias_query_for_ssh_with_config_file() {
    let args = strings(&["/usr/bin/ssh", "-F", "/tmp/cfg", "-p", "22", "gw"]);
    let query = ssh_alias_query(&args).expect("ssh command with destination");

    assert_eq!(query.destination, "gw");
    assert_eq!(query.config_path.as_deref(), Some("/tmp/cfg"));
    assert_eq!(query.ssh_args(), strings(&["-G", "-F", "/tmp/cfg", "gw"]));
}

#[test]
fn alias_query_without_config_file() {
    let args = strings(&["ssh", "myalias"]);
    let query = ssh_alias_query(&args).expect("ssh command with destination");

    assert_eq!(query.ssh_args(), strings(&["-G", "myalias"]));
}

#[test]
fn alias_query_needs_a_destination() {
    assert!(ssh_alias_query(&strings(&["ssh", "-v"])).is_none());
    assert!(ssh_alias_query(&strings(&[])).is_none());
}

#[test]
fn key_from_ssh_g_output_joins_user_and_host() {
    let output = "user admin\nhostname gateway.local\n";

    assert_eq!(key_from_ssh_g_output(output).as_deref(), Some("admin@gateway.local"));
    assert_eq!(key_from_ssh_g_output("port 22\n"), None);
}

#[test]
fn user_at_host_l_flag_without_host_is_none() {
    assert_eq!(parse_user_at_host(&strings(&["ssh", "-l", "user"])), None);
    assert_eq!(parse_user_at_host(&strings(&["ssh", "host"])), None);
}

#[test]
fn test_conflicting_sources() {
    let mut cli = cli_with_command(&["ssh"]);
    cli.password = Some("x".to_string());
    cli.use_env = true;

    let (_, exit_code) = cli.validate().expect_err("expected validation failure");
    assert_eq!(exit_code, 2);
}

#[test]
fn test_missing_command() {
    let mut cli = cli_with_command(&[]);
    cli.password = Some("pass".to_string());

    let (_, exit_code) = cli.validate().expect_err("expected validation failure");
    assert_eq!(exit_code, 1);
}

#[test]
fn standalone_store_is_valid_without_command() {
    let mut cli = cli_with_command(&[]);
    cli.store = Some("user@host".to_string());

    assert!(cli.is_standalone());
    assert!(cli.validate().is_ok());
    assert_eq!(standalone_op(&cli), Some(StandaloneOp::Store("user@host".to_string())));
}

#[test]
fn standalone_ops_in_priority_order() {
    let mut cli = cli_with_command(&[]);
    cli.delete = Some("k".to_string());
    cli.list = true;
    assert_eq!(standalone_op(&cli), Some(StandaloneOp::Delete("k".to_string())));

    cli.delete = None;
    assert_eq!(standalone_op(&cli), Some(StandaloneOp::List));

    cli.list = false;
    assert_eq!(standalone_op(&cli), None);
}

#[test]
fn standalone_exit_codes() {
    assert_eq!(standalone_exit_code(&Ok(())), 0);
    let err: Result<(), SshpassError> = Err(SshpassError::KeychainAccess("x".to_string()));
    assert_eq!(standalone_exit_code(&err), 3);
}

#[test]
fn help_topic_follows_operation() {
    let mut cli = cli_with_command(&[]);
    assert_eq!(cli.help_topic(), HelpTopic::General);
    cli.list = true;
    assert_eq!(cli.help_topic(), HelpTopic::List);
    assert!(cli.help_topic().text().contains("--list"));
}

#[test]
fn usage_error_codes() {
    assert_eq!(usage_error_exit_code(true), 0);
    assert_eq!(usage_error_exit_code(false), 2);
}

#[test]
fn ssh_g_pair_uses_latest_lines_up_to_both() {
    let output = "user a\nuser b\nport 22\nhostname h1\nuser c\nhostname h2\n";
    assert_eq!(parse_ssh_g_output(output), Some(("b".to_string(), "h1".to_string())));
}

#[test]
fn program_name_is_never_inspected() {
    let plain = strings(&["ssh", "-p", "22", "host"]);
    let odd = strings(&["user@elsewhere", "-p", "22", "host"]);
    assert_eq!(find_ssh_destination(&plain), find_ssh_destination(&odd));
    assert_eq!(find_ssh_destination(&odd), Some("host".to_string()));
    assert_eq!(parse_user_at_host(&odd), None);
    assert_eq!(parse_user_at_host(&strings(&["-l", "-l", "u", "h"])), Some("u@h".to_string()));
}

use webauthn_helper::cli::{
    parse_credential_manage, require_option, take_option, Cli, CliError, Commands, CredentialAction,
};

fn args(list: &[&str]) -> Vec<String> {
    list.iter().map(|a| a.to_string()).collect()
}

#[test]
fn cli_no_args_shows_help_or_error() {
    let err = Cli::parse(args(&[])).unwrap_err();
    assert!(matches!(err, CliError::NoSubcommand));
    assert_ne!(err.exit_code(), 0);
    assert_eq!(err.exit_code(), 2);
}

#[test]
fn cli_help_flag() {
    let err = Cli::parse(args(&["--help"])).unwrap_err();
    assert!(matches!(err, CliError::HelpRequested));
    assert_eq!(err.exit_code(), 0);
}

#[test]
fn cli_version_flag() {
    let err = Cli::parse(args(&["--version"])).unwrap_err();
    assert!(matches!(err, CliError::VersionRequested));
    assert_eq!(err.exit_code(), 0);
}

#[test]
fn help_and_version_are_found_anywhere() {
    assert!(matches!(Cli::parse(args(&["-h"])).unwrap_err(), CliError::HelpRequested));
    assert!(matches!(Cli::parse(args(&["-V"])).unwrap_err(), CliError::VersionRequested));
    assert!(matches!(
        Cli::parse(args(&["login-begin", "--username", "a", "--help"])).unwrap_err(),
        CliError::HelpRequested
    ));
    assert!(matches!(
        Cli::parse(args(&["health-check", "-V"])).unwrap_err(),
        CliError::VersionRequested
    ));
    // help goes before the version
    assert!(matches!(Cli::parse(args(&["--version", "-h"])).unwrap_err(), CliError::HelpRequested));
    // a value that reads like a flag counts as the flag
    assert!(matches!(
        Cli::parse(args(&["login-begin", "--username", "--help", "--rp-id", "x"])).unwrap_err(),
        CliError::HelpRequested
    ));
}

#[test]
fn register_begin_missing_args() {
    match Cli::parse(args(&["register-begin"])).unwrap_err() {
        CliError::MissingArgument(name) => assert_eq!(name, "--username"),
        other => panic!("unexpected {other:?}"),
    }
    match Cli::parse(args(&["register-begin", "--username", "u"])).unwrap_err() {
        CliError::MissingArgument(name) => assert_eq!(name, "--rp-id"),
        other => panic!("unexpected {other:?}"),
    }
}

#[test]
fn register_finish_missing_challenge_id() {
    let err = Cli::parse(args(&["register-finish"])).unwrap_err();
    assert_eq!(err.exit_code(), 2);
    match err {
        CliError::MissingArgument(name) => assert_eq!(name, "--challenge-id"),
        other => panic!("unexpected {other:?}"),
    }
}

#[test]
fn login_begin_missing_args() {
    match Cli::parse(args(&["login-begin"])).unwrap_err() {
        CliError::MissingArgument(name) => assert_eq!(name, "--username"),
        other => panic!("unexpected {other:?}"),
    }
}

#[test]
fn register_begin_is_parsed() {
    match Cli::parse(args(&["register-begin", "--username", "testuser", "--rp-id", "example.com"])).unwrap().command {
        Commands::RegisterBegin { username, rp_id, user_verification } => {
            assert_eq!(username, "testuser");
            assert_eq!(rp_id, "example.com");
            assert_eq!(user_verification, "preferred");
        }
        other => panic!("unexpected {other:?}"),
    }
    match Cli::parse(args(&[
        "register-begin",
        "--user-verification",
        "required",
        "--rp-id",
        "example.com",
        "--username",
        "u",
    ]))
    .unwrap()
    .command
    {
        Commands::RegisterBegin { username, rp_id, user_verification } => {
            assert_eq!(username, "u");
            assert_eq!(rp_id, "example.com");
            assert_eq!(user_verification, "required");
        }
        other => panic!("unexpected {other:?}"),
    }
}

#[test]
fn finish_commands_are_parsed() {
    match Cli::parse(args(&[
        "register-finish",
        "--challenge-id",
        "nonexistent-id-12345",
        "--origin",
        "https://example.com",
        "--device-name",
        "TestKey",
    ]))
    .unwrap()
    .command
    {
        Commands::RegisterFinish { challenge_id, origin, device_name } => {
            assert_eq!(challenge_id, "nonexistent-id-12345");
            assert_eq!(origin, "https://example.com");
            assert_eq!(device_name, "TestKey");
        }
        other => panic!("unexpected {other:?}"),
    }
    match Cli::parse(args(&["login-finish", "--challenge-id", "no-such-challenge", "--origin", "https://example.com"]))
        .unwrap()
        .command
    {
        Commands::LoginFinish { challenge_id, origin } => {
            assert_eq!(challenge_id, "no-such-challenge");
            assert_eq!(origin, "https://example.com");
        }
        other => panic!("unexpected {other:?}"),
    }
    match Cli::parse(args(&["login-begin", "--username", "nobody_exists_here", "--rp-id", "example.com"]))
        .unwrap()
        .command
    {
        Commands::LoginBegin { username, rp_id } => {
            assert_eq!(username, "nobody_exists_here");
            assert_eq!(rp_id, "example.com");
        }
        other => panic!("unexpected {other:?}"),
    }
}

#[test]
fn credential_management_is_parsed() {
    match Cli::parse(args(&["credential-manage", "list", "--username", "nonexistent_user"])).unwrap().command {
        Commands::CredentialManage { action: CredentialAction::List { username } } => {
            assert_eq!(username, "nonexistent_user")
        }
        other => panic!("unexpected {other:?}"),
    }
    match Cli::parse(args(&["credential-manage", "delete", "--id", "nonexistent-credential-id"])).unwrap().command {
        Commands::CredentialManage { action: CredentialAction::Delete { id } } => {
            assert_eq!(id, "nonexistent-credential-id")
        }
        other => panic!("unexpected {other:?}"),
    }
    match Cli::parse(args(&["credential-manage", "update", "--id", "nonexistent-id", "--name", "NewName"]))
        .unwrap()
        .command
    {
        Commands::CredentialManage { action: CredentialAction::Update { id, name } } => {
            assert_eq!(id, "nonexistent-id");
            assert_eq!(name, "NewName");
        }
        other => panic!("unexpected {other:?}"),
    }
    assert!(matches!(
        Cli::parse(args(&["credential-manage", "cleanup"])).unwrap().command,
        Commands::CredentialManage { action: CredentialAction::Cleanup }
    ));
    assert!(matches!(Cli::parse(args(&["health-check"])).unwrap().command, Commands::HealthCheck));
}

#[test]
fn credential_management_errors() {
    assert!(matches!(Cli::parse(args(&["credential-manage"])).unwrap_err(), CliError::NoCredentialSubcommand));
    match Cli::parse(args(&["credential-manage", "frobnicate"])).unwrap_err() {
        CliError::UnrecognizedSubcommand(name) => assert_eq!(name, "frobnicate"),
        other => panic!("unexpected {other:?}"),
    }
    match Cli::parse(args(&["credential-manage", "update", "--id", "x"])).unwrap_err() {
        CliError::MissingArgument(name) => assert_eq!(name, "--name"),
        other => panic!("unexpected {other:?}"),
    }
    match Cli::parse(args(&["credential-manage", "list", "--username"])).unwrap_err() {
        CliError::MissingArgument(name) => assert_eq!(name, "--username"),
        other => panic!("unexpected {other:?}"),
    }
    let mut rest = args(&[]);
    assert!(matches!(parse_credential_manage(&mut rest).unwrap_err(), CliError::NoCredentialSubcommand));
}

#[test]
fn unknown_command_is_refused() {
    let err = Cli::parse(args(&["frobnicate", "--username", "u"])).unwrap_err();
    assert_eq!(err.exit_code(), 2);
    match err {
        CliError::UnrecognizedSubcommand(name) => assert_eq!(name, "frobnicate"),
        other => panic!("unexpected {other:?}"),
    }
}

#[test]
fn take_option_takes_name_and_value() {
    let mut list = args(&["a", "--x", "1", "b", "--x", "2"]);
    assert_eq!(take_option(&mut list, "--x"), Some("1".to_string()));
    assert_eq!(list, args(&["a", "b", "--x", "2"]));
    assert_eq!(take_option(&mut list, "--x"), Some("2".to_string()));
    assert_eq!(list, args(&["a", "b"]));
    assert_eq!(take_option(&mut list, "--x"), None);
    assert_eq!(list, args(&["a", "b"]));
}

#[test]
fn take_option_without_a_value_takes_the_name() {
    let mut list = args(&["a", "--x"]);
    assert_eq!(take_option(&mut list, "--x"), None);
    assert_eq!(list, args(&["a"]));
    let mut empty = args(&[]);
    assert_eq!(take_option(&mut empty, "--x"), None);
    assert!(empty.is_empty());
}

#[test]
fn require_option_names_what_is_missing() {
    let mut list = args(&["--x", "1"]);
    assert_eq!(require_option(&mut list, "--x").unwrap(), "1");
    assert!(list.is_empty());
    match require_option(&mut list, "--y").unwrap_err() {
        CliError::MissingArgument(name) => assert_eq!(name, "--y"),
        other => panic!("unexpected {other:?}"),
    }
}

#[test]
fn the_value_of_an_option_may_be_the_name_of_another() {
    match Cli::parse(args(&["login-begin", "--username", "--rp-id", "--rp-id", "example.com"])).unwrap().command {
        Commands::LoginBegin { username, rp_id } => {
            assert_eq!(username, "--rp-id");
            assert_eq!(rp_id, "example.com");
        }
        other => panic!("unexpected {other:?}"),
    }
}

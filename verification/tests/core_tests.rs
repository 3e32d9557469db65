use mgt::cli::Mgt;
use mgt::commands::CommandName;
use mgt::repo_core::{
    error_if_array_invalid, include_var_valid, is_valid_remote_repo, rebase_upstream_name,
    try_get_repo_name_with_slash_type,
};

#[test]
fn repo_name_from_https_url() {
    let name = try_get_repo_name_with_slash_type(
        &"https://github.com/someuser/somerepo.git".to_string(),
        '/',
    );
    assert_eq!(name, "somerepo");
}

#[test]
fn repo_name_survives_trailing_slash() {
    let name =
        try_get_repo_name_with_slash_type(&"https://github.com/someuser/somerepo/".to_string(), '/');
    assert_eq!(name, "somerepo");
}

#[test]
fn remote_with_whitespace_counts_invalid() {
    // the parser guard admits printable ASCII without spaces only, so a
    // space anywhere makes the remote count as invalid
    let remote = "https://github.com/someuser/somerepo/  ".to_string();
    assert!(!is_valid_remote_repo(&remote));
    assert_eq!(try_get_repo_name_with_slash_type(&remote, '/'), "");
}

#[test]
fn guarded_remotes_do_not_reach_the_parser() {
    // inputs on which this parser version would panic count as invalid
    for remote in [
        "https://dev.azure.com/a/b",
        "https://DEV.AZURE.COM/a/b",
        "ssh://ssh.dev.azure.com/a",
        "ssh:a",
        "ssh://host/?x",
        "ssh://host/.",
        "ssh://host/a/..",
        "host:.",
    ] {
        let remote = remote.to_string();
        assert!(!is_valid_remote_repo(&remote));
        assert_eq!(try_get_repo_name_with_slash_type(&remote, '/'), "");
    }
}

#[test]
fn repo_name_empty_for_unparseable_remote() {
    // a null byte is rejected by the url normalizer outright
    let remote = "https://github.com/user/re\0po.git".to_string();
    assert!(!is_valid_remote_repo(&remote));
    let name = try_get_repo_name_with_slash_type(&remote, '/');
    assert_eq!(name, "");
}

#[test]
fn repo_name_empty_without_slash() {
    // parses as an scp-like git url, but carries no slash of this kind
    let name = try_get_repo_name_with_slash_type(&"host:somerepo".to_string(), '\\');
    assert_eq!(name, "");
}

#[test]
fn include_array_validity() {
    let one = vec!["a".to_string()];
    assert!(include_var_valid(&one, true));
    assert!(!include_var_valid(&one, false));
    let two = vec!["a".to_string(), "b".to_string()];
    assert!(include_var_valid(&two, true));
    assert!(include_var_valid(&two, false));
    let three = vec!["a".to_string(), "b".to_string(), "c".to_string()];
    assert!(!include_var_valid(&three, false));
    let none: Vec<String> = vec![];
    assert!(!include_var_valid(&none, true));
}

#[test]
fn array_errors_name_the_variable() {
    let three = Some(vec!["a".to_string(), "b".to_string(), "c".to_string()]);
    let err = error_if_array_invalid(&three, false, "include_as").unwrap_err();
    assert_eq!(err.varname, "include_as");
    assert!(error_if_array_invalid(&None, false, "include_as").is_ok());
    let two = Some(vec!["a".to_string(), "b".to_string()]);
    assert!(error_if_array_invalid(&two, false, "include_as").is_ok());
}

#[test]
fn mgt_options_start_empty() {
    let mgt = Mgt::new();
    assert!(!mgt.dry_run);
    assert!(!mgt.verbose);
    assert!(!mgt.help);
    assert!(!mgt.version);
    assert!(mgt.command.is_none());
}

#[test]
fn command_names_round_trip() {
    for cmd in [CommandName::SplitInAs, CommandName::SplitIn, CommandName::SplitOut] {
        let name = cmd.name();
        assert_eq!(CommandName::from_name(name), cmd);
        assert!(!cmd.description().is_empty());
    }
    assert_eq!(CommandName::from_name("who-knows"), CommandName::UnknownCommand);
    assert_eq!(CommandName::UnknownCommand.name(), "");
}

#[test]
fn description_matches_command() {
    assert_eq!(
        CommandName::SplitOut.description(),
        "rewrite this repository history onto a new branch such that it only contains certain paths according to a repo-file"
    );
}

#[test]
fn rebase_upstream_strips_every_heads_prefix() {
    assert_eq!(rebase_upstream_name("refs/heads/main"), "main");
    assert_eq!(rebase_upstream_name("main"), "main");
    assert_eq!(rebase_upstream_name("refs/heads/refs/heads/x"), "x");
    assert_eq!(rebase_upstream_name(""), "");
}

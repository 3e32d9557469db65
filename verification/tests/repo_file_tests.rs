use mgt::repo_file::{parse_repo_file_from_toml_lines, RepoFile};

fn parse_from_lines(toml_str: &str) -> RepoFile {
    let lines: Vec<String> = toml_str.split('\n').map(|s| s.to_string()).collect();
    parse_repo_file_from_toml_lines(lines)
}

#[test]
fn toml_parse_repo_quotes_dont_matter() {
    let toml_str1 = r#"
            [repo]
            "name" = "hello"
            "remote" = "https://githost.com/repo"
        "#;
    let toml_str2 = r#"
            [repo]
            name = "hello"
            remote = "https://githost.com/repo"
        "#;
    let repofile1 = parse_from_lines(toml_str1);
    let repofile2 = parse_from_lines(toml_str2);
    assert_eq!(repofile1, repofile2);
    println!("{:#?}", repofile1);
}

#[test]
fn toml_parse_remote_branch() {
    let toml_str = r#"
            [repo]
            branch="something"
        "#;
    let repofile = parse_from_lines(toml_str);
    assert_eq!(repofile.remote_branch.unwrap(), "something");
}

#[test]
fn toml_should_return_repo_file_obj() {
    let toml_str = r#"
            [repo]
            remote = "something"
            [include_as]
            "one/x/y/" = "two/x/y/"
            "three/a/b" = "four/a/b"


            exclude = ["abc"]
            include = ["xyz", "qqq", "www"]
        "#;
    let mut expectedrepofileobj = RepoFile::new();
    expectedrepofileobj.remote_repo = Some("something".into());
    expectedrepofileobj.include_as = Some(vec![
        "one/x/y/".into(),
        "two/x/y/".into(),
        "three/a/b".into(),
        "four/a/b".into(),
    ]);
    expectedrepofileobj.exclude = Some(vec!["abc".into()]);
    expectedrepofileobj.include_paths = Some(vec!["xyz".into(), "qqq".into(), "www".into()]);
    let repofileobj = parse_from_lines(toml_str);
    assert_eq!(expectedrepofileobj, repofileobj);
}

#[test]
fn toml_space_parse_workd() {
    let toml_str = r#"
            [include_as]
            " " = "some path/lib/"
            "something/else" = " "
        "#;
    let repofile = parse_from_lines(toml_str);
    let include_as = repofile.include_as.unwrap();
    assert_eq!(include_as.len(), 4);
    assert_eq!(include_as[0], " ");
    assert_eq!(include_as[1], "some path/lib/");
    assert_eq!(include_as[2], "something/else");
    assert_eq!(include_as[3], " ");
}

#[test]
fn toml_comments_not_included() {
    let toml_str = r#"
            [repo]
            name = "somename"
            # comment1
            # comment2
            # comment3
            branch = "somebranch"
        "#;
    let repofile = parse_from_lines(toml_str);
    assert_eq!(repofile.repo_name.unwrap(), "somename");
    assert_eq!(repofile.remote_branch.unwrap(), "somebranch");
}

#[test]
fn toml_line_is_break_only_for_space_lines() {
    assert!(mgt::repo_file::line_is_break(&"".to_string()));
    assert!(mgt::repo_file::line_is_break(&"   ".to_string()));
    assert!(!mgt::repo_file::line_is_break(&"  x ".to_string()));
}

#[test]
fn toml_later_segment_overrides_earlier() {
    let toml_str = r#"
            [repo]
            name = "first"
            name = "second"
        "#;
    let repofile = parse_from_lines(toml_str);
    // a repeated key is rejected by the TOML parser, so the whole segment
    // is skipped and nothing is set
    assert_eq!(repofile.repo_name, None);
    let toml_two = r#"
            [repo]
            name = "first"


            [repo]
            name = "second"
        "#;
    let repofile2 = parse_from_lines(toml_two);
    assert_eq!(repofile2.repo_name.unwrap(), "second");
}

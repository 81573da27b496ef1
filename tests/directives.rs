use pankat::article::ArticleWithTags;
use pankat::directive::{eval_plugins, eval_plugins_reporting, exec_plugin, DirectiveFailure, PluginError};

fn example() -> ArticleWithTags {
    ArticleWithTags::new("example.mdwn".to_string(), String::new())
}

#[test]
fn test_title() {
    let input = "hi!\n[[!title Test Title  ]]\n".to_string();
    let expected_output = "hi!\n\n".to_string();
    let mut article = example();
    let mut article_expected = example();
    article_expected.title = Some("Test Title".to_string());
    let result = eval_plugins(&input, &mut article);
    assert!(result.is_ok());
    assert_eq!(result.unwrap(), expected_output);
    assert_eq!(article, article_expected);
}

#[test]
fn test_draft() {
    let input = "hi!\n[[!draft]]\n".to_string();
    let expected_output = "hi!\n\n".to_string();
    let mut article = example();
    let mut article_expected = example();
    article_expected.draft = Some(true);
    let result = eval_plugins(&input, &mut article);
    assert!(result.is_ok());
    assert_eq!(result.unwrap(), expected_output);
    assert_eq!(article, article_expected);
}

#[test]
fn test_specialpage() {
    let input = "hi!\n[[!specialpage]]\n".to_string();
    let expected_output = "hi!\n\n".to_string();
    let mut article = example();
    let mut article_expected = example();
    article_expected.special_page = Some(true);
    let result = eval_plugins(&input, &mut article);
    assert!(result.is_ok());
    assert_eq!(result.unwrap(), expected_output);
    assert_eq!(article, article_expected);
}

#[test]
fn test_meta() {
    let input = "hi!\n[[!meta date=\"2024-07-19 14:33\"]]\n".to_string();
    let expected_output = "hi!\n\n".to_string();
    let mut article = example();
    let parsed_time = chrono::NaiveDateTime::parse_from_str("2024-07-19 14:33", "%Y-%m-%d %H:%M")
        .unwrap()
        .and_utc()
        .timestamp();
    assert_eq!(parsed_time, 1721399580);
    let mut article_expected = example();
    article_expected.modification_date = Some(parsed_time);
    let result = eval_plugins(&input, &mut article);
    assert!(result.is_ok());
    assert_eq!(result.unwrap(), expected_output);
    assert_eq!(article, article_expected);
}

#[test]
fn test_series() {
    let input = "hi!\n[[!series   asdf ]]\n".to_string();
    let expected_output = "hi!\n\n".to_string();
    let mut article = example();
    let mut article_expected = example();
    article_expected.series = Some("asdf".to_string());
    let result = eval_plugins(&input, &mut article);
    assert!(result.is_ok());
    assert_eq!(result.unwrap(), expected_output);
    assert_eq!(article, article_expected);
}

#[test]
fn test_tag() {
    let input = "hi!\n[[!tag   foo bar asdf]]\n".to_string();
    let expected_output = "hi!\n\n".to_string();
    let mut article = example();
    let mut article_expected = example();
    article_expected.tags = Some(vec!["foo".to_string(), "bar".to_string(), "asdf".to_string()]);
    let result = eval_plugins(&input, &mut article);
    assert!(result.is_ok());
    assert_eq!(result.unwrap(), expected_output);
    assert_eq!(article, article_expected);
}

#[test]
fn test_summary() {
    let input = "hi!\n[[!summary   foo bar asdf  ]]\n".to_string();
    let expected_output = "hi!\n\n".to_string();
    let mut article = example();
    let mut article_expected = example();
    article_expected.summary = Some("foo bar asdf".to_string());
    let result = eval_plugins(&input, &mut article);
    assert!(result.is_ok());
    assert_eq!(result.unwrap(), expected_output);
    assert_eq!(article, article_expected);
}

#[test]
fn test_img() {
    let input = r#"
        hi!
        [[!img media/nlnet-logo.gif class="noFancy" style="float: right"]]
        abab
        [[!img posts/libnix/Nix_snowflake_windows.svg class="noFancy" style="float: right" width="200px"]]
        "#
    .to_string();

    let expected_output = r#"
        hi!
        <a href="media/nlnet-logo.gif"><img src="media/nlnet-logo.gif" class="noFancy" style="float: right"></a>
        abab
        <a href="posts/libnix/Nix_snowflake_windows.svg"><img src="posts/libnix/Nix_snowflake_windows.svg" class="noFancy" style="float: right" width="200px"></a>
        "#
    .to_string();
    let mut article = example();
    let article_expected = example();
    let result = eval_plugins(&input, &mut article);
    assert!(result.is_ok());
    assert_eq!(expected_output, result.unwrap());
    assert_eq!(article, article_expected);
}

#[test]
fn unsupported_directive_stays_verbatim_and_is_reported() {
    let input = "a [[!frobnicate x]] b [[!draft]]";
    let mut article = example();
    let mut failures: Vec<DirectiveFailure> = Vec::new();
    let out = eval_plugins_reporting(input, &mut article, &mut failures);
    assert_eq!(out, "a [[!frobnicate x]] b ");
    assert_eq!(article.draft, Some(true));
    assert_eq!(failures, vec![DirectiveFailure { start: 2, error: PluginError::Unsupported }]);
}

#[test]
fn argument_with_tab_is_malformed() {
    let input = "[[!title a\tb]]";
    let mut article = example();
    let mut failures: Vec<DirectiveFailure> = Vec::new();
    let out = eval_plugins_reporting(input, &mut article, &mut failures);
    assert_eq!(out, input);
    assert_eq!(article.title, None);
    assert_eq!(failures[0].error, PluginError::InvalidArgument);
}

#[test]
fn directive_across_lines_is_not_a_directive() {
    let input = "[[!title a\nb]] rest";
    let mut article = example();
    let out = eval_plugins(input, &mut article).unwrap();
    assert_eq!(out, input);
    assert_eq!(article.title, None);
}

#[test]
fn undecodable_directive() {
    let mut article = example();
    assert_eq!(exec_plugin("[[!foo-bar]]", &mut article), Err(PluginError::Undecodable));
    assert_eq!(exec_plugin("[[! title x]]", &mut article), Err(PluginError::Undecodable));
    assert_eq!(exec_plugin("no directive", &mut article), Err(PluginError::Undecodable));
    assert_eq!(article, example());
}

#[test]
fn directive_names_ignore_case() {
    let mut article = example();
    assert_eq!(exec_plugin("[[!TiTle  Hello  World ]]", &mut article), Ok(String::new()));
    assert_eq!(article.title, Some("Hello  World".to_string()));
}

#[test]
fn meta_without_timestamp_is_rejected() {
    let mut article = example();
    assert_eq!(exec_plugin("[[!meta date=\"yesterday\"]]", &mut article), Err(PluginError::InvalidArgument));
    assert_eq!(exec_plugin("[[!meta date=\"2024-13-45 99:99\"]]", &mut article), Err(PluginError::InvalidArgument));
    assert_eq!(article.modification_date, None);
}

#[test]
fn img_without_attributes() {
    let mut article = example();
    assert_eq!(exec_plugin("[[!img a.png]]", &mut article), Ok("<a href=\"a.png\"><img src=\"a.png\" ></a>".to_string()));
}

#[test]
fn every_directive_rejects_tabs() {
    for input in ["[[!img a.png\tclass=\"x\"]]", "[[!draft a\tb]]", "[[!specialpage a\tb]]", "[[!meta x\t2024-07-19 14:33]]"] {
        let mut article = example();
        let mut failures: Vec<DirectiveFailure> = Vec::new();
        let out = eval_plugins_reporting(input, &mut article, &mut failures);
        assert_eq!(out, input);
        assert_eq!(article, example());
        assert_eq!(failures, vec![DirectiveFailure { start: 0, error: PluginError::InvalidArgument }]);
    }
}

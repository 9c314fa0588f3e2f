use vscode_launcher::parsing::{parse_dotenv, parse_dotenv_line, trim_str};
use vscode_launcher::text::{
    clean_launch_text, is_comment_line, split_lines_exec, substitute_token, workspace_token_str,
};
use vscode_launcher::model::env_lookup;

#[test]
fn split_lines_basic() {
    let r = split_lines_exec("a\nb\n");
    assert_eq!(r, vec!["a".to_string(), "b".to_string()]);
}

#[test]
fn split_lines_crlf_and_empty() {
    let r = split_lines_exec("a\r\n\nb");
    assert_eq!(r, vec!["a".to_string(), "".to_string(), "b".to_string()]);
}

#[test]
fn split_lines_empty_text() {
    let r = split_lines_exec("");
    assert!(r.is_empty());
}

#[test]
fn split_lines_lone_cr_kept() {
    let r = split_lines_exec("a\rb");
    assert_eq!(r, vec!["a\rb".to_string()]);
}

#[test]
fn comment_line_detection() {
    assert!(is_comment_line("// comment"));
    assert!(is_comment_line("   \t// indented comment"));
    assert!(!is_comment_line("code // trailing comment"));
    assert!(!is_comment_line("/ not a comment"));
    assert!(!is_comment_line(""));
}

#[test]
fn comment_lines_are_stripped_exactly() {
    let text = "{\n// top comment\n\"a\": 1\n   // indented comment\n}";
    let cleaned = clean_launch_text(text, "/ws");
    assert_eq!(cleaned, "{\"a\": 1}");
}

#[test]
fn mid_line_comment_marker_is_preserved() {
    let text = "\"url\": \"http://example\"\n// gone\n";
    let cleaned = clean_launch_text(text, "/ws");
    assert_eq!(cleaned, "\"url\": \"http://example\"");
}

#[test]
fn token_constant_text() {
    assert_eq!(workspace_token_str(), "${workspaceFolder}");
}

#[test]
fn substitution_replaces_every_occurrence() {
    let line = "cd ${workspaceFolder}/src ${workspaceFolder}";
    assert_eq!(substitute_token(line, "/home/me"), "cd /home/me/src /home/me");
}

#[test]
fn substitution_replaces_occurrences_across_lines() {
    let text = "\"program\": \"${workspaceFolder}/main.py\",\n\"cwd\": \"${workspaceFolder}\"";
    let cleaned = clean_launch_text(text, "/w");
    assert_eq!(cleaned, "\"program\": \"/w/main.py\",\"cwd\": \"/w\"");
}

#[test]
fn substitution_leaves_plain_text_alone() {
    assert_eq!(substitute_token("no token here", "/ws"), "no token here");
}

#[test]
fn trim_removes_surrounding_whitespace() {
    assert_eq!(trim_str("  key\t"), "key");
    assert_eq!(trim_str("\t \r"), "");
    assert_eq!(trim_str("a b"), "a b");
}

#[test]
fn dotenv_quoted_value_is_unquoted() {
    let r = parse_dotenv_line("KEY=\"value\"").unwrap();
    assert_eq!(r.0, "KEY");
    assert_eq!(r.1, "value");
}

#[test]
fn dotenv_plain_value_is_kept() {
    let r = parse_dotenv_line("KEY=value").unwrap();
    assert_eq!(r.0, "KEY");
    assert_eq!(r.1, "value");
}

#[test]
fn dotenv_single_quote_char_value_is_kept() {
    let r = parse_dotenv_line("KEY=\"").unwrap();
    assert_eq!(r.1, "\"");
}

#[test]
fn dotenv_quotes_preserve_inner_spacing() {
    let r = parse_dotenv_line("KEY=  \" a \"  ").unwrap();
    assert_eq!(r.1, " a ");
}

#[test]
fn dotenv_line_without_equals_is_skipped() {
    assert!(parse_dotenv_line("just some text").is_none());
}

#[test]
fn dotenv_empty_key_is_skipped() {
    assert!(parse_dotenv_line("=value").is_none());
    assert!(parse_dotenv_line("   =value").is_none());
}

#[test]
fn dotenv_later_duplicate_overwrites_earlier() {
    let env = parse_dotenv("A=1\nA=2\nB= spaced \n");
    assert_eq!(env_lookup(&env, "A").unwrap(), "2");
    assert_eq!(env_lookup(&env, "B").unwrap(), "spaced");
    assert!(env_lookup(&env, "C").is_none());
}

#[test]
fn dotenv_value_with_equals_splits_on_first() {
    let env = parse_dotenv("URL=http://h?a=b");
    assert_eq!(env_lookup(&env, "URL").unwrap(), "http://h?a=b");
}

#[test]
fn cleaned_text_is_valid_json_for_the_deserializer() {
    let text = "{\n    // the launch configurations of this workspace\n    \"version\": \"0.2.0\",\n    \"configurations\": [\n        {\n            \"name\": \"run // main\",\n            \"type\": \"debugpy\",\n            \"request\": \"launch\",\n            // interpreter comes from the venv\n            \"python\": \"${workspaceFolder}/venv/bin/python\",\n            \"program\": \"${workspaceFolder}/main.py\"\n        }\n    ]\n}\n";
    let cleaned = clean_launch_text(text, "/home/me/proj");
    let value: serde_json::Value = serde_json::from_str(&cleaned).unwrap();
    let config = &value["configurations"][0];
    assert_eq!(config["name"], "run // main");
    assert_eq!(config["python"], "/home/me/proj/venv/bin/python");
    assert_eq!(config["program"], "/home/me/proj/main.py");
}

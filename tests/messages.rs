use gitsc::analyzer::analyze_diff;
use gitsc::config::SmartCommitConfig;
use gitsc::formatter::format_commit_message;
use gitsc::repository::{parse_commit_message, CommitMessage};

fn msg(t: &str, s: Option<&str>, m: &str) -> CommitMessage {
    CommitMessage { commit_type: t.to_string(), scope: s.map(|x| x.to_string()), message: m.to_string() }
}

#[test]
fn parse_type_scope_message() {
    assert_eq!(parse_commit_message("feat(core): add caching layer"), msg("feat", Some("core"), "add caching layer"));
}

#[test]
fn parse_without_scope() {
    assert_eq!(parse_commit_message("fix: correct off-by-one"), msg("fix", None, "correct off-by-one"));
}

#[test]
fn parse_without_colon() {
    assert_eq!(parse_commit_message("just text"), msg("just text", None, ""));
}

#[test]
fn parse_unclosed_scope() {
    assert_eq!(parse_commit_message("feat(core: x"), msg("feat", Some("core"), "x"));
}

#[test]
fn parse_unclosed_scope_keeps_text() {
    assert_eq!(parse_commit_message("feat(core: add x"), msg("feat", Some("core"), "add x"));
    assert_eq!(parse_commit_message("feat(: add x"), msg("feat", Some(""), "add x"));
}

#[test]
fn parse_splits_at_first_colon_only() {
    assert_eq!(parse_commit_message("  docs(api) :  a: b  "), msg("docs", Some("api"), "a: b"));
}

#[test]
fn format_with_scope() {
    let c = msg("feat", Some("ai"), "add provider");
    assert_eq!(format_commit_message(&c, "{type}({scope}): {message}"), "feat(ai): add provider");
}

#[test]
fn format_without_scope() {
    let c = msg("feat", None, "add provider");
    assert_eq!(format_commit_message(&c, "{type}({scope}): {message}"), "feat: add provider");
}

#[test]
fn format_with_empty_scope() {
    let c = msg("fix", Some(""), "typo");
    assert_eq!(format_commit_message(&c, "{type}({scope}): {message}"), "fix: typo");
    assert_eq!(format_commit_message(&c, " {scope} {type}  {message} "), "fix typo");
}

fn numbered_lines(n: usize) -> String {
    let mut s = String::new();
    for i in 0..n {
        s.push_str(&format!("line {}\n", i));
    }
    s
}

#[test]
fn truncates_long_diff() {
    let d = numbered_lines(200);
    let out = analyze_diff(&d, &SmartCommitConfig { line_threshold: 150 });
    let mut expected = String::new();
    for i in 0..150 {
        if i > 0 {
            expected.push('\n');
        }
        expected.push_str(&format!("line {}", i));
    }
    expected.push_str("\n... [Diff truncated to 150 lines] ...");
    assert_eq!(out, expected);
}

#[test]
fn short_diff_unchanged() {
    let d = numbered_lines(150);
    assert_eq!(analyze_diff(&d, &SmartCommitConfig { line_threshold: 150 }), d);
}

#[test]
fn zero_threshold() {
    assert_eq!(analyze_diff("a\nb", &SmartCommitConfig { line_threshold: 0 }), "\n... [Diff truncated to 0 lines] ...");
}

use unslop::report::{display_path, format_file_issues, short_rule_id};
use unslop::rule::{Issue, Severity};

fn iss(rule: &str, msg: &str, line: usize, column: usize) -> Issue {
    Issue::new(rule, msg, line, column, Severity::Error)
}

#[test]
fn groups_identical_rule_and_message() {
    let issues = vec![
        iss("prh", "worker => ワーカー", 1, 2),
        iss("prh", "worker => ワーカー", 3, 4),
        iss("prh", "worker => ワーカー", 10, 1),
    ];
    assert_eq!(format_file_issues("a.md", &issues), "a.md\n1:2,3:4,10:1 prh worker => ワーカー\n");
}

#[test]
fn dedupes_repeated_identical_location() {
    let issues = vec![iss("prh", "trigger => トリガー", 23, 36), iss("prh", "trigger => トリガー", 23, 36)];
    assert_eq!(format_file_issues("a.md", &issues), "a.md\n23:36 prh trigger => トリガー\n");
}

#[test]
fn same_rule_different_message_not_merged() {
    let issues = vec![iss("prh", "worker => ワーカー", 1, 1), iss("prh", "commit => コミット", 2, 1)];
    assert_eq!(
        format_file_issues("a.md", &issues),
        "a.md\n1:1 prh worker => ワーカー\n2:1 prh commit => コミット\n"
    );
}

#[test]
fn different_rule_same_message_not_merged() {
    let issues = vec![iss("rule-a", "同じ文言", 1, 1), iss("rule-b", "同じ文言", 2, 1)];
    assert_eq!(format_file_issues("a.md", &issues), "a.md\n1:1 rule-a 同じ文言\n2:1 rule-b 同じ文言\n");
}

#[test]
fn groups_ordered_by_first_occurrence() {
    let issues = vec![
        iss("rule-a", "メッセージA", 1, 1),
        iss("rule-b", "メッセージB", 2, 1),
        iss("rule-a", "メッセージA", 5, 1),
    ];
    assert_eq!(
        format_file_issues("a.md", &issues),
        "a.md\n1:1,5:1 rule-a メッセージA\n2:1 rule-b メッセージB\n"
    );
}

#[test]
fn shortens_preset_rule_id() {
    let issues = vec![iss("@textlint-ja/preset-ai-writing/no-ai-list-formatting", "msg", 9, 1)];
    assert_eq!(format_file_issues("a.md", &issues), "a.md\n9:1 no-ai-list-formatting msg\n");
}

#[test]
fn replaces_newline_in_message() {
    let issues = vec![iss("r", "前半\n後半", 1, 1)];
    assert_eq!(format_file_issues("a.md", &issues), "a.md\n1:1 r 前半 後半\n");
}

#[test]
fn empty_issues_returns_empty_string() {
    assert_eq!(format_file_issues("a.md", &[]), "");
}

#[test]
fn display_path_relativizes_under_cwd() {
    assert_eq!(display_path("/proj/docs/a.md", Some("/proj")), "docs/a.md");
}

#[test]
fn display_path_keeps_path_outside_cwd() {
    assert_eq!(display_path("/tmp/x.md", Some("/proj")), "/tmp/x.md");
}

#[test]
fn display_path_keeps_path_without_cwd() {
    assert_eq!(display_path("/proj/a.md", None), "/proj/a.md");
}

#[test]
fn display_path_keeps_relative_input() {
    assert_eq!(display_path("docs/a.md", Some("/proj")), "docs/a.md");
}

#[test]
fn display_path_does_not_strip_partial_component() {
    assert_eq!(display_path("/project/a.md", Some("/proj")), "/project/a.md");
}

#[test]
fn display_path_of_cwd_itself_is_kept() {
    assert_eq!(display_path("/proj", Some("/proj")), "/proj");
}

#[test]
fn short_rule_id_keeps_plain_id() {
    assert_eq!(short_rule_id("prh"), "prh");
    assert_eq!(short_rule_id("a/b/c"), "c");
}

#[test]
fn only_line_feeds_in_message_are_replaced() {
    let issues = vec![iss("r", "a\r\nb", 2, 3)];
    assert_eq!(format_file_issues("x.md", &issues), "x.md\n2:3 r a\r b\n");
}

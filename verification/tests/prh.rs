use unslop::document::Document;
use unslop::rule::Rule;
use unslop::rules::prh::{case_merge, Prh, PrhError, PrhRule};

fn prh_of(expected: &str, pattern: &str) -> Prh {
    Prh::from_rules(vec![PrhRule { expected: expected.to_string(), pattern: pattern.to_string() }])
        .expect("valid dictionary")
}

fn prh_worker() -> Prh {
    prh_of("ワーカー", r"\bworker\b")
}

fn prh_ascii_process() -> Prh {
    prh_of("process", r"/\bworker\b/i")
}

fn messages(src: &str) -> Vec<(usize, String)> {
    let doc = Document::parse(src);
    prh_worker().check(&doc).into_iter().map(|i| (i.line, i.message)).collect()
}

fn first_fix_replacement(rule: &Prh, src: &str) -> Option<String> {
    let doc = Document::parse(src);
    rule.check(&doc).into_iter().next().and_then(|i| i.fix.map(|f| f.replacement))
}

#[test]
fn flags_plain_text() {
    let got = messages("これは worker です。");
    assert_eq!(got.len(), 1);
    assert_eq!(got[0].1, "worker => ワーカー");
}

#[test]
fn skips_inline_code_span() {
    assert!(messages("これは `worker` です。").is_empty());
}

#[test]
fn skips_double_backtick_code_span() {
    assert!(messages("これは ``worker`` です。").is_empty());
}

#[test]
fn skips_fenced_code_block() {
    assert!(messages("```\nworker\n```\n").is_empty());
}

#[test]
fn flags_plain_but_skips_code_span_when_mixed() {
    let got = messages("地の worker と `worker` を併記する。");
    assert_eq!(got.len(), 1, "got = {got:?}");
    assert_eq!(got[0].1, "worker => ワーカー");
}

#[test]
fn skips_code_span_nested_in_emphasis() {
    assert!(messages("これは *`worker`* です。").is_empty());
}

#[test]
fn fix_replaces_with_japanese_expected() {
    let got = first_fix_replacement(&prh_worker(), "これは worker です。");
    assert_eq!(got.as_deref(), Some("ワーカー"));
}

#[test]
fn case_merge_lower() {
    assert_eq!(case_merge("worker", "process", true), "process");
}

#[test]
fn case_merge_upper() {
    assert_eq!(case_merge("WORKER", "process", true), "PROCESS");
}

#[test]
fn case_merge_title() {
    assert_eq!(case_merge("Worker", "process", true), "Process");
}

#[test]
fn case_merge_mixed_skips() {
    assert_eq!(case_merge("wOrker", "process", true), "process");
}

#[test]
fn case_merge_japanese_expected_unchanged() {
    assert_eq!(case_merge("Worker", "ワーカー", false), "ワーカー");
}

#[test]
fn fix_propagates_title_case_to_ascii_expected() {
    let got = first_fix_replacement(&prh_ascii_process(), "Worker is here.");
    assert_eq!(got.as_deref(), Some("Process"));
}

#[test]
fn fix_propagates_upper_case_to_ascii_expected() {
    let got = first_fix_replacement(&prh_ascii_process(), "WORKER is here.");
    assert_eq!(got.as_deref(), Some("PROCESS"));
}

#[test]
fn fix_propagates_lower_case_to_ascii_expected() {
    let got = first_fix_replacement(&prh_ascii_process(), "the worker now.");
    assert_eq!(got.as_deref(), Some("process"));
}

#[test]
fn no_issue_when_already_matches_merged() {
    let doc = Document::parse("the process now.");
    let issues = prh_ascii_process().check(&doc);
    assert!(issues.is_empty());
}

#[test]
fn case_merge_without_letters_keeps_expected() {
    assert_eq!(case_merge("123", "process", true), "process");
}

#[test]
fn case_merge_title_lowers_rest_of_expected() {
    assert_eq!(case_merge("Worker", "proCESS", true), "Process");
}

#[test]
fn invalid_pattern_is_refused() {
    let r = Prh::from_rules(vec![PrhRule { expected: "x".to_string(), pattern: "(".to_string() }]);
    assert_eq!(r.err(), Some(PrhError::InvalidPattern("(".to_string())));
}

#[test]
fn fix_range_covers_match_bytes() {
    let src = "これは worker です。";
    let doc = Document::parse(src);
    let issues = prh_worker().check(&doc);
    let f = issues[0].fix.clone().unwrap();
    assert_eq!(&src[f.range.clone()], "worker");
    assert_eq!(issues[0].line, 1);
    assert_eq!(issues[0].column, 5);
}

#[test]
fn prh_rule_id() {
    assert_eq!(prh_worker().id(), "prh");
}

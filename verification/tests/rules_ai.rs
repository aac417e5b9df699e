use unslop::document::Document;
use unslop::rule::{Issue, Rule};
use unslop::rules::ai_writing::ai_tech_writing_guideline::AiTechWritingGuideline;
use unslop::rules::ai_writing::no_ai_list_formatting::NoAiListFormatting;

fn run<R: Rule>(rule: &R, src: &str) -> Vec<Issue> {
    let doc = Document::parse(src);
    rule.check(&doc)
}

#[test]
fn summary_no_longer_emitted() {
    let issues = run(&AiTechWritingGuideline, "まず最初に設定ファイルを開きます。\n");
    assert_eq!(issues.len(), 1);
    assert!(issues[0].message.starts_with("【簡潔性】"));
}

#[test]
fn no_summary_when_multiple_individual_issues() {
    for i in &run(&AiTechWritingGuideline, "まず最初にすることができます。\n") {
        assert!(!i.message.contains("品質分析"), "summary should not appear: {}", i.message);
    }
}

fn list_messages(src: &str) -> Vec<String> {
    run(&NoAiListFormatting, src).into_iter().map(|i| i.message).collect()
}

#[test]
fn bold_colon_no_longer_detected() {
    assert!(list_messages("- **重要**: これは重要な項目です\n").is_empty());
    assert!(list_messages("- **重要情報**：これは重要な項目です\n").is_empty());
}

#[test]
fn bold_dash_still_detected() {
    assert_eq!(list_messages("- **重要** — 説明文がここに入る\n").len(), 1);
}

#[test]
fn emoji_still_detected() {
    assert_eq!(list_messages("- ✅ チェック項目\n").len(), 1);
}

#[test]
fn bold_dash_in_code_span_skipped() {
    assert!(list_messages("- `**foo** — bar`\n").is_empty());
}

#[test]
fn emoji_in_code_span_skipped() {
    assert!(list_messages("- `✅` チェック項目\n").is_empty());
}

use unslop::document::Document;
use unslop::rule::{Issue, Rule};
use unslop::rules::ja_spacing::ja_no_space_between_full_width::JaNoSpaceBetweenFullWidth;
use unslop::rules::ja_spacing::ja_space_between_half_and_full_width::JaSpaceBetweenHalfAndFullWidth;

fn run<R: Rule>(rule: &R, src: &str) -> Vec<Issue> {
    let doc = Document::parse(src);
    rule.check(&doc)
}

fn first_fix_applied<R: Rule>(rule: &R, src: &str) -> String {
    let f = run(rule, src).into_iter().next().unwrap().fix.unwrap();
    let mut buf = src.to_string();
    buf.replace_range(f.range, &f.replacement);
    buf
}

#[test]
fn detects_hiragana_katakana_boundary() {
    assert_eq!(run(&JaNoSpaceBetweenFullWidth, "これは ダメ\n").len(), 1);
}

#[test]
fn ignores_katakana_compound() {
    assert_eq!(run(&JaNoSpaceBetweenFullWidth, "ユーザー インターフェース\n").len(), 0);
}

#[test]
fn katakana_to_katakana_in_compound_excluded() {
    assert_eq!(run(&JaNoSpaceBetweenFullWidth, "ア イ\n").len(), 0);
}

#[test]
fn detects_two_occurrences() {
    assert_eq!(run(&JaNoSpaceBetweenFullWidth, "同じ トランザクション で\n").len(), 2);
}

#[test]
fn ignores_half_width_neighbour() {
    assert_eq!(run(&JaNoSpaceBetweenFullWidth, "This is 大丈夫\n").len(), 0);
}

#[test]
fn ja_no_space_between_full_width_skips_code_span() {
    assert_eq!(run(&JaNoSpaceBetweenFullWidth, "`これは ダメ` というのは正しい\n").len(), 0);
}

#[test]
fn fix_removes_single_space() {
    assert_eq!(first_fix_applied(&JaNoSpaceBetweenFullWidth, "これは ダメ\n"), "これはダメ\n");
}

#[test]
fn detects_alnum_to_zen() {
    assert_eq!(run(&JaSpaceBetweenHalfAndFullWidth, "JTF標準\n").len(), 1);
}

#[test]
fn detects_zen_to_alnum() {
    assert_eq!(run(&JaSpaceBetweenHalfAndFullWidth, "日本語とenglish\n").len(), 1);
}

#[test]
fn ignores_existing_space() {
    assert_eq!(run(&JaSpaceBetweenHalfAndFullWidth, "JTF 標準\n").len(), 0);
}

#[test]
fn ignores_punctuation_boundary() {
    assert_eq!(run(&JaSpaceBetweenHalfAndFullWidth, "これは、Always\n").len(), 0);
    assert_eq!(run(&JaSpaceBetweenHalfAndFullWidth, "Always。これは\n").len(), 0);
}

#[test]
fn ignores_pure_alnum_sequence() {
    assert_eq!(run(&JaSpaceBetweenHalfAndFullWidth, "This is a pen\n").len(), 0);
}

#[test]
fn ja_space_between_half_and_full_width_skips_code_span() {
    assert_eq!(run(&JaSpaceBetweenHalfAndFullWidth, "`JTF標準` というのは正しい\n").len(), 0);
}

#[test]
fn fix_inserts_space_after_alnum() {
    assert_eq!(first_fix_applied(&JaSpaceBetweenHalfAndFullWidth, "JTF標準\n"), "JTF 標準\n");
}

#[test]
fn fix_inserts_space_after_zen() {
    assert_eq!(first_fix_applied(&JaSpaceBetweenHalfAndFullWidth, "日本語とenglish\n"), "日本語と english\n");
}

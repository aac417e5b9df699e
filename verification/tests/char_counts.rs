use unslop::document::Document;
use unslop::regex::matches_of;
use unslop::rule::{Issue, Rule};
use unslop::rules::ja_spacing::ja_no_space_between_full_width::JaNoSpaceBetweenFullWidth;
use unslop::rules::ja_spacing::ja_space_between_half_and_full_width::JaSpaceBetweenHalfAndFullWidth;
use unslop::rules::jt::ja_no_mixed_period::JaNoMixedPeriod;
use unslop::rules::jt::ja_no_redundant_expression::JaNoRedundantExpression;
use unslop::rules::jt::no_exclamation_question_mark::NoExclamationQuestionMark;
use unslop::rules::jt::sentence_length::SentenceLength;

fn run<R: Rule>(rule: &R, src: &str) -> Vec<Issue> {
    rule.check(&Document::parse(src))
}

#[test]
fn sentence_length_counts_chars() {
    let src = "😀😀😀😀。";
    assert!(run(&SentenceLength { max: 5 }, src).is_empty());
    let issues = run(&SentenceLength { max: 3 }, src);
    assert_eq!(issues.len(), 1);
    assert_eq!(
        issues[0].message,
        "Line 1 sentence length(5) exceeds the maximum sentence length of 3. Over 2 characters."
    );
}

#[test]
fn mark_after_allowed_word_is_reported() {
    assert!(run(&NoExclamationQuestionMark, "Yahoo!\n").is_empty());
    let issues = run(&NoExclamationQuestionMark, "Yahoo!?\n");
    assert_eq!(issues.len(), 1);
    assert_eq!(issues[0].message, "Disallow to use \"?\".");
    assert_eq!(issues[0].column, 7);
}

#[test]
fn segment_start_column_counts_chars() {
    let src = "| あ | い |\n|---|---|\n| う | え |\n\n> あいう\n";
    let doc = Document::parse(src);
    assert!(!doc.segments.is_empty());
    for seg in &doc.segments {
        let line_start = src[..seg.start_byte].rfind('\n').map(|i| i + 1).unwrap_or(0);
        let col = src[line_start..seg.start_byte].chars().count() + 1;
        assert_eq!(seg.start_column, col, "segment {:?}", seg.text);
        assert_eq!(doc.locate(seg.start_byte).1, col);
    }
}

#[test]
fn empty_matches_resume_at_next_char() {
    assert_eq!(matches_of("", "あい"), vec![(0, 0), (3, 3), (6, 6)]);
    assert_eq!(matches_of("(?=い)", "あい"), vec![(3, 3)]);
}

#[test]
fn period_inside_link_destination_is_not_reported() {
    assert!(run(&JaNoMixedPeriod, "詳細は[資料](https://example.com/a．b)を見る。\n").is_empty());
    let issues = run(&JaNoMixedPeriod, "詳細は資料a．bを見る。\n");
    assert_eq!(issues.len(), 1);
    assert_eq!(issues[0].column, 7);
}

#[test]
fn redundant_phrase_inside_link_destination_is_not_reported() {
    assert!(run(&JaNoRedundantExpression, "詳細は[資料](https://example.com/省略することができる)です。\n").is_empty());
    assert_eq!(run(&JaNoRedundantExpression, "詳細は資料で省略することができる。\n").len(), 1);
}

#[test]
fn spacing_inside_link_destination_is_not_reported() {
    assert!(run(&JaSpaceBetweenHalfAndFullWidth, "詳細は[資料](https://example.com/a資料)を見る。\n").is_empty());
    assert_eq!(run(&JaSpaceBetweenHalfAndFullWidth, "詳細はa資料を見る。\n").len(), 2);
}

#[test]
fn space_inside_link_title_is_not_reported() {
    assert!(run(&JaNoSpaceBetweenFullWidth, "詳細は[資料](https://example.com \"資 料\")を見る。\n").is_empty());
    assert_eq!(run(&JaNoSpaceBetweenFullWidth, "詳細は資 料を見る。\n").len(), 1);
}

#[test]
fn bracket_paren_outside_a_link_is_not_excluded() {
    assert_eq!(run(&JaSpaceBetweenHalfAndFullWidth, "説明](a可変)です。\n").len(), 1);
}

#[test]
fn positions_advance_by_char_and_line() {
    let doc = Document::parse("aあ\nb\n");
    assert_eq!(doc.locate(0), (1, 1));
    assert_eq!(doc.locate(1), (1, 2));
    assert_eq!(doc.locate(4), (1, 3));
    assert_eq!(doc.locate(5), (2, 1));
    assert_eq!(doc.locate(6), (2, 2));
}

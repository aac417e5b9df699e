use unslop::document::Document;
use unslop::rule::{Issue, Rule};
use unslop::rules::jt::ja_no_abusage::JaNoAbusage;
use unslop::rules::jt::ja_no_mixed_period::JaNoMixedPeriod;
use unslop::rules::jt::ja_no_redundant_expression::JaNoRedundantExpression;
use unslop::rules::jt::no_hankaku_kana::NoHankakuKana;
use unslop::rules::jt::no_invalid_control_character::NoInvalidControlCharacter;
use unslop::rules::jt::no_nfd::NoNfd;
use unslop::rules::jt::no_unmatched_pair::NoUnmatchedPair;
use unslop::rules::jt::no_zero_width_spaces::NoZeroWidthSpaces;

fn run<R: Rule>(rule: &R, src: &str) -> Vec<Issue> {
    let doc = Document::parse(src);
    rule.check(&doc)
}

fn fix_applied<R: Rule>(rule: &R, src: &str) -> String {
    let mut buf = src.to_string();
    let fixes: Vec<_> = run(rule, src).into_iter().filter_map(|i| i.fix).collect();
    for f in fixes.iter().rev() {
        buf.replace_range(f.range.clone(), &f.replacement);
    }
    buf
}

fn first_fix_applied<R: Rule>(rule: &R, src: &str) -> String {
    let f = run(rule, src).into_iter().next().unwrap().fix.unwrap();
    let mut buf = src.to_string();
    buf.replace_range(f.range, &f.replacement);
    buf
}

#[test]
fn detects_wo_tekiou() {
    assert_eq!(run(&JaNoAbusage, "法律を適応する\n").len(), 1);
}

#[test]
fn ignores_correct_tekiou() {
    assert_eq!(run(&JaNoAbusage, "変化に適応する\n").len(), 0);
}

#[test]
fn detects_kahen_suru() {
    assert_eq!(run(&JaNoAbusage, "ウインドウ幅が可変すると\n").len(), 1);
}

#[test]
fn ignores_kahen_da() {
    assert_eq!(run(&JaNoAbusage, "長さは可変だ\n").len(), 0);
}

#[test]
fn fixes_yomizurai() {
    assert_eq!(fix_applied(&JaNoAbusage, "この本は読みずらい\n"), "この本は読みづらい\n");
}

#[test]
fn fixes_konnichiwa() {
    assert_eq!(fix_applied(&JaNoAbusage, "こんにちわ世界\n"), "こんにちは世界\n");
}

#[test]
fn fixes_uruoboe() {
    assert_eq!(fix_applied(&JaNoAbusage, "これはうる覚えです\n"), "これはうろ覚えです\n");
}

#[test]
fn fixes_henkyaku() {
    assert_eq!(fix_applied(&JaNoAbusage, "関数で値を返却するべき\n"), "関数で値を返すべき\n");
}

#[test]
fn fixes_reigaiwo_hosoku() {
    assert_eq!(fix_applied(&JaNoAbusage, "try で例外を補足する\n"), "try で例外を捕捉する\n");
}

fn period_messages(src: &str) -> Vec<(usize, String)> {
    run(&JaNoMixedPeriod, src).into_iter().map(|i| (i.line, i.message)).collect()
}

#[test]
fn passes_japanese_period() {
    assert!(period_messages("これは正しい文です。").is_empty());
}

#[test]
fn flags_ascii_period() {
    assert_eq!(period_messages("これは混在の文です.").len(), 1);
}

#[test]
fn flags_fullwidth_period() {
    assert_eq!(period_messages("これは混在の文です．").len(), 1);
}

#[test]
fn flags_trailing_colon() {
    assert_eq!(period_messages("以下のとおり:").len(), 1);
}

#[test]
fn passes_question_or_exclamation() {
    assert!(period_messages("本当?").is_empty());
    assert!(period_messages("本当？").is_empty());
}

#[test]
fn skips_code_span_period() {
    assert!(period_messages("呼び出しは `obj.method.`").is_empty());
}

#[test]
fn fix_replaces_with_japanese_period() {
    assert_eq!(first_fix_applied(&JaNoMixedPeriod, "これは混在の文です."), "これは混在の文です。");
}

#[test]
fn detects_suru_koto_ga_kanou() {
    assert_eq!(run(&JaNoRedundantExpression, "これは省略することが可能だ。\n").len(), 1);
}

#[test]
fn detects_suru_koto_ga_dekiru() {
    assert_eq!(run(&JaNoRedundantExpression, "これは省略することができる。\n").len(), 1);
}

#[test]
fn detects_de_aru_to_ieru() {
    assert_eq!(run(&JaNoRedundantExpression, "これは正しいであると言える。\n").len(), 1);
}

#[test]
fn detects_de_aru_to_kangaeteiru() {
    assert_eq!(run(&JaNoRedundantExpression, "妥当であると考えている。\n").len(), 1);
}

#[test]
fn ja_no_redundant_expression_skips_code_span() {
    assert_eq!(run(&JaNoRedundantExpression, "`することが可能` という冗長表現について。\n").len(), 0);
}

#[test]
fn skips_blockquote() {
    assert_eq!(run(&JaNoRedundantExpression, "> これは省略することが可能だ。\n").len(), 0);
}

#[test]
fn fix_converts_simple() {
    assert_eq!(fix_applied(&NoHankakuKana, "ｱｲｳ です"), "アイウ です");
}

#[test]
fn fix_converts_with_dakuten() {
    assert_eq!(fix_applied(&NoHankakuKana, "ｶﾞｷﾞ"), "ガギ");
}

#[test]
fn fix_converts_with_handakuten() {
    assert_eq!(fix_applied(&NoHankakuKana, "ﾊﾟﾋﾟ"), "パピ");
}

#[test]
fn fix_converts_mixed_run() {
    assert_eq!(fix_applied(&NoHankakuKana, "ｲﾝﾌﾗ で動く"), "インフラ で動く");
}

#[test]
fn fix_converts_punctuation() {
    assert_eq!(fix_applied(&NoHankakuKana, "ｱ｢ｲ｣"), "ア「イ」");
}

#[test]
fn fix_replaces_nfd_pair() {
    let src = "ホ\u{309A}ケット";
    let issues = run(&NoNfd, src);
    assert_eq!(issues.len(), 1);
    let f = issues[0].fix.clone().unwrap();
    let mut buf = src.to_string();
    buf.replace_range(f.range, &f.replacement);
    assert_eq!(buf, "ポケット");
}

#[test]
fn unmatched_bracket_detected() {
    assert!(run(&NoUnmatchedPair, "これは「未閉のままです。\n").len() >= 1);
}

#[test]
fn paren_in_code_span_skipped() {
    assert_eq!(run(&NoUnmatchedPair, "関数 `foo(` を呼び出します。\n").len(), 0);
}

#[test]
fn bracket_in_code_span_skipped() {
    assert_eq!(run(&NoUnmatchedPair, "コード `「未閉` を含むテキスト。\n").len(), 0);
}

#[test]
fn unmatched_outside_code_still_detected() {
    assert!(run(&NoUnmatchedPair, "「未閉です `foo` 別文。\n").len() >= 1);
}

#[test]
fn detects_zwsp() {
    assert_eq!(run(&NoZeroWidthSpaces, "あ\u{200B}い").len(), 1);
}

#[test]
fn fix_targets_three_byte_zwsp() {
    let r = run(&NoZeroWidthSpaces, "あ\u{200B}い").into_iter().next().and_then(|i| i.fix.map(|f| f.range));
    let r = r.expect("fix expected");
    assert_eq!(r.end - r.start, '\u{200B}'.len_utf8());
}

#[test]
fn fix_applied_removes_zwsp() {
    assert_eq!(first_fix_applied(&NoZeroWidthSpaces, "あ\u{200B}い"), "あい");
}

#[test]
fn matched_brackets_pass() {
    assert_eq!(run(&NoUnmatchedPair, "これは「閉じた」文です。\n").len(), 0);
}

#[test]
fn zwsp_issue_position() {
    let issues = run(&NoZeroWidthSpaces, "x\n\u{200B}y");
    assert_eq!(issues.len(), 1);
    assert_eq!((issues[0].line, issues[0].column), (2, 1));
}

#[test]
fn control_character_named_and_deleted() {
    let issues = run(&NoInvalidControlCharacter, "hello\u{7}world");
    assert_eq!(issues.len(), 1);
    assert_eq!(issues[0].message, "Found invalid control character(BELL \\u0007)");
    assert_eq!(issues[0].column, 6);
    assert_eq!(first_fix_applied(&NoInvalidControlCharacter, "hello\u{7}world"), "helloworld");
}

#[test]
fn tab_is_not_a_control_character_issue() {
    assert!(run(&NoInvalidControlCharacter, "a\tb").is_empty());
}

use unslop::config::{ConfigValue, TextlintRc};
use unslop::rule::Rule;
use unslop::rules::jt::no_hankaku_kana::NoHankakuKana;
use unslop::rules::jt::no_zero_width_spaces::NoZeroWidthSpaces;
use unslop::rules::prh::{Prh, PrhRule};
use unslop::{choose_rules, fix, lint, option_max, RuleChoice};

fn s(x: &str) -> String {
    x.to_string()
}

fn two_rules() -> Vec<Box<dyn Rule>> {
    vec![Box::new(NoHankakuKana), Box::new(NoZeroWidthSpaces)]
}

#[test]
fn lint_sorts_issues_by_position() {
    let issues = lint("あ\u{200B}ｱ\nｲ\u{200B}", &two_rules());
    let got: Vec<(usize, usize, String)> = issues.iter().map(|i| (i.line, i.column, i.rule_id.clone())).collect();
    assert_eq!(
        got,
        vec![
            (1, 2, s("no-zero-width-spaces")),
            (1, 3, s("no-hankaku-kana")),
            (2, 1, s("no-hankaku-kana")),
            (2, 2, s("no-zero-width-spaces")),
        ]
    );
}

#[test]
fn lint_with_no_rules_is_empty() {
    let rules: Vec<Box<dyn Rule>> = Vec::new();
    assert!(lint("ｱ\u{200B}", &rules).is_empty());
}

#[test]
fn fix_settles_in_one_pass() {
    let r = fix("あ\u{200B}ｱい", &two_rules());
    assert_eq!(r.fixed_source, "あアい");
    assert_eq!(r.applied_fixes.len(), 2);
    assert_eq!(r.passes, 2);
    assert!(!r.hit_max_passes);
    assert!(r.remaining_issues.is_empty());
    assert!(r.applied_fixes.iter().all(|a| a.pass == 1));
}

#[test]
fn fix_without_issues_runs_one_pass() {
    let r = fix("これは正しい。", &two_rules());
    assert_eq!(r.fixed_source, "これは正しい。");
    assert!(r.applied_fixes.is_empty());
    assert_eq!(r.passes, 1);
    assert!(!r.hit_max_passes);
}

#[test]
fn fix_records_rule_of_each_fix() {
    let r = fix("ｱ", &two_rules());
    assert_eq!(r.applied_fixes.len(), 1);
    assert_eq!(r.applied_fixes[0].rule_id, "no-hankaku-kana");
    assert_eq!(r.applied_fixes[0].range, 0..3);
    assert_eq!(r.applied_fixes[0].replacement, "ア");
}

#[test]
fn fix_leaves_overlapping_fixes_unapplied() {
    let d1 = Prh::from_rules(vec![PrhRule { expected: s("abd"), pattern: s("abc") }]).unwrap();
    let d2 = Prh::from_rules(vec![PrhRule { expected: s("XY"), pattern: s("bc") }]).unwrap();
    let rules: Vec<Box<dyn Rule>> = vec![Box::new(d1), Box::new(d2), Box::new(NoHankakuKana)];
    let r = fix("abc ｱ", &rules);
    assert_eq!(r.fixed_source, "abc ア");
    assert_eq!(r.applied_fixes.len(), 1);
    assert_eq!(r.applied_fixes[0].rule_id, "no-hankaku-kana");
    assert_eq!(r.passes, 2);
    assert!(!r.hit_max_passes);
    let left: Vec<String> = r.remaining_issues.iter().map(|i| i.message.clone()).collect();
    assert_eq!(left, vec![s("abc => abd"), s("bc => xy")]);
}

fn obj(entries: Vec<(&str, ConfigValue)>) -> ConfigValue {
    ConfigValue::Object(entries.into_iter().map(|(k, v)| (s(k), v)).collect())
}

fn rc(entries: Vec<(&str, ConfigValue)>) -> TextlintRc {
    TextlintRc { plugins: ConfigValue::Null, rules: entries.into_iter().map(|(k, v)| (s(k), v)).collect() }
}

#[test]
fn rule_enabled_reads_bool_null_and_other() {
    let c = rc(vec![
        ("a", ConfigValue::Bool(true)),
        ("b", ConfigValue::Bool(false)),
        ("c", ConfigValue::Null),
        ("d", obj(vec![])),
    ]);
    assert!(c.rule_enabled("a"));
    assert!(!c.rule_enabled("b"));
    assert!(!c.rule_enabled("c"));
    assert!(c.rule_enabled("d"));
    assert!(!c.rule_enabled("missing"));
}

#[test]
fn preset_child_enabled_reads_object() {
    let c = rc(vec![
        ("p", obj(vec![("off", ConfigValue::Bool(false)), ("on", ConfigValue::Bool(true))])),
        ("q", ConfigValue::Bool(false)),
        ("r", ConfigValue::Number(Some(1))),
    ]);
    assert!(!c.preset_child_enabled("p", "off"));
    assert!(c.preset_child_enabled("p", "on"));
    assert!(c.preset_child_enabled("p", "unlisted"));
    assert!(!c.preset_child_enabled("q", "x"));
    assert!(c.preset_child_enabled("r", "x"));
    assert!(!c.preset_child_enabled("missing", "x"));
}

#[test]
fn option_max_reads_number_or_default() {
    let c = rc(vec![(
        "preset-ja-technical-writing",
        obj(vec![
            ("sentence-length", obj(vec![("max", ConfigValue::Number(Some(150)))])),
            ("max-comma", obj(vec![("max", ConfigValue::String(s("4")))])),
        ]),
    )]);
    assert_eq!(option_max(&c, "sentence-length", 100), 150);
    assert_eq!(option_max(&c, "max-comma", 3), 3);
    assert_eq!(option_max(&c, "max-ten", 3), 3);
}

#[test]
fn prh_rule_paths_resolve_relative_ones() {
    let c = rc(vec![(
        "prh",
        obj(vec![(
            "rulePaths",
            ConfigValue::Array(vec![
                ConfigValue::String(s("dict/a.yml")),
                ConfigValue::Number(Some(3)),
                ConfigValue::String(s("/abs/b.yml")),
            ]),
        )]),
    )]);
    assert_eq!(c.prh_rule_paths("/conf"), vec![s("/conf/dict/a.yml"), s("/abs/b.yml")]);
    assert_eq!(c.prh_rule_paths(""), vec![s("dict/a.yml"), s("/abs/b.yml")]);
    assert!(rc(vec![("prh", ConfigValue::Bool(true))]).prh_rule_paths("/conf").is_empty());
}

#[test]
fn choose_rules_orders_presets_then_break_then_prh() {
    let c = rc(vec![
        ("no-mid-sentence-break", ConfigValue::Bool(true)),
        ("preset-ja-spacing", ConfigValue::Bool(true)),
        ("preset-ja-technical-writing", obj(vec![("sentence-length", ConfigValue::Bool(false))])),
        ("prh", obj(vec![])),
    ]);
    let got = choose_rules(&c, 2);
    let mut want: Vec<RuleChoice> = (6..26).map(RuleChoice::Preset).collect();
    want.push(RuleChoice::MidSentenceBreak);
    want.push(RuleChoice::Prh(0));
    want.push(RuleChoice::Prh(1));
    assert_eq!(got, want);
}

#[test]
fn choose_rules_of_empty_configuration_is_empty() {
    assert!(choose_rules(&TextlintRc::default(), 3).is_empty());
}

#[test]
fn exit_code_prefers_io_errors() {
    assert_eq!(unslop::exit_code(true, true), 2);
    assert_eq!(unslop::exit_code(false, true), 1);
    assert_eq!(unslop::exit_code(false, false), 0);
}

#[test]
fn fixing_a_fixed_source_changes_nothing() {
    let first = fix("あ\u{200B}ｱい", &two_rules());
    assert!(!first.hit_max_passes);
    let again = fix(&first.fixed_source, &two_rules());
    assert_eq!(again.fixed_source, first.fixed_source);
    assert_eq!(again.passes, 1);
    assert!(!again.hit_max_passes);
    assert!(again.applied_fixes.is_empty());
    assert_eq!(again.remaining_issues.len(), first.remaining_issues.len());
}

#[test]
fn configuration_reads_each_key_as_a_map() {
    let c = rc(vec![
        ("no-mid-sentence-break", ConfigValue::Bool(false)),
        ("prh", ConfigValue::Bool(true)),
        ("preset-ja-spacing", ConfigValue::Null),
    ]);
    assert!(!c.rule_enabled("no-mid-sentence-break"));
    assert!(c.rule_enabled("prh"));
    assert!(!c.rule_enabled("preset-ja-spacing"));
    assert!(!c.rule_enabled("missing"));
}

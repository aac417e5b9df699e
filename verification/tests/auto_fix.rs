use unslop::config::{ConfigValue, TextlintRc};
use unslop::morph::{RawToken, Tokenizer};
use unslop::rule::Rule;
use unslop::rules::prh::{Prh, PrhRule};
use unslop::{build_rules, fix, BuiltRule};

/// An analyser that finds no token, so that the token rules stay silent.
#[derive(Clone)]
struct NoTokens;

impl Tokenizer for NoTokens {
    fn analyze(&self, _text: &str) -> Option<Vec<RawToken>> {
        None
    }
}

const FIXABLE_RULES: &[&str] =
    &["prh", "no-zero-width-spaces", "no-nfd", "no-invalid-control-character", "no-hankaku-kana"];

const SOURCE: &str = "# auto-fix basics\n\nprh: worker は ワーカー に直す。\n\n半角カナ: ｱｲｳ と ｶﾞｷﾞ を全角化する。\n\nZWSP: あ\u{200b}い に紛れる zero width space は削除する。\n\nNFD: ホ\u{3099}ケット は ポケット へ NFC 正規化する。\n\n制御文字: hello\u{7}world の BEL は削除する。\n\nmixed-period: 末尾の ASCII period は句点に置換する.\n\nredundant: これは省略することが可能である。\n\nabusage: ファイルは書きずらいので注意。\n\nabusage 2: try で例外を補足する書き方を直す。\n\nja-spacing: あれは ダメ で、JTF標準 と書く。\n";

const FIXED: &str = "# auto-fix basics\n\nprh: ワーカー はワーカー に直す。\n\n半角カナ: アイウとガギを全角化する。\n\nZWSP: あいに紛れる zero width space は削除する。\n\nNFD: ボケットはポケットへ NFC 正規化する。\n\n制御文字: helloworld の BEL は削除する。\n\nmixed-period: 末尾の ASCII period は句点に置換する。\n\nredundant: これは省略することが可能である。\n\nabusage: ファイルは書きづらいので注意。\n\nabusage 2: try で例外を捕捉する書き方を直す。\n\nja-spacing: あれはダメで、JTF 標準と書く。\n";

fn all_presets() -> TextlintRc {
    let on = |k: &str| (k.to_string(), ConfigValue::Bool(true));
    TextlintRc {
        plugins: ConfigValue::Null,
        rules: vec![
            on("@textlint-ja/preset-ai-writing"),
            on("preset-ja-technical-writing"),
            on("preset-ja-spacing"),
            on("prh"),
        ],
    }
}

#[test]
fn auto_fix_basics() {
    let dict = Prh::from_rules(vec![PrhRule { expected: "ワーカー".to_string(), pattern: "worker".to_string() }])
        .expect("valid dictionary");
    let rules: Vec<Box<dyn Rule>> =
        build_rules(&all_presets(), &NoTokens, vec![dict]).into_iter().map(|r| Box::new(r) as Box<dyn Rule>).collect();
    let result = fix(SOURCE, &rules);
    assert_eq!(result.fixed_source, FIXED);
    assert!(result.passes <= 5, "should converge within a few passes, got {} pass", result.passes);
    assert!(!result.applied_fixes.is_empty());
    for issue in &result.remaining_issues {
        assert!(
            !FIXABLE_RULES.contains(&issue.rule_id.as_str()),
            "fixable rule {} should not remain in remaining_issues: {issue:?}",
            issue.rule_id
        );
    }
}

#[test]
fn build_rules_makes_one_rule_per_choice() {
    let dict = Prh::from_rules(vec![]).expect("empty dictionary");
    let rules = build_rules(&all_presets(), &NoTokens, vec![dict]);
    let ids: Vec<&str> = rules.iter().map(|r| r.id()).collect();
    assert_eq!(ids.len(), 27);
    assert_eq!(ids[0], "@textlint-ja/preset-ai-writing/no-ai-emphasis-patterns");
    assert_eq!(ids[26], "prh");
}

#[test]
fn build_rules_follows_configuration() {
    let rc = TextlintRc {
        plugins: ConfigValue::Null,
        rules: vec![
            ("no-mid-sentence-break".to_string(), ConfigValue::Bool(true)),
            (
                "preset-ja-spacing".to_string(),
                ConfigValue::Object(vec![("ja-no-space-between-full-width".to_string(), ConfigValue::Bool(false))]),
            ),
        ],
    };
    let rules = build_rules(&rc, &NoTokens, vec![]);
    let ids: Vec<&str> = rules.iter().map(|r| r.id()).collect();
    assert_eq!(ids, vec!["ja-space-between-half-and-full-width", "no-mid-sentence-break"]);
}

#[test]
fn build_rules_carries_max_options() {
    let opts = |m: u64| ConfigValue::Object(vec![("max".to_string(), ConfigValue::Number(Some(m)))]);
    let rc = TextlintRc {
        plugins: ConfigValue::Null,
        rules: vec![(
            "preset-ja-technical-writing".to_string(),
            ConfigValue::Object(vec![
                ("sentence-length".to_string(), opts(5)),
                ("max-comma".to_string(), opts(7)),
            ]),
        )],
    };
    let rules = build_rules(&rc, &NoTokens, vec![]);
    let mut seen = 0;
    for r in &rules {
        match r {
            BuiltRule::SentenceLength(x) => {
                assert_eq!(x.max, 5);
                seen += 1;
            }
            BuiltRule::MaxComma(x) => {
                assert_eq!(x.max, 7);
                seen += 1;
            }
            BuiltRule::MaxTen(x) => {
                assert_eq!(x.max, 3);
                seen += 1;
            }
            _ => {}
        }
    }
    assert_eq!(seen, 3);
}

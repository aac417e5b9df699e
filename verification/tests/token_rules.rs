use unslop::document::Document;
use unslop::morph::{tokenize, RawToken, Tokenizer};
use unslop::rule::{Issue, Rule};
use unslop::rules::ai_writing::no_ai_colon_continuation::NoAiColonContinuation;
use unslop::rules::jt::ja_no_successive_word::JaNoSuccessiveWord;
use unslop::rules::jt::max_ten::MaxTen;
use unslop::rules::jt::no_doubled_conjunctive_particle_ga::NoDoubledConjunctiveParticleGa;
use unslop::rules::jt::no_doubled_joshi::NoDoubledJoshi;

/// An analyser that knows the tokens of a few sentences: it cuts a text into
/// the surfaces of the first script whose surfaces make up the text.
#[derive(Clone)]
struct Script(Vec<Vec<(&'static str, &'static str, &'static str)>>);

impl Tokenizer for Script {
    fn analyze(&self, text: &str) -> Option<Vec<RawToken>> {
        for toks in &self.0 {
            let joined: String = toks.iter().map(|t| t.0).collect();
            if joined == text {
                let mut at = 0;
                let mut out = Vec::new();
                for (surface, pos, detail) in toks {
                    out.push(RawToken {
                        surface: surface.to_string(),
                        byte_start: at,
                        byte_end: at + surface.len(),
                        details: vec![pos.to_string(), detail.to_string()],
                    });
                    at += surface.len();
                }
                return Some(out);
            }
        }
        None
    }
}

fn ga_script() -> Script {
    Script(vec![vec![
        ("雨", "名詞", "一般"),
        ("が", "助詞", "格助詞"),
        ("降っ", "動詞", "自立"),
        ("た", "助動詞", "*"),
        ("が", "助詞", "接続助詞"),
        ("、", "記号", "読点"),
        ("出かけ", "動詞", "自立"),
        ("た", "助動詞", "*"),
        ("が", "助詞", "接続助詞"),
        ("、", "記号", "読点"),
        ("楽しかっ", "形容詞", "自立"),
        ("た", "助動詞", "*"),
        ("。", "記号", "句点"),
    ]])
}

fn run<R: Rule>(rule: &R, src: &str) -> Vec<Issue> {
    rule.check(&Document::parse(src))
}

#[test]
fn tokenize_reads_features() {
    let toks = tokenize(&ga_script(), "雨が降ったが、出かけたが、楽しかった。");
    assert_eq!(toks.len(), 13);
    assert_eq!(toks[4].surface, "が");
    assert_eq!(toks[4].pos, "助詞");
    assert_eq!(toks[4].pos_detail_1, "接続助詞");
    assert_eq!(toks[4].pos_detail_2, "");
    assert_eq!((toks[4].byte_start, toks[4].byte_end), (15, 18));
}

#[test]
fn tokenize_of_failed_analysis_is_empty() {
    assert!(tokenize(&ga_script(), "未知の文。").is_empty());
}

#[test]
fn doubled_conjunctive_ga_reported_at_second() {
    let issues = run(&NoDoubledConjunctiveParticleGa { tokenizer: ga_script() }, "雨が降ったが、出かけたが、楽しかった。");
    assert_eq!(issues.len(), 1);
    assert_eq!((issues[0].line, issues[0].column), (1, 12));
    assert_eq!(issues[0].message, "一文に二回以上利用されている接続助詞 \"が\" がみつかりました。");
    assert!(issues[0].fix.is_none());
}

#[test]
fn max_ten_counts_reading_commas() {
    let issues = run(&MaxTen { max: 1, tokenizer: ga_script() }, "雨が降ったが、出かけたが、楽しかった。");
    assert_eq!(issues.len(), 1);
    assert_eq!((issues[0].line, issues[0].column), (1, 13));
    assert_eq!(issues[0].message, "This sentence exceeds the maximum count of ten. Maximum is 1.");
    assert!(run(&MaxTen { max: 2, tokenizer: ga_script() }, "雨が降ったが、出かけたが、楽しかった。").is_empty());
}

#[test]
fn successive_noun_reported() {
    let script = Script(vec![vec![
        ("これ", "名詞", "代名詞"),
        ("は", "助詞", "係助詞"),
        ("技術", "名詞", "一般"),
        ("技術", "名詞", "一般"),
        ("の", "助詞", "連体化"),
        ("話", "名詞", "一般"),
        ("です", "助動詞", "*"),
        ("。", "記号", "句点"),
    ]]);
    let issues = run(&JaNoSuccessiveWord { tokenizer: script }, "これは技術技術の話です。");
    assert_eq!(issues.len(), 1);
    assert_eq!((issues[0].line, issues[0].column), (1, 6));
    assert_eq!(issues[0].message, "\"技術\" が連続して2回使われています。");
}

#[test]
fn doubled_joshi_reported_but_not_rentaika() {
    let script = Script(vec![vec![
        ("私", "名詞", "代名詞"),
        ("は", "助詞", "係助詞"),
        ("彼", "名詞", "代名詞"),
        ("の", "助詞", "連体化"),
        ("友", "名詞", "一般"),
        ("の", "助詞", "連体化"),
        ("話", "名詞", "一般"),
        ("は", "助詞", "係助詞"),
        ("好き", "名詞", "形容動詞語幹"),
        ("だ", "助動詞", "*"),
        ("。", "記号", "句点"),
    ]]);
    let issues = run(&NoDoubledJoshi { tokenizer: script }, "私は彼の友の話は好きだ。");
    assert_eq!(issues.len(), 1);
    assert_eq!((issues[0].line, issues[0].column), (1, 8));
    assert_eq!(issues[0].message, "一文に二回以上利用されている助詞 \"は\" がみつかりました。");
}


fn colon_script() -> Script {
    Script(vec![vec![
        ("次", "名詞", "一般"),
        ("の", "助詞", "連体化"),
        ("手順", "名詞", "一般"),
        ("を", "助詞", "格助詞"),
        ("実行", "名詞", "サ変接続"),
        ("する", "動詞", "自立"),
    ]])
}

fn colon_issues(src: &str) -> Vec<Issue> {
    run(&NoAiColonContinuation { tokenizer: colon_script() }, src)
}

#[test]
fn colon_before_list_is_reported() {
    let issues = colon_issues("次の手順を実行する：\n\n- 一つ目\n");
    assert_eq!(issues.len(), 1);
    assert_eq!((issues[0].line, issues[0].column), (1, 10));
    assert!(issues[0].message.starts_with("「次の手順を実行する：」"));
}

#[test]
fn colon_before_block_quote_is_reported() {
    assert_eq!(colon_issues("次の手順を実行する：\n\n> 引用した文です。\n").len(), 1);
}

#[test]
fn colon_before_code_block_is_reported() {
    assert_eq!(colon_issues("次の手順を実行する：\n\n```\nmake\n```\n").len(), 1);
    assert_eq!(colon_issues("次の手順を実行する：\n\n```\nmake\n```\n\n後の段落です。\n").len(), 1);
}

#[test]
fn colon_before_paragraph_is_not_reported() {
    assert!(colon_issues("次の手順を実行する：\n\n後の段落です。\n").is_empty());
    assert!(colon_issues("次の手順を実行する：\n").is_empty());
}

fn words(ts: &[(&'static str, &'static str, &'static str)]) -> Vec<(&'static str, &'static str, &'static str)> {
    ts.to_vec()
}

#[test]
fn passes_normal_text() {
    let script = Script(vec![words(&[
        ("これ", "名詞", "代名詞"),
        ("は", "助詞", "係助詞"),
        ("普通", "名詞", "形容動詞語幹"),
        ("の", "助詞", "連体化"),
        ("文章", "名詞", "一般"),
        ("です", "助動詞", "*"),
        ("。", "記号", "句点"),
    ])]);
    assert_eq!(run(&JaNoSuccessiveWord { tokenizer: script }, "これは普通の文章です。").len(), 0);
}

#[test]
fn passes_repeated_particle() {
    let script = Script(vec![words(&[
        ("そう", "副詞", "助詞類接続"),
        ("です", "助動詞", "*"),
        ("よ", "助詞", "終助詞"),
        (" ", "記号", "空白"),
        ("ね", "助詞", "終助詞"),
        (" ", "記号", "空白"),
        ("ね", "助詞", "終助詞"),
        ("。", "記号", "句点"),
    ])]);
    assert_eq!(run(&JaNoSuccessiveWord { tokenizer: script }, "そうですよ ね ね。").len(), 0);
}

#[test]
fn passes_single_ga() {
    let script = Script(vec![words(&[
        ("雨", "名詞", "一般"),
        ("が", "助詞", "格助詞"),
        ("降っ", "動詞", "自立"),
        ("た", "助動詞", "*"),
        ("が", "助詞", "接続助詞"),
        ("、", "記号", "読点"),
        ("出かけ", "動詞", "自立"),
        ("た", "助動詞", "*"),
        ("。", "記号", "句点"),
    ])]);
    assert_eq!(run(&NoDoubledConjunctiveParticleGa { tokenizer: script }, "雨が降ったが、出かけた。").len(), 0);
}

#[test]
fn does_not_count_subject_ga() {
    let script = Script(vec![words(&[
        ("私", "名詞", "代名詞"),
        ("が", "助詞", "格助詞"),
        ("君", "名詞", "代名詞"),
        ("が", "助詞", "格助詞"),
        ("好き", "名詞", "形容動詞語幹"),
        ("だ", "助動詞", "*"),
        ("。", "記号", "句点"),
    ])]);
    assert_eq!(run(&NoDoubledConjunctiveParticleGa { tokenizer: script }, "私が君が好きだ。").len(), 0);
}

#[test]
fn separates_per_sentence() {
    let script = Script(vec![
        words(&[
            ("雨", "名詞", "一般"),
            ("が", "助詞", "格助詞"),
            ("降っ", "動詞", "自立"),
            ("た", "助動詞", "*"),
            ("が", "助詞", "接続助詞"),
            ("、", "記号", "読点"),
            ("晴れ", "動詞", "自立"),
            ("た", "助動詞", "*"),
            ("。", "記号", "句点"),
        ]),
        words(&[
            ("風", "名詞", "一般"),
            ("が", "助詞", "格助詞"),
            ("吹い", "動詞", "自立"),
            ("た", "助動詞", "*"),
            ("が", "助詞", "接続助詞"),
            ("、", "記号", "読点"),
            ("止ん", "動詞", "自立"),
            ("だ", "助動詞", "*"),
            ("。", "記号", "句点"),
        ]),
    ]);
    assert_eq!(
        run(&NoDoubledConjunctiveParticleGa { tokenizer: script }, "雨が降ったが、晴れた。風が吹いたが、止んだ。").len(),
        0
    );
}

//! preset-ai-writing/no-ai-hype-expressions
//!
//! Reports each occurrence, in running text, of a table of exaggerated,
//! abstract or predictive phrases.

use vstd::prelude::*;
use crate::document::{self, Document, DocumentView, SegmentKind, SegmentView};
use crate::regex;
use crate::rule::{self, Issue, IssueView, Rule, Severity};
use crate::rules::{self as rules, SegmentRule};
use crate::text;

verus! {

pub open spec fn rule_id() -> Seq<char> {
    "@textlint-ja/preset-ai-writing/no-ai-hype-expressions"@
}

/// Number of entries of the table.
pub const ENTRY_COUNT: usize = 25;

/// The pattern of entry `k`.
pub open spec fn entry_pattern(k: usize) -> Seq<char> {
    match k {
        0 => "革命的な"@,
        1 => "ゲームチェンジャー"@,
        2 => "世界初の"@,
        3 => "究極の"@,
        4 => "完全に"@,
        5 => "完璧な"@,
        6 => "最高の"@,
        7 => "最先端の"@,
        8 => "大幅に"@,
        9 => "魔法のように"@,
        10 => "奇跡的な"@,
        11 => "驚異的な"@,
        12 => "可能性を解き放つ"@,
        13 => "潜在能力を引き出す"@,
        14 => "民主化する"@,
        15 => "スーパーチャージ"@,
        16 => "驚嘆させ"@,
        17 => "業界を再定義"@,
        18 => "未来を変える"@,
        19 => "パラダイムシフト"@,
        20 => "不可避の"@,
        21 => "新たな基準を設定"@,
        22 => "次世代の"@,
        23 => "フロンティアを開拓"@,
        24 => "根本的に変革"@,
        _ => seq![],
    }
}

/// The message of entry `k`.
pub open spec fn entry_message(k: usize) -> Seq<char> {
    match k {
        0 => "「革命的な」という表現は過度に誇張的である可能性があります。具体的な改善点を述べることを検討してください。"@,
        1 => "「ゲームチェンジャー」という表現は機械的な印象を与える可能性があります。具体的な変化を説明することを検討してください。"@,
        2 => "「世界初の」という表現は過度に強調的である可能性があります。事実に基づいた表現を検討してください。"@,
        3 => "「究極の」という表現は誇張的である可能性があります。より具体的で控えめな表現を検討してください。"@,
        4 => "「完全に」という絶対的な表現は過度に断定的である可能性があります。「多くの場合」などの表現を検討してください。"@,
        5 => "「完璧な」という表現は過度に理想化している可能性があります。具体的な利点を述べることを検討してください。"@,
        6 => "「最高の」という表現は主観的で誇張的である可能性があります。より客観的な評価を示すことを検討してください。"@,
        7 => "「最先端の」という表現は定型的である可能性があります。具体的な技術的特徴を説明することを検討してください。"@,
        8 => "「大幅に」という表現は誇張的である可能性があります。具体的な数値や割合を示すことを検討してください。"@,
        9 => "「魔法のように」という比喩的表現は現実味に欠ける可能性があります。具体的な仕組みを説明することを検討してください。"@,
        10 => "「奇跡的な」という表現は過度に感情的である可能性があります。具体的な成果を示すことを検討してください。"@,
        11 => "「驚異的な」という表現は誇張的である可能性があります。数値や事実に基づいた表現を検討してください。"@,
        12 => "「可能性を解き放つ」という抽象的な表現は曖昧である可能性があります。具体的な利益を説明することを検討してください。"@,
        13 => "「潜在能力を引き出す」という表現は抽象的である可能性があります。具体的な効果を説明することを検討してください。"@,
        14 => "「民主化する」という表現は技術文脈では曖昧である可能性があります。「利用しやすくする」などの具体的な表現を検討してください。"@,
        15 => "「スーパーチャージ」という表現は機械的な印象を与える可能性があります。具体的な改善内容を説明することを検討してください。"@,
        16 => "「驚嘆させる」という表現は過度に感情的である可能性があります。客観的な評価を示すことを検討してください。"@,
        17 => "「業界を再定義する」という表現は誇張的である可能性があります。具体的な変化を説明することを検討してください。"@,
        18 => "「未来を変える」という表現は大げさである可能性があります。具体的な改善点を述べることを検討してください。"@,
        19 => "「パラダイムシフト」という表現は定型的である可能性があります。具体的な変化を説明することを検討してください。"@,
        20 => "「不可避の」という表現は過度に断定的である可能性があります。「可能性が高い」などの表現を検討してください。"@,
        21 => "「新たな基準を設定」という表現は誇張的である可能性があります。具体的な改善内容を説明することを検討してください。"@,
        22 => "「次世代の」という表現は定型的である可能性があります。具体的な技術的進歩を説明することを検討してください。"@,
        23 => "「フロンティアを開拓」という比喩的表現は抽象的である可能性があります。具体的な取り組みを説明することを検討してください。"@,
        24 => "「根本的に変革」という表現は誇張的である可能性があります。具体的な変化を説明することを検討してください。"@,
        _ => seq![],
    }
}

fn entry(k: usize) -> (r: (&'static str, &'static str))
    requires
        k < ENTRY_COUNT,
    ensures
        r.0@ == entry_pattern(k),
        r.1@ == entry_message(k),
{
    match k {
        0 => ("革命的な", "「革命的な」という表現は過度に誇張的である可能性があります。具体的な改善点を述べることを検討してください。"),
        1 => ("ゲームチェンジャー", "「ゲームチェンジャー」という表現は機械的な印象を与える可能性があります。具体的な変化を説明することを検討してください。"),
        2 => ("世界初の", "「世界初の」という表現は過度に強調的である可能性があります。事実に基づいた表現を検討してください。"),
        3 => ("究極の", "「究極の」という表現は誇張的である可能性があります。より具体的で控えめな表現を検討してください。"),
        4 => ("完全に", "「完全に」という絶対的な表現は過度に断定的である可能性があります。「多くの場合」などの表現を検討してください。"),
        5 => ("完璧な", "「完璧な」という表現は過度に理想化している可能性があります。具体的な利点を述べることを検討してください。"),
        6 => ("最高の", "「最高の」という表現は主観的で誇張的である可能性があります。より客観的な評価を示すことを検討してください。"),
        7 => ("最先端の", "「最先端の」という表現は定型的である可能性があります。具体的な技術的特徴を説明することを検討してください。"),
        8 => ("大幅に", "「大幅に」という表現は誇張的である可能性があります。具体的な数値や割合を示すことを検討してください。"),
        9 => ("魔法のように", "「魔法のように」という比喩的表現は現実味に欠ける可能性があります。具体的な仕組みを説明することを検討してください。"),
        10 => ("奇跡的な", "「奇跡的な」という表現は過度に感情的である可能性があります。具体的な成果を示すことを検討してください。"),
        11 => ("驚異的な", "「驚異的な」という表現は誇張的である可能性があります。数値や事実に基づいた表現を検討してください。"),
        12 => ("可能性を解き放つ", "「可能性を解き放つ」という抽象的な表現は曖昧である可能性があります。具体的な利益を説明することを検討してください。"),
        13 => ("潜在能力を引き出す", "「潜在能力を引き出す」という表現は抽象的である可能性があります。具体的な効果を説明することを検討してください。"),
        14 => ("民主化する", "「民主化する」という表現は技術文脈では曖昧である可能性があります。「利用しやすくする」などの具体的な表現を検討してください。"),
        15 => ("スーパーチャージ", "「スーパーチャージ」という表現は機械的な印象を与える可能性があります。具体的な改善内容を説明することを検討してください。"),
        16 => ("驚嘆させ", "「驚嘆させる」という表現は過度に感情的である可能性があります。客観的な評価を示すことを検討してください。"),
        17 => ("業界を再定義", "「業界を再定義する」という表現は誇張的である可能性があります。具体的な変化を説明することを検討してください。"),
        18 => ("未来を変える", "「未来を変える」という表現は大げさである可能性があります。具体的な改善点を述べることを検討してください。"),
        19 => ("パラダイムシフト", "「パラダイムシフト」という表現は定型的である可能性があります。具体的な変化を説明することを検討してください。"),
        20 => ("不可避の", "「不可避の」という表現は過度に断定的である可能性があります。「可能性が高い」などの表現を検討してください。"),
        21 => ("新たな基準を設定", "「新たな基準を設定」という表現は誇張的である可能性があります。具体的な改善内容を説明することを検討してください。"),
        22 => ("次世代の", "「次世代の」という表現は定型的である可能性があります。具体的な技術的進歩を説明することを検討してください。"),
        23 => ("フロンティアを開拓", "「フロンティアを開拓」という比喩的表現は抽象的である可能性があります。具体的な取り組みを説明することを検討してください。"),
        24 => ("根本的に変革", "「根本的に変革」という表現は誇張的である可能性があります。具体的な変化を説明することを検討してください。"),
        _ => ("", ""),
    }
}

/// The pattern that entry `k` is searched with: its text, escaped.
pub open spec fn search_pattern(k: usize) -> Seq<char> {
    regex::regex_escaped(entry_pattern(k))
}

/// The issue for match `m` of entry `k` in segment `seg`.
pub open spec fn match_issue(doc: DocumentView, seg: SegmentView, k: usize, m: (usize, usize)) -> Seq<IssueView> {
    if false {
        seq![]
    } else {
        seq![rule::issue_spec(rule_id(), entry_message(k), document::seg_pos(doc, seg, m.0 as int), Severity::Error)]
    }
}

/// The issues for the matches of entry `k` in segment `seg`.
pub open spec fn entry_issues(doc: DocumentView, seg: SegmentView, k: usize) -> Seq<IssueView> {
    let ms = regex::all_matches(search_pattern(k), seg.text);
    rules::per_index(ms.len(), |j: int| match_issue(doc, seg, k, ms[j]))
}

/// The segments the rule reads.
pub open spec fn applies(seg: SegmentView) -> bool {
    rules::str_bearing(seg.kind)
}

pub open spec fn segment_issues(doc: DocumentView, seg: SegmentView) -> Seq<IssueView> {
    if applies(seg) {
        rules::per_index(ENTRY_COUNT as nat, |k: int| entry_issues(doc, seg, k as usize))
    } else {
        seq![]
    }
}

const RULE_ID: &'static str = "@textlint-ja/preset-ai-writing/no-ai-hype-expressions";

/// Appends the issues for the matches of entry `k` in segment `i`.
fn entry_check(doc: &Document, i: usize, k: usize, out: &mut Vec<Issue>)
    requires
        doc.wf(),
        i < doc@.segments.len(),
        k < ENTRY_COUNT,
        rule::fixes_fit(doc@.source, rule::issues_view(old(out)@)),
    ensures
        rule::issues_view(final(out)@) == rule::issues_view(old(out)@) + entry_issues(
            doc@,
            doc@.segments[i as int],
            k,
        ),
        rule::fixes_fit(doc@.source, rule::issues_view(final(out)@)),
{
    let seg = doc.segment(i);
    let ghost sv = seg@;
    let ghost d = doc@;
    proof {
        doc.lemma_wf();
        reveal_strlit("づらい");
    }
    let (chars, offs) = text::char_table(seg.text.as_str());
    let (pat, message) = entry(k);
    let escaped = regex::escape(pat);
    let ms = regex::matches_of(escaped.as_str(), seg.text.as_str());
    let ghost f = |j: int| match_issue(d, sv, k, ms@[j]);
    let mut j: usize = 0;
    assert(rule::issues_view(out@) =~= rule::issues_view(old(out)@) + rules::per_index(0, f));
    while j < ms.len()
        invariant
            doc.wf(),
            d == doc@,
            document::view_wf(d),
            i < d.segments.len(),
            sv == d.segments[i as int],
            seg@ == sv,
            chars@ == sv.text,
            rules::offsets_of(chars@, offs@),
            message@ == entry_message(k),
            ms@ == regex::all_matches(search_pattern(k), sv.text),
            forall|q: int| 0 <= q < ms@.len() ==> regex::sound_match(sv.text, 0, #[trigger] ms@[q]),
            f == (|q: int| match_issue(d, sv, k, ms@[q])),
            j <= ms@.len(),
            rule::issues_view(out@) == rule::issues_view(old(out)@) + rules::per_index(j as nat, f),
            rule::fixes_fit(d.source, rule::issues_view(out@)),
        decreases ms@.len() - j,
    {
        let (s, e) = ms[j];
        assert(regex::sound_match(sv.text, 0, ms@[j as int]));
        if false {
            assert(f(j as int) =~= Seq::<IssueView>::empty());
        } else {
            proof {
                rules::lemma_seg_byte(d, i as int, s as int);
                rules::lemma_seg_byte(d, i as int, e as int);
                document::lemma_char_index(sv.text, s as int);
                document::lemma_char_index(sv.text, e as int);
                document::lemma_seg_offset(d, i as int, document::char_index(sv.text, s as int));
                document::lemma_seg_offset(d, i as int, document::char_index(sv.text, e as int));
            }
            let (line, column) = doc.pos_at(seg, s);
            let issue = Issue::new(RULE_ID, message, line, column, Severity::Error);
            let ghost prev_out = out@;
            out.push(issue);
            assert(rule::issues_view(out@) =~= rule::issues_view(prev_out).push(issue@));
            assert(seq![issue@] =~= f(j as int));
        }
        assert(rule::issues_view(out@) =~= rule::issues_view(old(out)@) + rules::per_index(j as nat + 1, f));
        j += 1;
    }
}

pub struct NoAiHypeExpressions;

impl SegmentRule for NoAiHypeExpressions {
    open spec fn segment_spec(&self, doc: DocumentView, seg: SegmentView) -> Seq<IssueView> {
        segment_issues(doc, seg)
    }

    fn check_segment(&self, doc: &Document, i: usize, out: &mut Vec<Issue>) {
        let seg = doc.segment(i);
        let ghost sv = seg@;
        let ghost d = doc@;
        if !(rules::is_str_bearing(seg.kind)) {
            assert(rule::issues_view(out@) =~= rule::issues_view(old(out)@) + seq![]);
            return;
        }
        let ghost g = |k: int| entry_issues(d, sv, k as usize);
        let mut k: usize = 0;
        assert(rule::issues_view(out@) =~= rule::issues_view(old(out)@) + rules::per_index(0, g));
        while k < ENTRY_COUNT
            invariant
                doc.wf(),
                d == doc@,
                i < d.segments.len(),
                sv == d.segments[i as int],
                g == (|q: int| entry_issues(d, sv, q as usize)),
                k <= ENTRY_COUNT,
                rule::issues_view(out@) == rule::issues_view(old(out)@) + rules::per_index(k as nat, g),
                rule::fixes_fit(d.source, rule::issues_view(out@)),
            decreases ENTRY_COUNT - k,
        {
            entry_check(doc, i, k, out);
            assert(rule::issues_view(out@) =~= rule::issues_view(old(out)@) + rules::per_index(k as nat + 1, g));
            k += 1;
        }
    }
}

impl Rule for NoAiHypeExpressions {
    open spec fn spec_id(&self) -> Seq<char> {
        rule_id()
    }

    open spec fn accepts(&self, doc: DocumentView, issues: Seq<IssueView>) -> bool {
        issues == rules::all_segments(self, doc)
    }

    fn id(&self) -> (r: &str) {
        RULE_ID
    }

    fn check(&self, doc: &Document) -> (issues: Vec<Issue>) {
        rules::check_segments(self, doc)
    }
}

} // verus!

//! preset-ai-writing/ai-tech-writing-guideline
//!
//! Reports, in paragraphs and list items, each match of a table of patterns of
//! redundant, passive, vague, inconsistent or list-like writing.

use vstd::prelude::*;
use crate::document::{self, Document, DocumentView, SegmentKind, SegmentView};
use crate::regex;
use crate::rule::{self, Issue, IssueView, Rule, Severity};
use crate::rules::{self as rules, SegmentRule};
use crate::text;

verus! {

pub open spec fn rule_id() -> Seq<char> {
    "@textlint-ja/preset-ai-writing/ai-tech-writing-guideline"@
}

/// Number of entries of the table.
pub const ENTRY_COUNT: usize = 21;

/// The pattern of entry `k`.
pub open spec fn entry_pattern(k: usize) -> Seq<char> {
    match k {
        0 => "まず最初に"@,
        1 => "あらかじめ予測"@,
        2 => "することができます"@,
        3 => "する必要があります"@,
        4 => "言うまでもなく"@,
        5 => "が行われ(て|る|ます)"@,
        6 => "の変更を行"@,
        7 => "の実装を実施"@,
        8 => "によって[実行処理実施]され"@,
        9 => "がシステムによって実行される"@,
        10 => "によって実行され"@,
        11 => "高速な(?:パフォーマンス|処理|動作)"@,
        12 => "大幅に(?:向上|改善|削減)"@,
        13 => "効率的な"@,
        14 => "適切な"@,
        15 => "必要に応じて"@,
        16 => "(ユーザー.*?(?:クライアント|顧客))|(?:(?:クライアント|顧客).*?ユーザー)"@,
        17 => "(設定画面.*?(?:設定ページ|環境設定))|(?:(?:設定ページ|環境設定).*?設定画面)"@,
        18 => "(です。.*?である。)|(である。.*?です。)"@,
        19 => "また、.*?また、"@,
        20 => "(?:第一に|まず).*?(?:第二に|次に).*?(?:第三に|最後に)"@,
        _ => seq![],
    }
}

/// The message of entry `k`.
pub open spec fn entry_message(k: usize) -> Seq<char> {
    match k {
        0 => "【簡潔性】冗長表現が検出されました。「まず最初に」→「まず」または「最初に」への簡潔化を検討してください。"@,
        1 => "【簡潔性】冗長表現が検出されました。「あらかじめ予測」→「予測」への簡潔化を検討してください。"@,
        2 => "【簡潔性】冗長な助動詞表現が検出されました。「できます」または「します」への簡潔化を検討してください。"@,
        3 => "【簡潔性】冗長な義務表現が検出されました。「してください」または「します」への直接的な表現を検討してください。"@,
        4 => "【簡潔性】不要な前置き表現が検出されました。核心から始める簡潔な文章構成を検討してください。"@,
        5 => "【明確性】受動的で抽象的な表現が検出されました。具体的な動詞を使った能動態への変更を検討してください（例：「実行する」「処理する」）。"@,
        6 => "【明確性】名詞化された表現が検出されました。「を変更する」のような直接的な動詞表現を検討してください。"@,
        7 => "【明確性】二重の名詞化表現が検出されました。「を実装する」への簡潔化を検討してください。"@,
        8 => "【明確性】受動態表現が検出されました。「○○が△△を実行する」のような能動態への変更を検討してください。"@,
        9 => "【明確性】受動態表現が検出されました。「システムが○○を実行する」のような能動態への変更を検討してください。"@,
        10 => "【明確性】受動態表現が検出されました。「システムが○○を実行する」のような能動態への変更を検討してください。"@,
        11 => "【具体性】抽象的な性能表現が検出されました。具体的な数値基準の提示を検討してください（例：「50ms未満の応答時間」）。"@,
        12 => "【具体性】定量化されていない変化表現が検出されました。具体的な数値や割合の提示を検討してください。"@,
        13 => "【具体性】抽象的な評価表現が検出されました。何に対してどのように効率的なのか、具体的な説明を検討してください。"@,
        14 => "【具体性】曖昧な判断表現が検出されました。何を基準として適切なのか、具体的な条件や基準の明示を検討してください。"@,
        15 => "【具体性】曖昧な条件表現が検出されました。どのような状況で必要なのか、具体的な判断基準の明示を検討してください。"@,
        16 => "【一貫性】同一対象を指す用語の混在が検出されました。文書全体で統一した用語の使用を検討してください。"@,
        17 => "【一貫性】機能名称の表記揺れが検出されました。プロジェクト内で統一した名称の使用を検討してください。"@,
        18 => "【一貫性】文体の混在が検出されました。「です・ます調」または「だ・である調」への統一を検討してください。"@,
        19 => "【構造化】接続表現の重複が検出されました。箇条書きや段落分けによる情報整理を検討してください。"@,
        20 => "【構造化】連続的な手順説明が検出されました。番号付きリストまたは見出し構造での整理を検討してください。"@,
        _ => seq![],
    }
}

fn entry(k: usize) -> (r: (&'static str, &'static str))
    requires
        k < ENTRY_COUNT,
    ensures
        r.0@ == entry_pattern(k),
        r.1@ == entry_message(k),
{
    match k {
        0 => ("まず最初に", "【簡潔性】冗長表現が検出されました。「まず最初に」→「まず」または「最初に」への簡潔化を検討してください。"),
        1 => ("あらかじめ予測", "【簡潔性】冗長表現が検出されました。「あらかじめ予測」→「予測」への簡潔化を検討してください。"),
        2 => ("することができます", "【簡潔性】冗長な助動詞表現が検出されました。「できます」または「します」への簡潔化を検討してください。"),
        3 => ("する必要があります", "【簡潔性】冗長な義務表現が検出されました。「してください」または「します」への直接的な表現を検討してください。"),
        4 => ("言うまでもなく", "【簡潔性】不要な前置き表現が検出されました。核心から始める簡潔な文章構成を検討してください。"),
        5 => ("が行われ(て|る|ます)", "【明確性】受動的で抽象的な表現が検出されました。具体的な動詞を使った能動態への変更を検討してください（例：「実行する」「処理する」）。"),
        6 => ("の変更を行", "【明確性】名詞化された表現が検出されました。「を変更する」のような直接的な動詞表現を検討してください。"),
        7 => ("の実装を実施", "【明確性】二重の名詞化表現が検出されました。「を実装する」への簡潔化を検討してください。"),
        8 => ("によって[実行処理実施]され", "【明確性】受動態表現が検出されました。「○○が△△を実行する」のような能動態への変更を検討してください。"),
        9 => ("がシステムによって実行される", "【明確性】受動態表現が検出されました。「システムが○○を実行する」のような能動態への変更を検討してください。"),
        10 => ("によって実行され", "【明確性】受動態表現が検出されました。「システムが○○を実行する」のような能動態への変更を検討してください。"),
        11 => ("高速な(?:パフォーマンス|処理|動作)", "【具体性】抽象的な性能表現が検出されました。具体的な数値基準の提示を検討してください（例：「50ms未満の応答時間」）。"),
        12 => ("大幅に(?:向上|改善|削減)", "【具体性】定量化されていない変化表現が検出されました。具体的な数値や割合の提示を検討してください。"),
        13 => ("効率的な", "【具体性】抽象的な評価表現が検出されました。何に対してどのように効率的なのか、具体的な説明を検討してください。"),
        14 => ("適切な", "【具体性】曖昧な判断表現が検出されました。何を基準として適切なのか、具体的な条件や基準の明示を検討してください。"),
        15 => ("必要に応じて", "【具体性】曖昧な条件表現が検出されました。どのような状況で必要なのか、具体的な判断基準の明示を検討してください。"),
        16 => ("(ユーザー.*?(?:クライアント|顧客))|(?:(?:クライアント|顧客).*?ユーザー)", "【一貫性】同一対象を指す用語の混在が検出されました。文書全体で統一した用語の使用を検討してください。"),
        17 => ("(設定画面.*?(?:設定ページ|環境設定))|(?:(?:設定ページ|環境設定).*?設定画面)", "【一貫性】機能名称の表記揺れが検出されました。プロジェクト内で統一した名称の使用を検討してください。"),
        18 => ("(です。.*?である。)|(である。.*?です。)", "【一貫性】文体の混在が検出されました。「です・ます調」または「だ・である調」への統一を検討してください。"),
        19 => ("また、.*?また、", "【構造化】接続表現の重複が検出されました。箇条書きや段落分けによる情報整理を検討してください。"),
        20 => ("(?:第一に|まず).*?(?:第二に|次に).*?(?:第三に|最後に)", "【構造化】連続的な手順説明が検出されました。番号付きリストまたは見出し構造での整理を検討してください。"),
        _ => ("", ""),
    }
}

/// The pattern that entry `k` is searched with.
pub open spec fn search_pattern(k: usize) -> Seq<char> {
    entry_pattern(k)
}

/// The issue for match `m` of entry `k` in segment `seg`.
pub open spec fn match_issue(doc: DocumentView, seg: SegmentView, k: usize, m: (usize, usize)) -> Seq<IssueView> {
    if false {
        seq![]
    } else {
        seq![rule::issue_spec(rule_id(), entry_message(k), document::seg_pos(doc, seg, m.0 as int), Severity::Error)]
    }
}

/// The issues for the matches of entry `k` in segment `seg`.
pub open spec fn entry_issues(doc: DocumentView, seg: SegmentView, k: usize) -> Seq<IssueView> {
    let ms = regex::all_matches(search_pattern(k), seg.text);
    rules::per_index(ms.len(), |j: int| match_issue(doc, seg, k, ms[j]))
}

/// The segments the rule reads.
pub open spec fn applies(seg: SegmentView) -> bool {
    seg.kind == SegmentKind::Paragraph || seg.kind == SegmentKind::ListItem
}

pub open spec fn segment_issues(doc: DocumentView, seg: SegmentView) -> Seq<IssueView> {
    if applies(seg) {
        rules::per_index(ENTRY_COUNT as nat, |k: int| entry_issues(doc, seg, k as usize))
    } else {
        seq![]
    }
}

const RULE_ID: &'static str = "@textlint-ja/preset-ai-writing/ai-tech-writing-guideline";

/// Appends the issues for the matches of entry `k` in segment `i`.
fn entry_check(doc: &Document, i: usize, k: usize, out: &mut Vec<Issue>)
    requires
        doc.wf(),
        i < doc@.segments.len(),
        k < ENTRY_COUNT,
        rule::fixes_fit(doc@.source, rule::issues_view(old(out)@)),
    ensures
        rule::issues_view(final(out)@) == rule::issues_view(old(out)@) + entry_issues(
            doc@,
            doc@.segments[i as int],
            k,
        ),
        rule::fixes_fit(doc@.source, rule::issues_view(final(out)@)),
{
    let seg = doc.segment(i);
    let ghost sv = seg@;
    let ghost d = doc@;
    proof {
        doc.lemma_wf();
        reveal_strlit("づらい");
    }
    let (chars, offs) = text::char_table(seg.text.as_str());
    let (pat, message) = entry(k);
    let ms = regex::matches_of(pat, seg.text.as_str());
    let ghost f = |j: int| match_issue(d, sv, k, ms@[j]);
    let mut j: usize = 0;
    assert(rule::issues_view(out@) =~= rule::issues_view(old(out)@) + rules::per_index(0, f));
    while j < ms.len()
        invariant
            doc.wf(),
            d == doc@,
            document::view_wf(d),
            i < d.segments.len(),
            sv == d.segments[i as int],
            seg@ == sv,
            chars@ == sv.text,
            rules::offsets_of(chars@, offs@),
            message@ == entry_message(k),
            ms@ == regex::all_matches(search_pattern(k), sv.text),
            forall|q: int| 0 <= q < ms@.len() ==> regex::sound_match(sv.text, 0, #[trigger] ms@[q]),
            f == (|q: int| match_issue(d, sv, k, ms@[q])),
            j <= ms@.len(),
            rule::issues_view(out@) == rule::issues_view(old(out)@) + rules::per_index(j as nat, f),
            rule::fixes_fit(d.source, rule::issues_view(out@)),
        decreases ms@.len() - j,
    {
        let (s, e) = ms[j];
        assert(regex::sound_match(sv.text, 0, ms@[j as int]));
        if false {
            assert(f(j as int) =~= Seq::<IssueView>::empty());
        } else {
            proof {
                rules::lemma_seg_byte(d, i as int, s as int);
                rules::lemma_seg_byte(d, i as int, e as int);
                document::lemma_char_index(sv.text, s as int);
                document::lemma_char_index(sv.text, e as int);
                document::lemma_seg_offset(d, i as int, document::char_index(sv.text, s as int));
                document::lemma_seg_offset(d, i as int, document::char_index(sv.text, e as int));
            }
            let (line, column) = doc.pos_at(seg, s);
            let issue = Issue::new(RULE_ID, message, line, column, Severity::Error);
            let ghost prev_out = out@;
            out.push(issue);
            assert(rule::issues_view(out@) =~= rule::issues_view(prev_out).push(issue@));
            assert(seq![issue@] =~= f(j as int));
        }
        assert(rule::issues_view(out@) =~= rule::issues_view(old(out)@) + rules::per_index(j as nat + 1, f));
        j += 1;
    }
}

pub struct AiTechWritingGuideline;

impl SegmentRule for AiTechWritingGuideline {
    open spec fn segment_spec(&self, doc: DocumentView, seg: SegmentView) -> Seq<IssueView> {
        segment_issues(doc, seg)
    }

    fn check_segment(&self, doc: &Document, i: usize, out: &mut Vec<Issue>) {
        let seg = doc.segment(i);
        let ghost sv = seg@;
        let ghost d = doc@;
        if !(seg.kind == SegmentKind::Paragraph || seg.kind == SegmentKind::ListItem) {
            assert(rule::issues_view(out@) =~= rule::issues_view(old(out)@) + seq![]);
            return;
        }
        let ghost g = |k: int| entry_issues(d, sv, k as usize);
        let mut k: usize = 0;
        assert(rule::issues_view(out@) =~= rule::issues_view(old(out)@) + rules::per_index(0, g));
        while k < ENTRY_COUNT
            invariant
                doc.wf(),
                d == doc@,
                i < d.segments.len(),
                sv == d.segments[i as int],
                g == (|q: int| entry_issues(d, sv, q as usize)),
                k <= ENTRY_COUNT,
                rule::issues_view(out@) == rule::issues_view(old(out)@) + rules::per_index(k as nat, g),
                rule::fixes_fit(d.source, rule::issues_view(out@)),
            decreases ENTRY_COUNT - k,
        {
            entry_check(doc, i, k, out);
            assert(rule::issues_view(out@) =~= rule::issues_view(old(out)@) + rules::per_index(k as nat + 1, g));
            k += 1;
        }
    }
}

impl Rule for AiTechWritingGuideline {
    open spec fn spec_id(&self) -> Seq<char> {
        rule_id()
    }

    open spec fn accepts(&self, doc: DocumentView, issues: Seq<IssueView>) -> bool {
        issues == rules::all_segments(self, doc)
    }

    fn id(&self) -> (r: &str) {
        RULE_ID
    }

    fn check(&self, doc: &Document) -> (issues: Vec<Issue>) {
        rules::check_segments(self, doc)
    }
}

} // verus!

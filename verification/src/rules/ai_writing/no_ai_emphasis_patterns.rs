//! preset-ai-writing/no-ai-emphasis-patterns
//!
//! Reports an emoji followed by bold text, and bold information prefixes
//! such as `**注意**`, in paragraphs and list items; and bold text in headings.

use vstd::prelude::*;
use crate::document::{self, Document, DocumentView, SegmentKind, SegmentView};
use crate::regex;
use crate::rule::{self, Issue, IssueView, Rule, Severity};
use crate::rules::{self as rules, SegmentRule};
use crate::text;

verus! {

pub open spec fn rule_id() -> Seq<char> {
    "@textlint-ja/preset-ai-writing/no-ai-emphasis-patterns"@
}

const RULE_ID: &'static str = "@textlint-ja/preset-ai-writing/no-ai-emphasis-patterns";

/// An emoji, then bold text.
pub open spec fn emoji_pattern() -> Seq<char> {
    "(ℹ️|🔍|✅|❌|⚠️|💡|📝|📋|📌|🔗|🎯|🚀|⭐|✨|💯|🔥|📊|📈)\\s*\\*\\*([^*]+)\\*\\*"@
}

/// A bold information prefix, with an optional colon and more text.
pub open spec fn info_pattern() -> Seq<char> {
    "\\*\\*(注意|重要|ポイント|メモ|参考|補足|確認|チェック|推奨|おすすめ|検出される例|推奨される表現|良い例|悪い例|例|サンプル|使用例|設定例)([：:].*?)?\\*\\*"@
}

/// Bold text.
pub open spec fn heading_pattern() -> Seq<char> {
    "(\\*\\*|__)(.*?)\\1"@
}

pub open spec fn emoji_message(list_item: bool) -> Seq<char> {
    if list_item {
        "リストアイテムで絵文字と太字の組み合わせは機械的な印象を与える可能性があります。より自然な表現を検討してください。"@
    } else {
        "絵文字と太字の組み合わせは機械的な印象を与える可能性があります。より自然な表現を検討してください。"@
    }
}

pub open spec fn info_message(list_item: bool, prefix: Seq<char>) -> Seq<char> {
    if list_item {
        "リストアイテムで「**"@ + prefix + "**」のような太字の情報プレフィックスは機械的な印象を与える可能性があります。より自然な表現を検討してください。"@
    } else {
        "「**"@ + prefix + "**」のような太字の情報プレフィックスは機械的な印象を与える可能性があります。より自然な表現を検討してください。"@
    }
}

pub open spec fn heading_message() -> Seq<char> {
    "見出し内の太字は不要です。見出し自体が強調のため、追加の太字は冗長です。"@
}

/// The index of the first `**` in `y` at or after `i`, or the length.
pub open spec fn first_double_star(y: Seq<char>, i: int) -> int
    decreases y.len() - i,
{
    if i < 0 || i + 1 >= y.len() {
        y.len() as int
    } else if y[i] == '*' && y[i + 1] == '*' {
        i
    } else {
        first_double_star(y, i + 1)
    }
}

/// The index of the first `c` in `y` at or after `i`, or the length.
pub open spec fn first_char(y: Seq<char>, c: char, i: int) -> int
    decreases y.len() - i,
{
    if i < 0 || i >= y.len() {
        y.len() as int
    } else if y[i] == c {
        i
    } else {
        first_char(y, c, i + 1)
    }
}

/// `y` up to its first `c`.
pub open spec fn before_char(y: Seq<char>, c: char) -> Seq<char> {
    y.take(first_char(y, c, 0))
}

/// The word of a bold information prefix: after the leading `**`, up to the
/// next `**`, `:` or `：`; empty where the text does not start with `**`.
pub open spec fn info_prefix(x: Seq<char>) -> Seq<char> {
    if x.len() >= 2 && x[0] == '*' && x[1] == '*' {
        let y = x.skip(2);
        before_char(before_char(y.take(first_double_star(y, 0)), ':'), '：')
    } else {
        seq![]
    }
}

fn first_double_star_exec(y: &Vec<char>, i: usize) -> (r: usize)
    requires
        i <= y@.len(),
    ensures
        r == first_double_star(y@, i as int),
        r <= y@.len(),
    decreases y@.len() - i,
{
    if y.len() - i <= 1 {
        y.len()
    } else if y[i] == '*' && y[i + 1] == '*' {
        i
    } else {
        first_double_star_exec(y, i + 1)
    }
}

fn first_char_exec(y: &Vec<char>, c: char, i: usize) -> (r: usize)
    requires
        i <= y@.len(),
    ensures
        r == first_char(y@, c, i as int),
        r <= y@.len(),
    decreases y@.len() - i,
{
    if i >= y.len() {
        y.len()
    } else if y[i] == c {
        i
    } else {
        first_char_exec(y, c, i + 1)
    }
}

/// The first `n` chars of `y`.
fn take_chars(y: &Vec<char>, n: usize) -> (r: Vec<char>)
    requires
        n <= y@.len(),
    ensures
        r@ == y@.take(n as int),
{
    let mut t: Vec<char> = Vec::new();
    let mut j: usize = 0;
    while j < n
        invariant
            j <= n <= y@.len(),
            t@ == y@.take(j as int),
        decreases n - j,
    {
        t.push(y[j]);
        assert(y@.take(j + 1) =~= y@.take(j as int).push(y@[j as int]));
        j += 1;
    }
    t
}

fn before_char_exec(y: &Vec<char>, c: char) -> (r: Vec<char>)
    ensures
        r@ == before_char(y@, c),
{
    let n = first_char_exec(y, c, 0);
    take_chars(y, n)
}

fn info_prefix_exec(x: &Vec<char>) -> (r: Vec<char>)
    ensures
        r@ == info_prefix(x@),
{
    if x.len() >= 2 && x[0] == '*' && x[1] == '*' {
        let mut y: Vec<char> = Vec::new();
        let mut k: usize = 2;
        while k < x.len()
            invariant
                2 <= k <= x@.len(),
                y@ == x@.subrange(2, k as int),
            decreases x@.len() - k,
        {
            y.push(x[k]);
            assert(x@.subrange(2, k + 1) =~= x@.subrange(2, k as int).push(x@[k as int]));
            k += 1;
        }
        assert(y@ =~= x@.skip(2));
        let n = first_double_star_exec(&y, 0);
        let t = take_chars(&y, n);
        let a = before_char_exec(&t, ':');
        before_char_exec(&a, '：')
    } else {
        Vec::new()
    }
}

pub open spec fn emoji_issue(doc: DocumentView, seg: SegmentView, list_item: bool, m: (usize, usize)) -> Seq<IssueView> {
    seq![rule::issue_spec(rule_id(), emoji_message(list_item), document::seg_pos(doc, seg, m.0 as int), Severity::Error)]
}

/// Some emoji match overlaps the match `m`.
pub open spec fn overlaps_emoji(emoji: Seq<(usize, usize)>, m: (usize, usize)) -> bool {
    exists|q: int| 0 <= q < emoji.len() && m.0 < (#[trigger] emoji[q]).1 && m.1 > emoji[q].0
}

pub open spec fn info_issue(doc: DocumentView, seg: SegmentView, list_item: bool, m: (usize, usize)) -> Seq<IssueView> {
    if overlaps_emoji(regex::all_matches(emoji_pattern(), seg.text), m) {
        seq![]
    } else {
        let prefix = info_prefix(rules::byte_slice(seg.text, m.0 as int, m.1 as int));
        seq![
            rule::issue_spec(
                rule_id(),
                info_message(list_item, prefix),
                document::seg_pos(doc, seg, m.0 as int),
                Severity::Error,
            ),
        ]
    }
}

pub open spec fn heading_issue(doc: DocumentView, seg: SegmentView, m: (usize, usize)) -> Seq<IssueView> {
    seq![rule::issue_spec(rule_id(), heading_message(), document::seg_pos(doc, seg, m.0 as int), Severity::Error)]
}

pub open spec fn emphasis_issues(doc: DocumentView, seg: SegmentView, list_item: bool) -> Seq<IssueView> {
    let em = regex::all_matches(emoji_pattern(), seg.text);
    let im = regex::all_matches(info_pattern(), seg.text);
    rules::per_index(em.len(), |j: int| emoji_issue(doc, seg, list_item, em[j])) + rules::per_index(
        im.len(),
        |j: int| info_issue(doc, seg, list_item, im[j]),
    )
}

pub open spec fn segment_issues(doc: DocumentView, seg: SegmentView) -> Seq<IssueView> {
    match seg.kind {
        SegmentKind::Paragraph => emphasis_issues(doc, seg, false),
        SegmentKind::ListItem => emphasis_issues(doc, seg, true),
        SegmentKind::Heading => {
            let hm = regex::all_matches(heading_pattern(), seg.text);
            rules::per_index(hm.len(), |j: int| heading_issue(doc, seg, hm[j]))
        },
        _ => seq![],
    }
}

/// Which kind of issue a pass over matches makes.
#[derive(Clone, Copy, PartialEq, Eq, Structural)]
pub enum Pass {
    Emoji,
    Info,
    Heading,
}

pub open spec fn pass_issue(doc: DocumentView, seg: SegmentView, list_item: bool, pass: Pass, m: (usize, usize)) -> Seq<IssueView> {
    match pass {
        Pass::Emoji => emoji_issue(doc, seg, list_item, m),
        Pass::Info => info_issue(doc, seg, list_item, m),
        Pass::Heading => heading_issue(doc, seg, m),
    }
}

fn overlaps_emoji_exec(emoji: &Vec<(usize, usize)>, s: usize, e: usize) -> (r: bool)
    ensures
        r == overlaps_emoji(emoji@, (s, e)),
{
    let mut q: usize = 0;
    while q < emoji.len()
        invariant
            q <= emoji@.len(),
            forall|p: int| 0 <= p < q ==> !(s < (#[trigger] emoji@[p]).1 && e > emoji@[p].0),
        decreases emoji@.len() - q,
    {
        let (es, ee) = emoji[q];
        if s < ee && e > es {
            return true;
        }
        q += 1;
    }
    false
}

/// Appends the issues of `pass` for the matches `ms` in segment `i`.
fn pass_check(
    doc: &Document,
    i: usize,
    list_item: bool,
    pass: Pass,
    ms: &Vec<(usize, usize)>,
    emoji: &Vec<(usize, usize)>,
    out: &mut Vec<Issue>,
)
    requires
        doc.wf(),
        i < doc@.segments.len(),
        emoji@ == regex::all_matches(emoji_pattern(), doc@.segments[i as int].text),
        forall|q: int| 0 <= q < ms@.len() ==> regex::sound_match(doc@.segments[i as int].text, 0, #[trigger] ms@[q]),
        rule::fixes_fit(doc@.source, rule::issues_view(old(out)@)),
    ensures
        rule::issues_view(final(out)@) == rule::issues_view(old(out)@) + rules::per_index(
            ms@.len(),
            |j: int| pass_issue(doc@, doc@.segments[i as int], list_item, pass, ms@[j]),
        ),
        rule::fixes_fit(doc@.source, rule::issues_view(final(out)@)),
{
    let seg = doc.segment(i);
    let ghost sv = seg@;
    let ghost d = doc@;
    proof {
        doc.lemma_wf();
    }
    let (chars, offs) = text::char_table(seg.text.as_str());
    let ghost f = |j: int| pass_issue(d, sv, list_item, pass, ms@[j]);
    let mut j: usize = 0;
    assert(rule::issues_view(out@) =~= rule::issues_view(old(out)@) + rules::per_index(0, f));
    while j < ms.len()
        invariant
            doc.wf(),
            d == doc@,
            document::view_wf(d),
            i < d.segments.len(),
            sv == d.segments[i as int],
            seg@ == sv,
            chars@ == sv.text,
            rules::offsets_of(chars@, offs@),
            emoji@ == regex::all_matches(emoji_pattern(), sv.text),
            forall|q: int| 0 <= q < ms@.len() ==> regex::sound_match(sv.text, 0, #[trigger] ms@[q]),
            f == (|q: int| pass_issue(d, sv, list_item, pass, ms@[q])),
            j <= ms@.len(),
            rule::issues_view(out@) == rule::issues_view(old(out)@) + rules::per_index(j as nat, f),
            rule::fixes_fit(d.source, rule::issues_view(out@)),
        decreases ms@.len() - j,
    {
        let (s, e) = ms[j];
        assert(regex::sound_match(sv.text, 0, ms@[j as int]));
        proof {
            rules::lemma_seg_byte(d, i as int, s as int);
        }
        let skip = match pass {
            Pass::Info => overlaps_emoji_exec(emoji, s, e),
            _ => false,
        };
        if skip {
            assert(f(j as int) =~= Seq::<IssueView>::empty());
        } else {
            let (line, column) = doc.pos_at(seg, s);
            let mut msg = String::new();
            match pass {
                Pass::Emoji => {
                    if list_item {
                        text::push_str(&mut msg, "リストアイテムで絵文字と太字の組み合わせは機械的な印象を与える可能性があります。より自然な表現を検討してください。");
                    } else {
                        text::push_str(&mut msg, "絵文字と太字の組み合わせは機械的な印象を与える可能性があります。より自然な表現を検討してください。");
                    }
                    assert(msg@ =~= emoji_message(list_item));
                },
                Pass::Info => {
                    let found = rules::slice_bytes(&chars, &offs, s, e);
                    let fc = text::chars_of(found.as_str());
                    let prefix = info_prefix_exec(&fc);
                    if list_item {
                        text::push_str(&mut msg, "リストアイテムで「**");
                    } else {
                        text::push_str(&mut msg, "「**");
                    }
                    text::push_chars(&mut msg, &prefix, 0, prefix.len());
                    text::push_str(&mut msg, "**」のような太字の情報プレフィックスは機械的な印象を与える可能性があります。より自然な表現を検討してください。");
                    assert(prefix@.subrange(0, prefix@.len() as int) =~= prefix@);
                    assert(msg@ =~= info_message(list_item, prefix@));
                },
                Pass::Heading => {
                    text::push_str(&mut msg, "見出し内の太字は不要です。見出し自体が強調のため、追加の太字は冗長です。");
                    assert(msg@ =~= heading_message());
                },
            }
            let issue = Issue::new(RULE_ID, msg.as_str(), line, column, Severity::Error);
            let ghost prev_out = out@;
            out.push(issue);
            assert(rule::issues_view(out@) =~= rule::issues_view(prev_out).push(issue@));
            assert(seq![issue@] =~= f(j as int));
        }
        assert(rule::issues_view(out@) =~= rule::issues_view(old(out)@) + rules::per_index(j as nat + 1, f));
        j += 1;
    }
}

pub struct NoAiEmphasisPatterns;

impl SegmentRule for NoAiEmphasisPatterns {
    open spec fn segment_spec(&self, doc: DocumentView, seg: SegmentView) -> Seq<IssueView> {
        segment_issues(doc, seg)
    }

    fn check_segment(&self, doc: &Document, i: usize, out: &mut Vec<Issue>) {
        let seg = doc.segment(i);
        let ghost sv = seg@;
        let ghost d = doc@;
        let ghost o0 = rule::issues_view(out@);
        let emoji = regex::matches_of("(ℹ️|🔍|✅|❌|⚠️|💡|📝|📋|📌|🔗|🎯|🚀|⭐|✨|💯|🔥|📊|📈)\\s*\\*\\*([^*]+)\\*\\*", seg.text.as_str());
        match seg.kind {
            SegmentKind::Paragraph | SegmentKind::ListItem => {
                let list_item = seg.kind == SegmentKind::ListItem;
                pass_check(doc, i, list_item, Pass::Emoji, &emoji, &emoji, out);
                let info = regex::matches_of("\\*\\*(注意|重要|ポイント|メモ|参考|補足|確認|チェック|推奨|おすすめ|検出される例|推奨される表現|良い例|悪い例|例|サンプル|使用例|設定例)([：:].*?)?\\*\\*", seg.text.as_str());
                pass_check(doc, i, list_item, Pass::Info, &info, &emoji, out);
                proof {
                    rules::lemma_per_index_ext(
                        emoji@.len(),
                        |j: int| pass_issue(d, sv, list_item, Pass::Emoji, emoji@[j]),
                        |j: int| emoji_issue(d, sv, list_item, emoji@[j]),
                    );
                    rules::lemma_per_index_ext(
                        info@.len(),
                        |j: int| pass_issue(d, sv, list_item, Pass::Info, info@[j]),
                        |j: int| info_issue(d, sv, list_item, info@[j]),
                    );
                }
                assert(rule::issues_view(out@) =~= o0 + segment_issues(d, sv));
            },
            SegmentKind::Heading => {
                let hm = regex::matches_of("(\\*\\*|__)(.*?)\\1", seg.text.as_str());
                pass_check(doc, i, false, Pass::Heading, &hm, &emoji, out);
                proof {
                    rules::lemma_per_index_ext(
                        hm@.len(),
                        |j: int| pass_issue(d, sv, false, Pass::Heading, hm@[j]),
                        |j: int| heading_issue(d, sv, hm@[j]),
                    );
                }
                assert(rule::issues_view(out@) =~= o0 + segment_issues(d, sv));
            },
            _ => {
                assert(rule::issues_view(out@) =~= o0 + seq![]);
            },
        }
    }
}

impl Rule for NoAiEmphasisPatterns {
    open spec fn spec_id(&self) -> Seq<char> {
        rule_id()
    }

    open spec fn accepts(&self, doc: DocumentView, issues: Seq<IssueView>) -> bool {
        issues == rules::all_segments(self, doc)
    }

    fn id(&self) -> (r: &str) {
        RULE_ID
    }

    fn check(&self, doc: &Document) -> (issues: Vec<Issue>) {
        rules::check_segments(self, doc)
    }
}

} // verus!

//! preset-ja-technical-writing/no-unmatched-pair
//!
//! In each sentence of a paragraph, outside code, pairs opening marks with
//! closing ones on a stack, and reports each opening mark left unclosed.

use vstd::prelude::*;
use crate::document::{self, Document, DocumentView, SegmentKind, SegmentView};
use crate::rule::{self, Issue, IssueView, Rule, Severity};
use crate::rules::{self as rules, SegmentRule, Terminators};
use crate::text;

verus! {

pub open spec fn rule_id() -> Seq<char> {
    "no-unmatched-pair"@
}

/// Number of known pairs of marks.
pub const PAIR_COUNT: usize = 13;

/// The opening mark of pair `p`.
pub open spec fn pair_start(p: usize) -> char {
    match p {
        0 => '\"',
        1 => '[',
        2 => '(',
        3 => '{',
        4 => '「',
        5 => '（',
        6 => '『',
        7 => '｛',
        8 => '［',
        9 => '〚',
        10 => '【',
        11 => '«',
        12 => '‹',
        _ => ' ',
    }
}

/// The closing mark of pair `p`.
pub open spec fn pair_end(p: usize) -> char {
    match p {
        0 => '\"',
        1 => ']',
        2 => ')',
        3 => '}',
        4 => '」',
        5 => '）',
        6 => '』',
        7 => '｝',
        8 => '］',
        9 => '〛',
        10 => '】',
        11 => '»',
        12 => '›',
        _ => ' ',
    }
}

/// The name of pair `p`.
pub open spec fn pair_key(p: usize) -> Seq<char> {
    match p {
        0 => "double quote"@,
        1 => "angled bracket[]"@,
        2 => "round bracket()"@,
        3 => "curly brace{}"@,
        4 => "かぎ括弧「」"@,
        5 => "丸括弧（）"@,
        6 => "二重かぎ括弧『』"@,
        7 => "波括弧｛｝"@,
        8 => "角括弧［］"@,
        9 => "重角括弧〚〛"@,
        10 => "隅付き括弧【】"@,
        11 => "double guillemet «»"@,
        12 => "single guillemet ‹›"@,
        _ => ""@,
    }
}

/// The first pair that `c` opens.
pub open spec fn opener(c: char) -> Option<usize> {
    match c {
        '\"' => Some(0usize),
        '[' => Some(1usize),
        '(' => Some(2usize),
        '{' => Some(3usize),
        '「' => Some(4usize),
        '（' => Some(5usize),
        '『' => Some(6usize),
        '｛' => Some(7usize),
        '［' => Some(8usize),
        '〚' => Some(9usize),
        '【' => Some(10usize),
        '«' => Some(11usize),
        '‹' => Some(12usize),
        _ => None,
    }
}

fn opener_exec(c: char) -> (r: Option<usize>)
    ensures
        r matches Some(p) ==> opener(c) == Some(p) && p < PAIR_COUNT,
        r is None ==> opener(c) is None,
{
    match c {
        '\"' => Some(0usize),
        '[' => Some(1usize),
        '(' => Some(2usize),
        '{' => Some(3usize),
        '「' => Some(4usize),
        '（' => Some(5usize),
        '『' => Some(6usize),
        '｛' => Some(7usize),
        '［' => Some(8usize),
        '〚' => Some(9usize),
        '【' => Some(10usize),
        '«' => Some(11usize),
        '‹' => Some(12usize),
        _ => None,
    }
}

fn pair_start_exec(p: usize) -> (r: char)
    ensures
        r == pair_start(p),
{
    match p {
        0 => '\"',
        1 => '[',
        2 => '(',
        3 => '{',
        4 => '「',
        5 => '（',
        6 => '『',
        7 => '｛',
        8 => '［',
        9 => '〚',
        10 => '【',
        11 => '«',
        12 => '‹',
        _ => ' ',
    }
}

fn pair_end_exec(p: usize) -> (r: char)
    ensures
        r == pair_end(p),
{
    match p {
        0 => '\"',
        1 => ']',
        2 => ')',
        3 => '}',
        4 => '」',
        5 => '）',
        6 => '』',
        7 => '｝',
        8 => '］',
        9 => '〛',
        10 => '】',
        11 => '»',
        12 => '›',
        _ => ' ',
    }
}

fn pair_key_exec(p: usize) -> (r: &'static str)
    ensures
        r@ == pair_key(p),
{
    match p {
        0 => "double quote",
        1 => "angled bracket[]",
        2 => "round bracket()",
        3 => "curly brace{}",
        4 => "かぎ括弧「」",
        5 => "丸括弧（）",
        6 => "二重かぎ括弧『』",
        7 => "波括弧｛｝",
        8 => "角括弧［］",
        9 => "重角括弧〚〛",
        10 => "隅付き括弧【】",
        11 => "double guillemet «»",
        12 => "single guillemet ‹›",
        _ => "",
    }
}

/// Char `k` of `seg` overlaps a code span.
pub open spec fn in_code(seg: SegmentView, k: int) -> bool {
    rules::overlaps_any(seg.code_ranges, text::byte_pos(seg.text, k) as int, text::byte_pos(seg.text, k + 1) as int)
}

/// The marks left open after chars `a..k` of `seg`: (char index, pair), innermost last.
pub open spec fn open_marks(seg: SegmentView, a: int, k: int) -> Seq<(int, usize)>
    decreases k - a,
{
    if k <= a {
        seq![]
    } else {
        let st = open_marks(seg, a, k - 1);
        let c = seg.text[k - 1];
        if in_code(seg, k - 1) {
            st
        } else if st.len() > 0 && pair_end(st.last().1) == c {
            st.drop_last()
        } else {
            match opener(c) {
                Some(p) => st.push((k - 1, p)),
                None => st,
            }
        }
    }
}

pub open spec fn message(p: usize) -> Seq<char> {
    "Cannot find a pairing character for "@ + seq![pair_start(p)] + ". You should close this sentence with "@
        + seq![pair_end(p)] + ". This pair of marks is called "@ + pair_key(p) + "."@
}

pub open spec fn mark_issue(doc: DocumentView, seg: SegmentView, m: (int, usize)) -> Seq<IssueView> {
    let at = text::byte_pos(seg.text, m.0);
    seq![rule::issue_spec(rule_id(), message(m.1), document::seg_pos(doc, seg, at as int), Severity::Error)]
}

pub open spec fn sentence_issues(doc: DocumentView, seg: SegmentView, r: (int, int)) -> Seq<IssueView> {
    let st = open_marks(seg, r.0, r.1);
    rules::per_index(st.len(), |q: int| mark_issue(doc, seg, st[q]))
}

pub open spec fn segment_issues(doc: DocumentView, seg: SegmentView) -> Seq<IssueView> {
    if seg.kind == SegmentKind::Paragraph {
        let ss = rules::sentences(seg.text, Terminators::Mixed);
        rules::per_index(ss.len(), |q: int| sentence_issues(doc, seg, ss[q]))
    } else {
        seq![]
    }
}

pub proof fn lemma_open_marks(seg: SegmentView, a: int, k: int)
    requires
        0 <= a <= k <= seg.text.len(),
    ensures
        forall|q: int|
            0 <= q < open_marks(seg, a, k).len() ==> a <= (#[trigger] open_marks(seg, a, k)[q]).0 < k && 0
                <= open_marks(seg, a, k)[q].1 < PAIR_COUNT,
    decreases k - a,
{
    if k > a {
        lemma_open_marks(seg, a, k - 1);
        let st = open_marks(seg, a, k - 1);
        let c = seg.text[k - 1];
        if !in_code(seg, k - 1) && !(st.len() > 0 && pair_end(st.last().1) == c) {
            match opener(c) {
                Some(p) => assert(0 <= p < PAIR_COUNT),
                None => {},
            }
        }
    }
}

/// Law: every pair but the ASCII double quote is named after its two marks,
/// which end its name, the opening mark before the closing one; the double
/// quote both opens and closes its pair. The opening mark of a pair opens
/// that pair.
pub proof fn lemma_pair_names(p: usize)
    requires
        p < PAIR_COUNT,
    ensures
        p == 0 ==> pair_start(p) == '\"' && pair_end(p) == '\"',
        p > 0 ==> pair_key(p).len() >= 2 && pair_start(p) == pair_key(p)[pair_key(p).len() - 2] && pair_end(p)
            == pair_key(p)[pair_key(p).len() - 1],
        opener(pair_start(p)) == Some(p),
{
    reveal_strlit("angled bracket[]");
    reveal_strlit("round bracket()");
    reveal_strlit("curly brace{}");
    reveal_strlit("かぎ括弧「」");
    reveal_strlit("丸括弧（）");
    reveal_strlit("二重かぎ括弧『』");
    reveal_strlit("波括弧｛｝");
    reveal_strlit("角括弧［］");
    reveal_strlit("重角括弧〚〛");
    reveal_strlit("隅付き括弧【】");
    reveal_strlit("double guillemet «»");
    reveal_strlit("single guillemet ‹›");
}

/// Law: outside code, the closing mark named by the innermost open pair (the
/// last char of its name, or `"` for the double quote) closes that pair.
pub proof fn lemma_closing_mark(seg: SegmentView, a: int, k: int)
    requires
        0 <= a <= k < seg.text.len(),
        !in_code(seg, k),
        open_marks(seg, a, k).len() > 0,
        ({
            let p = open_marks(seg, a, k).last().1;
            (p == 0 && seg.text[k] == '\"') || (p > 0 && pair_key(p).len() > 0 && seg.text[k] == pair_key(p).last())
        }),
    ensures
        open_marks(seg, a, k + 1) == open_marks(seg, a, k).drop_last(),
{
    lemma_open_marks(seg, a, k);
    let st = open_marks(seg, a, k);
    let p = st.last().1;
    assert(st[st.len() - 1] == st.last());
    assert(p < PAIR_COUNT);
    lemma_pair_names(p);
}

/// Law: outside code, an opening mark directly followed by the closing mark
/// of the same pair (the two marks that end the pair's name) leaves the open
/// marks as they were.
pub proof fn lemma_pair_closed(seg: SegmentView, a: int, k: int, p: usize)
    requires
        0 <= a <= k,
        k + 2 <= seg.text.len(),
        !in_code(seg, k),
        !in_code(seg, k + 1),
        0 < p < PAIR_COUNT,
        pair_key(p).len() >= 2,
        seg.text[k] == pair_key(p)[pair_key(p).len() - 2],
        seg.text[k + 1] == pair_key(p)[pair_key(p).len() - 1],
    ensures
        open_marks(seg, a, k + 2) == open_marks(seg, a, k),
{
    lemma_pair_names(p);
    lemma_open_marks(seg, a, k);
    let st = open_marks(seg, a, k);
    if st.len() > 0 && pair_end(st.last().1) == seg.text[k] {
        // The opening mark of `p` closes no pair.
        assert(st[st.len() - 1] == st.last());
        let q = st.last().1;
        assert(q < PAIR_COUNT);
        lemma_pair_names(q);
        assert(false);
    }
    assert(open_marks(seg, a, k + 1) == st.push((k, p)));
    assert(open_marks(seg, a, k + 1).last().1 == p);
    assert(open_marks(seg, a, k + 2) =~= st.push((k, p)).drop_last());
}

pub open spec fn stack_view(v: Seq<(usize, usize)>) -> Seq<(int, usize)> {
    v.map_values(|m: (usize, usize)| (m.0 as int, m.1))
}

/// Appends the issues for the unclosed marks of sentence `[a, b)` of segment `i`.
fn sentence_check(doc: &Document, i: usize, chars: &Vec<char>, offs: &Vec<usize>, a: usize, b: usize, out: &mut Vec<Issue>)
    requires
        doc.wf(),
        i < doc@.segments.len(),
        chars@ == doc@.segments[i as int].text,
        rules::offsets_of(chars@, offs@),
        a <= b <= chars@.len(),
        rule::fixes_fit(doc@.source, rule::issues_view(old(out)@)),
    ensures
        rule::issues_view(final(out)@) == rule::issues_view(old(out)@) + sentence_issues(
            doc@,
            doc@.segments[i as int],
            (a as int, b as int),
        ),
        rule::fixes_fit(doc@.source, rule::issues_view(final(out)@)),
{
    let seg = doc.segment(i);
    let ghost sv = seg@;
    let ghost d = doc@;
    proof {
        doc.lemma_wf();
    }
    let mut stack: Vec<(usize, usize)> = Vec::new();
    let mut k: usize = a;
    assert(stack_view(stack@) =~= open_marks(sv, a as int, a as int));
    while k < b
        invariant
            sv == d.segments[i as int],
            seg@ == sv,
            chars@ == sv.text,
            rules::offsets_of(chars@, offs@),
            a <= k <= b <= chars@.len(),
            stack_view(stack@) == open_marks(sv, a as int, k as int),
            stack@.len() <= k - a,
        decreases b - k,
    {
        let c = chars[k];
        if rules::overlaps_any_exec(&seg.code_ranges, offs[k], offs[k + 1]) {
        } else {
            let n = stack.len();
            let top_closes = n > 0 && pair_end_exec(stack[n - 1].1) == c;
            if top_closes {
                let ghost prev = stack@;
                stack.pop();
                assert(stack_view(stack@) =~= stack_view(prev).drop_last());
            } else {
                match opener_exec(c) {
                    Some(p) => {
                        let ghost prev = stack@;
                        stack.push((k, p));
                        assert(stack_view(stack@) =~= stack_view(prev).push((k as int, p)));
                    },
                    None => {},
                }
            }
        }
        k += 1;
    }
    proof {
        lemma_open_marks(sv, a as int, b as int);
    }
    let ghost st = open_marks(sv, a as int, b as int);
    let ghost f = |q: int| mark_issue(d, sv, st[q]);
    let mut q: usize = 0;
    assert(rule::issues_view(out@) =~= rule::issues_view(old(out)@) + rules::per_index(0, f));
    while q < stack.len()
        invariant
            doc.wf(),
            d == doc@,
            document::view_wf(d),
            i < d.segments.len(),
            sv == d.segments[i as int],
            seg@ == sv,
            chars@ == sv.text,
            rules::offsets_of(chars@, offs@),
            st == open_marks(sv, a as int, b as int),
            stack_view(stack@) == st,
            forall|p: int| 0 <= p < st.len() ==> a <= (#[trigger] st[p]).0 < b && 0 <= st[p].1 < PAIR_COUNT,
            f == (|p: int| mark_issue(d, sv, st[p])),
            b <= chars@.len(),
            q <= stack@.len(),
            rule::issues_view(out@) == rule::issues_view(old(out)@) + rules::per_index(q as nat, f),
            rule::fixes_fit(d.source, rule::issues_view(out@)),
        decreases stack@.len() - q,
    {
        let (off, p) = stack[q];
        assert(st[q as int] == (off as int, p));
        proof {
            document::lemma_seg_offset(d, i as int, off as int);
        }
        let (line, column) = doc.pos_at(seg, offs[off]);
        let mut msg = String::new();
        text::push_str(&mut msg, "Cannot find a pairing character for ");
        text::push_char(&mut msg, pair_start_exec(p));
        text::push_str(&mut msg, ". You should close this sentence with ");
        text::push_char(&mut msg, pair_end_exec(p));
        text::push_str(&mut msg, ". This pair of marks is called ");
        text::push_str(&mut msg, pair_key_exec(p));
        text::push_str(&mut msg, ".");
        assert(msg@ =~= message(p));
        let issue = Issue::new("no-unmatched-pair", msg.as_str(), line, column, Severity::Error);
        let ghost prev = out@;
        out.push(issue);
        assert(rule::issues_view(out@) =~= rule::issues_view(prev).push(issue@));
        assert(seq![issue@] =~= f(q as int));
        assert(rule::issues_view(out@) =~= rule::issues_view(old(out)@) + rules::per_index(q as nat + 1, f));
        q += 1;
    }
}

pub struct NoUnmatchedPair;

impl SegmentRule for NoUnmatchedPair {
    open spec fn segment_spec(&self, doc: DocumentView, seg: SegmentView) -> Seq<IssueView> {
        segment_issues(doc, seg)
    }

    fn check_segment(&self, doc: &Document, i: usize, out: &mut Vec<Issue>) {
        let seg = doc.segment(i);
        let ghost sv = seg@;
        let ghost d = doc@;
        if seg.kind != SegmentKind::Paragraph {
            assert(rule::issues_view(out@) =~= rule::issues_view(old(out)@) + seq![]);
            return;
        }
        let (chars, offs) = text::char_table(seg.text.as_str());
        let ss = rules::split_sentences(&chars, Terminators::Mixed);
        let ghost gs = rules::sentences(sv.text, Terminators::Mixed);
        let ghost f = |q: int| sentence_issues(d, sv, gs[q]);
        let mut q: usize = 0;
        assert(rule::issues_view(out@) =~= rule::issues_view(old(out)@) + rules::per_index(0, f));
        while q < ss.len()
            invariant
                doc.wf(),
                d == doc@,
                i < d.segments.len(),
                sv == d.segments[i as int],
                chars@ == sv.text,
                rules::offsets_of(chars@, offs@),
                gs == rules::sentences(sv.text, Terminators::Mixed),
                rules::ranges_view(ss@) == gs,
                forall|p: int| 0 <= p < ss@.len() ==> #[trigger] ss@[p].0 < ss@[p].1 <= chars@.len(),
                f == (|p: int| sentence_issues(d, sv, gs[p])),
                q <= ss@.len(),
                rule::issues_view(out@) == rule::issues_view(old(out)@) + rules::per_index(q as nat, f),
                rule::fixes_fit(d.source, rule::issues_view(out@)),
            decreases ss@.len() - q,
        {
            let (a, b) = ss[q];
            assert(gs[q as int] == (a as int, b as int));
            sentence_check(doc, i, &chars, &offs, a, b, out);
            assert(rule::issues_view(out@) =~= rule::issues_view(old(out)@) + rules::per_index(q as nat + 1, f));
            q += 1;
        }
    }
}

impl Rule for NoUnmatchedPair {
    open spec fn spec_id(&self) -> Seq<char> {
        rule_id()
    }

    open spec fn accepts(&self, doc: DocumentView, issues: Seq<IssueView>) -> bool {
        issues == rules::all_segments(self, doc)
    }

    fn id(&self) -> (r: &str) {
        "no-unmatched-pair"
    }

    fn check(&self, doc: &Document) -> (issues: Vec<Issue>) {
        rules::check_segments(self, doc)
    }
}

} // verus!

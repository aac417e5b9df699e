//! preset-ja-technical-writing/sentence-length
//!
//! Reports each sentence whose length, without the white space around it and
//! counted in chars, exceeds the maximum.

use vstd::prelude::*;
use crate::document::{self, Document, DocumentView, SegmentKind, SegmentView};
use crate::rule::{self, Issue, IssueView, Rule, Severity};
use crate::rules::{self as rules, SegmentRule, Terminators};
use crate::text;

verus! {

pub open spec fn rule_id() -> Seq<char> {
    "sentence-length"@
}

pub open spec fn message(line: usize, len: nat, max: usize) -> Seq<char> {
    "Line "@ + text::decimal(line as nat) + " sentence length("@ + text::decimal(len) + ") exceeds the maximum sentence length of "@
        + text::decimal(max as nat) + ". Over "@ + text::decimal((len - max) as nat) + " characters."@
}

/// The number of chars of sentence `r` (a char range) of `t` without
/// surrounding white space.
pub open spec fn sentence_len(t: Seq<char>, r: (int, int)) -> nat {
    let a = rules::trim_start(t, r.0, r.1);
    (rules::trim_end(t, a, r.1) - a) as nat
}

pub open spec fn sentence_issue(doc: DocumentView, seg: SegmentView, max: usize, r: (int, int)) -> Seq<IssueView> {
    let len = sentence_len(seg.text, r);
    if len > max {
        let pos = document::seg_pos(doc, seg, text::byte_pos(seg.text, r.0) as int);
        seq![rule::issue_spec(rule_id(), message(pos.0, len, max), pos, Severity::Error)]
    } else {
        seq![]
    }
}

/// Chars `a..b` are what is left of chars `r.0..r.1` of `t` without white
/// space around it.
pub open spec fn trimmed_to(t: Seq<char>, r: (int, int), a: int, b: int) -> bool {
    &&& r.0 <= a <= b <= r.1
    &&& forall|k: int| r.0 <= k < a ==> rules::white_space(#[trigger] t[k])
    &&& forall|k: int| b <= k < r.1 ==> rules::white_space(#[trigger] t[k])
    &&& a < b ==> !rules::white_space(t[a]) && !rules::white_space(t[b - 1])
}

/// Every range has its trimmed part.
pub proof fn lemma_trimmed_exists(t: Seq<char>, r: (int, int))
    requires
        0 <= r.0 <= r.1 <= t.len(),
    ensures
        exists|a: int, b: int| trimmed_to(t, r, a, b),
{
    let a = rules::trim_start(t, r.0, r.1);
    rules::lemma_trim_start_props(t, r.0, r.1);
    let b = rules::trim_end(t, a, r.1);
    rules::lemma_trim_end_props(t, a, r.1);
    assert(trimmed_to(t, r, a, b));
}

/// Law: a sentence (chars `r.0..r.1` of the segment) is reported exactly when
/// it has more than `max` chars once the white space around it is left out,
/// and the message gives that number of chars; so the length reported never
/// exceeds the sentence's own range.
pub proof fn lemma_sentence_length(doc: DocumentView, seg: SegmentView, max: usize, r: (int, int), a: int, b: int)
    requires
        0 <= r.0 <= r.1 <= seg.text.len(),
        trimmed_to(seg.text, r, a, b),
    ensures
        b - a <= max ==> sentence_issue(doc, seg, max, r) == Seq::<IssueView>::empty(),
        b - a > max ==> sentence_issue(doc, seg, max, r) == seq![
            rule::issue_spec(
                rule_id(),
                message(
                    document::seg_pos(doc, seg, text::byte_pos(seg.text, r.0) as int).0,
                    (b - a) as nat,
                    max,
                ),
                document::seg_pos(doc, seg, text::byte_pos(seg.text, r.0) as int),
                Severity::Error,
            ),
        ],
        sentence_issue(doc, seg, max, r).len() > 0 ==> r.1 - r.0 > max,
{
    let t = seg.text;
    if a < b {
        rules::lemma_trim_start_at(t, r.0, r.1, a);
        rules::lemma_trim_end_at(t, a, r.1, b);
    } else {
        assert forall|k: int| r.0 <= k < r.1 implies rules::white_space(#[trigger] t[k]) by {
            if k < a {
            } else {
                assert(b <= k);
            }
        }
        rules::lemma_trim_start_at(t, r.0, r.1, r.1);
        rules::lemma_trim_end_at(t, r.1, r.1, r.1);
    }
    assert(sentence_len(t, r) == b - a);
}

pub open spec fn checked_kind(kind: SegmentKind) -> bool {
    kind == SegmentKind::Paragraph || kind == SegmentKind::Heading || kind == SegmentKind::ListItem
}

pub open spec fn segment_issues(doc: DocumentView, seg: SegmentView, max: usize) -> Seq<IssueView> {
    if checked_kind(seg.kind) {
        let ss = rules::sentences(seg.text, Terminators::Japanese);
        rules::per_index(ss.len(), |q: int| sentence_issue(doc, seg, max, ss[q]))
    } else {
        seq![]
    }
}

/// Sentence `r` of `t` has more than `max` chars once the white space around
/// it is left out.
pub open spec fn too_long(t: Seq<char>, r: (int, int), max: usize) -> bool {
    exists|a: int, b: int| trimmed_to(t, r, a, b) && b - a > max
}

/// Law: a paragraph, heading or list item gives one issue per sentence that
/// is too long; any other segment gives none.
pub proof fn lemma_long_sentences(doc: DocumentView, seg: SegmentView, max: usize)
    ensures
        !(seg.kind == SegmentKind::Paragraph || seg.kind == SegmentKind::Heading || seg.kind == SegmentKind::ListItem)
            ==> segment_issues(doc, seg, max).len() == 0,
        seg.kind == SegmentKind::Paragraph || seg.kind == SegmentKind::Heading || seg.kind == SegmentKind::ListItem
            ==> segment_issues(doc, seg, max).len() == ({
            let ss = rules::sentences(seg.text, Terminators::Japanese);
            Seq::new(ss.len(), |k: int| k).filter(|q: int| too_long(seg.text, ss[q], max)).len()
        }),
{
    if checked_kind(seg.kind) {
        let ss = rules::sentences(seg.text, Terminators::Japanese);
        rules::lemma_sentences_in(seg.text, Terminators::Japanese);
        let f = |q: int| sentence_issue(doc, seg, max, ss[q]);
        let p = |q: int| too_long(seg.text, ss[q], max);
        assert forall|k: int| 0 <= k < ss.len() implies (#[trigger] f(k)).len() == (if p(k) {
            1int
        } else {
            0int
        }) by {
            let r = ss[k];
            lemma_trimmed_exists(seg.text, r);
            let (a, b) = choose|a: int, b: int| trimmed_to(seg.text, r, a, b);
            lemma_sentence_length(doc, seg, max, r, a, b);
            if p(k) {
                let (a2, b2) = choose|a2: int, b2: int| trimmed_to(seg.text, r, a2, b2) && b2 - a2 > max;
                lemma_sentence_length(doc, seg, max, r, a2, b2);
            }
        }
        rules::lemma_per_index_count(ss.len(), f, p);
    }
}

pub struct SentenceLength {
    pub max: usize,
}

impl Default for SentenceLength {
    fn default() -> (r: Self)
        ensures
            r.max == 100,
    {
        SentenceLength { max: 100 }
    }
}

impl SegmentRule for SentenceLength {
    open spec fn segment_spec(&self, doc: DocumentView, seg: SegmentView) -> Seq<IssueView> {
        segment_issues(doc, seg, self.max)
    }

    fn check_segment(&self, doc: &Document, i: usize, out: &mut Vec<Issue>) {
        let seg = doc.segment(i);
        let ghost sv = seg@;
        let ghost d = doc@;
        proof {
            doc.lemma_wf();
        }
        match seg.kind {
            SegmentKind::Paragraph | SegmentKind::Heading | SegmentKind::ListItem => {},
            _ => {
                assert(rule::issues_view(out@) =~= rule::issues_view(old(out)@) + seq![]);
                return;
            },
        }
        let (chars, offs) = text::char_table(seg.text.as_str());
        let ss = rules::split_sentences(&chars, Terminators::Japanese);
        let ghost gs = rules::sentences(sv.text, Terminators::Japanese);
        let ghost f = |q: int| sentence_issue(d, sv, self.max, gs[q]);
        let mut q: usize = 0;
        assert(rule::issues_view(out@) =~= rule::issues_view(old(out)@) + rules::per_index(0, f));
        while q < ss.len()
            invariant
                doc.wf(),
                d == doc@,
                document::view_wf(d),
                i < d.segments.len(),
                sv == d.segments[i as int],
                seg@ == sv,
                chars@ == sv.text,
                rules::offsets_of(chars@, offs@),
                gs == rules::sentences(sv.text, Terminators::Japanese),
                rules::ranges_view(ss@) == gs,
                forall|p: int| 0 <= p < ss@.len() ==> #[trigger] ss@[p].0 < ss@[p].1 <= chars@.len(),
                f == (|p: int| sentence_issue(d, sv, self.max, gs[p])),
                q <= ss@.len(),
                rule::issues_view(out@) == rule::issues_view(old(out)@) + rules::per_index(q as nat, f),
                rule::fixes_fit(d.source, rule::issues_view(out@)),
            decreases ss@.len() - q,
        {
            let (a, b) = ss[q];
            assert(gs[q as int] == (a as int, b as int));
            let ta = rules::trim_start_exec(&chars, a, b);
            let tb = rules::trim_end_exec(&chars, ta, b);
            let len = tb - ta;
            if len > self.max {
                proof {
                    document::lemma_seg_offset(d, i as int, a as int);
                }
                let (line, column) = doc.pos_at(seg, offs[a]);
                let mut msg = String::new();
                text::push_str(&mut msg, "Line ");
                text::push_decimal(&mut msg, line);
                text::push_str(&mut msg, " sentence length(");
                text::push_decimal(&mut msg, len);
                text::push_str(&mut msg, ") exceeds the maximum sentence length of ");
                text::push_decimal(&mut msg, self.max);
                text::push_str(&mut msg, ". Over ");
                text::push_decimal(&mut msg, len - self.max);
                text::push_str(&mut msg, " characters.");
                let issue = Issue::new("sentence-length", msg.as_str(), line, column, Severity::Error);
                let ghost prev = out@;
                out.push(issue);
                assert(rule::issues_view(out@) =~= rule::issues_view(prev).push(issue@));
                assert(seq![issue@] =~= f(q as int));
            } else {
                assert(f(q as int) =~= Seq::<IssueView>::empty());
            }
            assert(rule::issues_view(out@) =~= rule::issues_view(old(out)@) + rules::per_index(q as nat + 1, f));
            q += 1;
        }
    }
}

impl Rule for SentenceLength {
    open spec fn spec_id(&self) -> Seq<char> {
        rule_id()
    }

    open spec fn accepts(&self, doc: DocumentView, issues: Seq<IssueView>) -> bool {
        issues == rules::all_segments(self, doc)
    }

    fn id(&self) -> (r: &str) {
        "sentence-length"
    }

    fn check(&self, doc: &Document) -> (issues: Vec<Issue>) {
        rules::check_segments(self, doc)
    }
}

} // verus!

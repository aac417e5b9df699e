//! preset-ja-technical-writing/max-comma
//!
//! Reports each sentence of a paragraph with more commas than allowed, at its
//! last comma.

use vstd::prelude::*;
use crate::document::{self, Document, DocumentView, SegmentKind, SegmentView};
use crate::rule::{self, Issue, IssueView, Rule, Severity};
use crate::rules::{self as rules, SegmentRule, Terminators};
use crate::text;

verus! {

pub open spec fn rule_id() -> Seq<char> {
    "max-comma"@
}

pub open spec fn message(max: usize) -> Seq<char> {
    "This sentence exceeds the maximum count of comma. Maximum is "@ + text::decimal(max as nat) + "."@
}

/// The issue for the sentence `r` (a char range) of segment `seg`.
pub open spec fn sentence_issue(doc: DocumentView, seg: SegmentView, max: usize, r: (int, int)) -> Seq<IssueView> {
    if rules::count_in(seg.text, r.0, r.1, ',') > max {
        let at = text::byte_pos(seg.text, rules::last_in(seg.text, r.0, r.1, ','));
        seq![rule::issue_spec(rule_id(), message(max), document::seg_pos(doc, seg, at as int), Severity::Error)]
    } else {
        seq![]
    }
}

/// Law: a sentence (chars `r.0..r.1` of the segment) is reported exactly
/// when it holds more ASCII commas `,` than `max`, and then once, at its last
/// `,`.
pub proof fn lemma_sentence_commas(doc: DocumentView, seg: SegmentView, max: usize, r: (int, int))
    requires
        0 <= r.0 <= r.1 <= seg.text.len(),
    ensures
        seg.text.subrange(r.0, r.1).filter(|x: char| x == ',').len() <= max ==> sentence_issue(doc, seg, max, r)
            == Seq::<IssueView>::empty(),
        seg.text.subrange(r.0, r.1).filter(|x: char| x == ',').len() > max ==> exists|k: int|
            r.0 <= k < r.1 && seg.text[k] == ',' && (forall|j: int| k < j < r.1 ==> seg.text[j] != ',')
                && sentence_issue(doc, seg, max, r) == seq![
                rule::issue_spec(
                    rule_id(),
                    message(max),
                    document::seg_pos(doc, seg, text::byte_pos(seg.text, k) as int),
                    Severity::Error,
                ),
            ],
{
    rules::lemma_count_in_filter(seg.text, r.0, r.1, ',');
    if rules::count_in(seg.text, r.0, r.1, ',') > max {
        rules::lemma_last_in(seg.text, r.0, r.1, ',');
        let k = rules::last_in(seg.text, r.0, r.1, ',');
        assert(r.0 <= k < r.1 && seg.text[k] == ',');
    }
}

pub open spec fn segment_issues(doc: DocumentView, seg: SegmentView, max: usize) -> Seq<IssueView> {
    if seg.kind == SegmentKind::Paragraph {
        let ss = rules::sentences(seg.text, Terminators::Japanese);
        rules::per_index(ss.len(), |q: int| sentence_issue(doc, seg, max, ss[q]))
    } else {
        seq![]
    }
}

/// The number of ASCII commas `,` in sentence `r` of `t`.
pub open spec fn commas(t: Seq<char>, r: (int, int)) -> nat {
    t.subrange(r.0, r.1).filter(|x: char| x == ',').len()
}

/// Law: a paragraph gives one issue per sentence holding more commas than
/// `max`; any other segment gives none.
pub proof fn lemma_paragraph_commas(doc: DocumentView, seg: SegmentView, max: usize)
    ensures
        seg.kind != SegmentKind::Paragraph ==> segment_issues(doc, seg, max).len() == 0,
        seg.kind == SegmentKind::Paragraph ==> segment_issues(doc, seg, max).len() == ({
            let ss = rules::sentences(seg.text, Terminators::Japanese);
            Seq::new(ss.len(), |k: int| k).filter(|q: int| commas(seg.text, ss[q]) > max).len()
        }),
{
    if seg.kind == SegmentKind::Paragraph {
        let ss = rules::sentences(seg.text, Terminators::Japanese);
        rules::lemma_sentences_in(seg.text, Terminators::Japanese);
        let f = |q: int| sentence_issue(doc, seg, max, ss[q]);
        let p = |q: int| commas(seg.text, ss[q]) > max;
        assert forall|k: int| 0 <= k < ss.len() implies (#[trigger] f(k)).len() == (if p(k) {
            1int
        } else {
            0int
        }) by {
            lemma_sentence_commas(doc, seg, max, ss[k]);
        }
        rules::lemma_per_index_count(ss.len(), f, p);
    }
}

pub struct MaxComma {
    pub max: usize,
}

impl Default for MaxComma {
    fn default() -> (r: Self)
        ensures
            r.max == 3,
    {
        MaxComma { max: 3 }
    }
}

impl SegmentRule for MaxComma {
    open spec fn segment_spec(&self, doc: DocumentView, seg: SegmentView) -> Seq<IssueView> {
        segment_issues(doc, seg, self.max)
    }

    fn check_segment(&self, doc: &Document, i: usize, out: &mut Vec<Issue>) {
        let seg = doc.segment(i);
        let ghost sv = seg@;
        let ghost d = doc@;
        proof {
            doc.lemma_wf();
        }
        if seg.kind != SegmentKind::Paragraph {
            assert(rule::issues_view(out@) =~= rule::issues_view(old(out)@) + seq![]);
            return;
        }
        let (chars, offs) = text::char_table(seg.text.as_str());
        let ss = rules::split_sentences(&chars, Terminators::Japanese);
        let ghost gs = rules::sentences(sv.text, Terminators::Japanese);
        let ghost f = |q: int| sentence_issue(d, sv, self.max, gs[q]);
        let mut msg = String::new();
        text::push_str(&mut msg, "This sentence exceeds the maximum count of comma. Maximum is ");
        text::push_decimal(&mut msg, self.max);
        text::push_str(&mut msg, ".");
        let mut q: usize = 0;
        assert(rule::issues_view(out@) =~= rule::issues_view(old(out)@) + rules::per_index(0, f));
        while q < ss.len()
            invariant
                doc.wf(),
                d == doc@,
                document::view_wf(d),
                i < d.segments.len(),
                sv == d.segments[i as int],
                seg@ == sv,
                chars@ == sv.text,
                rules::offsets_of(chars@, offs@),
                gs == rules::sentences(sv.text, Terminators::Japanese),
                rules::ranges_view(ss@) == gs,
                forall|p: int| 0 <= p < ss@.len() ==> #[trigger] ss@[p].0 < ss@[p].1 <= chars@.len(),
                msg@ == message(self.max),
                f == (|p: int| sentence_issue(d, sv, self.max, gs[p])),
                q <= ss@.len(),
                rule::issues_view(out@) == rule::issues_view(old(out)@) + rules::per_index(q as nat, f),
                rule::fixes_fit(d.source, rule::issues_view(out@)),
            decreases ss@.len() - q,
        {
            let (a, b) = ss[q];
            assert(gs[q as int] == (a as int, b as int));
            let (count, last) = rules::count_and_last(&chars, a, b, ',');
            if count > self.max {
                proof {
                    document::lemma_seg_offset(d, i as int, last as int);
                }
                let (line, column) = doc.pos_at(seg, offs[last]);
                let issue = Issue::new("max-comma", msg.as_str(), line, column, Severity::Error);
                let ghost prev = out@;
                out.push(issue);
                assert(rule::issues_view(out@) =~= rule::issues_view(prev).push(issue@));
                assert(seq![issue@] =~= f(q as int));
            } else {
                assert(f(q as int) =~= Seq::<IssueView>::empty());
            }
            assert(rule::issues_view(out@) =~= rule::issues_view(old(out)@) + rules::per_index(q as nat + 1, f));
            q += 1;
        }
    }
}

impl Rule for MaxComma {
    open spec fn spec_id(&self) -> Seq<char> {
        rule_id()
    }

    open spec fn accepts(&self, doc: DocumentView, issues: Seq<IssueView>) -> bool {
        issues == rules::all_segments(self, doc)
    }

    fn id(&self) -> (r: &str) {
        "max-comma"
    }

    fn check(&self, doc: &Document) -> (issues: Vec<Issue>) {
        rules::check_segments(self, doc)
    }
}

} // verus!

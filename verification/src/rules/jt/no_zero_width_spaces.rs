//! preset-ja-technical-writing/no-zero-width-spaces
//!
//! Reports each U+200B in running text, with a fix that deletes it.

use vstd::prelude::*;
use crate::document::{self, Document, DocumentView, SegmentView};
use crate::rule::{self, Fix, FixView, Issue, IssueView, Rule, Severity};
use crate::rules::{self as rules, is_str_bearing, SegmentRule};
use crate::text;

verus! {

pub open spec fn rule_id() -> Seq<char> {
    "no-zero-width-spaces"@
}

pub open spec fn message() -> Seq<char> {
    "Zero width space is disallowed."@
}

/// The issue for char `k` of segment `seg`, if it is a zero width space.
pub open spec fn char_issue(doc: DocumentView, seg: SegmentView, k: int) -> Seq<IssueView> {
    if seg.text[k] == '\u{200B}' {
        let off = text::byte_pos(seg.text, k);
        let abs = (seg.start_byte + off) as usize;
        seq![
            IssueView {
                fix: Some(FixView { start: abs, end: (abs + 3) as usize, replacement: seq![] }),
                ..rule::issue_spec(rule_id(), message(), document::seg_pos(doc, seg, off as int), Severity::Error)
            },
        ]
    } else {
        seq![]
    }
}

pub open spec fn segment_issues(doc: DocumentView, seg: SegmentView) -> Seq<IssueView> {
    if rules::str_bearing(seg.kind) {
        rules::per_index(seg.text.len(), |k: int| char_issue(doc, seg, k))
    } else {
        seq![]
    }
}

pub struct NoZeroWidthSpaces;

impl SegmentRule for NoZeroWidthSpaces {
    open spec fn segment_spec(&self, doc: DocumentView, seg: SegmentView) -> Seq<IssueView> {
        segment_issues(doc, seg)
    }

    fn check_segment(&self, doc: &Document, i: usize, out: &mut Vec<Issue>) {
        let seg = doc.segment(i);
        let ghost sv = seg@;
        let ghost d = doc@;
        proof {
            doc.lemma_wf();
        }
        if !is_str_bearing(seg.kind) {
            assert(rule::issues_view(out@) =~= rule::issues_view(old(out)@) + seq![]);
            return;
        }
        let (chars, offs) = text::char_table(seg.text.as_str());
        let ghost f = |k: int| char_issue(d, sv, k);
        let mut k: usize = 0;
        assert(rule::issues_view(out@) =~= rule::issues_view(old(out)@) + rules::per_index(0, f));
        while k < chars.len()
            invariant
                doc.wf(),
                d == doc@,
                document::view_wf(d),
                i < d.segments.len(),
                sv == d.segments[i as int],
                f == (|j: int| char_issue(d, sv, j)),
                seg@ == sv,
                chars@ == sv.text,
                offs@.len() == chars@.len() + 1,
                forall|j: int| 0 <= j <= chars@.len() ==> #[trigger] offs@[j] == text::byte_pos(chars@, j),
                k <= chars@.len(),
                rule::issues_view(out@) == rule::issues_view(old(out)@) + rules::per_index(k as nat, f),
                rule::fixes_fit(d.source, rule::issues_view(out@)),
            decreases chars@.len() - k,
        {
            if chars[k] == '\u{200B}' {
                proof {
                    document::lemma_seg_offset(d, i as int, k as int);
                    document::lemma_seg_offset(d, i as int, k + 1);
                    text::lemma_byte_pos_step(chars@, k as int);
                    text::lemma_char_width(chars@[k as int]);
                }
                let (line, column) = doc.pos_at(seg, offs[k]);
                let abs = seg.start_byte + offs[k];
                let issue = Issue::new("no-zero-width-spaces", "Zero width space is disallowed.", line, column, Severity::Error)
                    .with_fix(Fix { range: abs..abs + 3, replacement: String::new() });
                let ghost prev = out@;
                out.push(issue);
                assert(rule::issues_view(out@) =~= rule::issues_view(prev).push(issue@));
                assert(seq![issue@] == f(k as int));
                assert(rule::issues_view(out@) =~= rule::issues_view(old(out)@) + rules::per_index(k as nat + 1, f));
            } else {
                assert(f(k as int) =~= Seq::<IssueView>::empty());
                assert(rule::issues_view(out@) =~= rule::issues_view(old(out)@) + rules::per_index(k as nat + 1, f));
            }
            k += 1;
        }
    }
}

impl Rule for NoZeroWidthSpaces {
    open spec fn spec_id(&self) -> Seq<char> {
        rule_id()
    }

    open spec fn accepts(&self, doc: DocumentView, issues: Seq<IssueView>) -> bool {
        issues == rules::all_segments(self, doc)
    }

    fn id(&self) -> (r: &str) {
        "no-zero-width-spaces"
    }

    fn check(&self, doc: &Document) -> (issues: Vec<Issue>) {
        rules::check_segments(self, doc)
    }
}

} // verus!

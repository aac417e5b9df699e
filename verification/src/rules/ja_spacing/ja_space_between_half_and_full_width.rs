//! ja-spacing/ja-space-between-half-and-full-width
//!
//! Reports an ASCII letter or digit directly next to a full-width char (but
//! for the Japanese comma and period, in code, and in the destination of an
//! inline link), with a fix that inserts a space between them.

use vstd::prelude::*;
use crate::document::{self, Document, DocumentView, SegmentView};
use crate::rule::{self, Fix, FixView, Issue, IssueView, Rule, Severity};
use crate::rules::{self as rules, is_str_bearing, SegmentRule};
use crate::rules::ja_spacing::{
    full_width, half_width_alnum, is_full_width, is_half_width_alnum, is_zen_punctuation, zen_punctuation,
};
use crate::text;

verus! {

pub open spec fn rule_id() -> Seq<char> {
    "ja-space-between-half-and-full-width"@
}

pub open spec fn message() -> Seq<char> {
    "原則として、全角文字と半角文字の間にスペースを入れます。"@
}

/// The issue for the chars `k` and `k + 1` of segment `seg`.
pub open spec fn window_issue(doc: DocumentView, seg: SegmentView, k: int) -> Seq<IssueView> {
    let t = seg.text;
    let left = t[k];
    let right = t[k + 1];
    let han_to_zen = half_width_alnum(left) && full_width(right);
    let zen_to_han = full_width(left) && half_width_alnum(right);
    let zen_side = if han_to_zen {
        right
    } else {
        left
    };
    let l_byte = text::byte_pos(t, k);
    if (han_to_zen || zen_to_han) && !zen_punctuation(zen_side) && !rules::overlaps_any(
        seg.code_ranges,
        l_byte as int,
        text::byte_pos(t, k + 2) as int,
    ) && !rules::in_link(doc, seg, k) && !rules::in_link(doc, seg, k + 1) {
        let at = (seg.start_byte + text::byte_pos(t, k + 1)) as usize;
        seq![
            IssueView {
                fix: Some(FixView { start: at, end: at, replacement: " "@ }),
                ..rule::issue_spec(rule_id(), message(), document::seg_pos(doc, seg, l_byte as int), Severity::Error)
            },
        ]
    } else {
        seq![]
    }
}

pub open spec fn segment_issues(doc: DocumentView, seg: SegmentView) -> Seq<IssueView> {
    if rules::str_bearing(seg.kind) && seg.text.len() >= 2 {
        rules::per_index((seg.text.len() - 1) as nat, |k: int| window_issue(doc, seg, k))
    } else {
        seq![]
    }
}

pub struct JaSpaceBetweenHalfAndFullWidth;

impl SegmentRule for JaSpaceBetweenHalfAndFullWidth {
    open spec fn segment_spec(&self, doc: DocumentView, seg: SegmentView) -> Seq<IssueView> {
        segment_issues(doc, seg)
    }

    fn check_segment(&self, doc: &Document, i: usize, out: &mut Vec<Issue>) {
        let seg = doc.segment(i);
        let ghost sv = seg@;
        let ghost d = doc@;
        proof {
            doc.lemma_wf();
        }
        if !is_str_bearing(seg.kind) {
            assert(rule::issues_view(out@) =~= rule::issues_view(old(out)@) + seq![]);
            return;
        }
        let (chars, offs) = text::char_table(seg.text.as_str());
        if chars.len() < 2 {
            assert(rule::issues_view(out@) =~= rule::issues_view(old(out)@) + seq![]);
            return;
        }
        let n = chars.len() - 1;
        let ghost f = |k: int| window_issue(d, sv, k);
        let mut k: usize = 0;
        assert(rule::issues_view(out@) =~= rule::issues_view(old(out)@) + rules::per_index(0, f));
        while k < n
            invariant
                doc.wf(),
                d == doc@,
                document::view_wf(d),
                i < d.segments.len(),
                sv == d.segments[i as int],
                seg@ == sv,
                chars@ == sv.text,
                rules::offsets_of(chars@, offs@),
                n + 1 == chars@.len(),
                n + 1 <= usize::MAX,
                f == (|j: int| window_issue(d, sv, j)),
                k <= n,
                rule::issues_view(out@) == rule::issues_view(old(out)@) + rules::per_index(k as nat, f),
                rule::fixes_fit(d.source, rule::issues_view(out@)),
            decreases n - k,
        {
            let left = chars[k];
            let right = chars[k + 1];
            let han_to_zen = is_half_width_alnum(left) && is_full_width(right);
            let zen_to_han = is_full_width(left) && is_half_width_alnum(right);
            let zen_side = if han_to_zen {
                right
            } else {
                left
            };
            let mut pushed = false;
            if (han_to_zen || zen_to_han) && !is_zen_punctuation(zen_side) && !rules::overlaps_any_exec(
                &seg.code_ranges,
                offs[k],
                offs[k + 2],
            ) && !rules::in_link_exec(doc, i, &chars, &offs, k) && !rules::in_link_exec(doc, i, &chars, &offs, k + 1) {
                proof {
                    document::lemma_seg_offset(d, i as int, k as int);
                    document::lemma_seg_offset(d, i as int, k + 1);
                }
                let (line, column) = doc.pos_at(seg, offs[k]);
                let at = seg.start_byte + offs[k + 1];
                let issue = Issue::new(
                    "ja-space-between-half-and-full-width",
                    "原則として、全角文字と半角文字の間にスペースを入れます。",
                    line,
                    column,
                    Severity::Error,
                ).with_fix(Fix { range: at..at, replacement: " ".to_owned() });
                let ghost prev_out = out@;
                out.push(issue);
                assert(rule::issues_view(out@) =~= rule::issues_view(prev_out).push(issue@));
                assert(seq![issue@] =~= f(k as int));
                pushed = true;
            }
            if !pushed {
                assert(f(k as int) =~= Seq::<IssueView>::empty());
            }
            assert(rule::issues_view(out@) =~= rule::issues_view(old(out)@) + rules::per_index(k as nat + 1, f));
            k += 1;
        }
    }
}

impl Rule for JaSpaceBetweenHalfAndFullWidth {
    open spec fn spec_id(&self) -> Seq<char> {
        rule_id()
    }

    open spec fn accepts(&self, doc: DocumentView, issues: Seq<IssueView>) -> bool {
        issues == rules::all_segments(self, doc)
    }

    fn id(&self) -> (r: &str) {
        "ja-space-between-half-and-full-width"
    }

    fn check(&self, doc: &Document) -> (issues: Vec<Issue>) {
        rules::check_segments(self, doc)
    }
}

} // verus!

//! ja-spacing/ja-no-space-between-full-width
//!
//! Reports a single space between two full-width chars, but for one between
//! two katakana (a compound), in code or in the destination of an inline link,
//! with a fix that deletes it.

use vstd::prelude::*;
use crate::document::{self, Document, DocumentView, SegmentView};
use crate::rule::{self, Fix, FixView, Issue, IssueView, Rule, Severity};
use crate::rules::{self as rules, is_str_bearing, SegmentRule};
use crate::rules::ja_spacing::{full_width, is_full_width, is_katakana_in_compound, katakana};
use crate::text;

verus! {

pub open spec fn rule_id() -> Seq<char> {
    "ja-no-space-between-full-width"@
}

pub open spec fn message() -> Seq<char> {
    "原則として、全角文字どうしの間にスペースを入れません。"@
}

/// The issue for the chars `k..k + 3` of segment `seg`.
pub open spec fn window_issue(doc: DocumentView, seg: SegmentView, k: int) -> Seq<IssueView> {
    let t = seg.text;
    let sp = text::byte_pos(t, k + 1);
    if t[k + 1] == ' ' && full_width(t[k]) && full_width(t[k + 2]) && !(katakana(t[k]) && katakana(t[k + 2]))
        && !rules::overlaps_any(seg.code_ranges, sp as int, sp + 1int) && !rules::in_link(doc, seg, k + 1) {
        let abs = (seg.start_byte + sp) as usize;
        seq![
            IssueView {
                fix: Some(FixView { start: abs, end: (abs + 1) as usize, replacement: seq![] }),
                ..rule::issue_spec(rule_id(), message(), document::seg_pos(doc, seg, sp as int), Severity::Error)
            },
        ]
    } else {
        seq![]
    }
}

pub open spec fn segment_issues(doc: DocumentView, seg: SegmentView) -> Seq<IssueView> {
    if rules::str_bearing(seg.kind) && seg.text.len() >= 3 {
        rules::per_index((seg.text.len() - 2) as nat, |k: int| window_issue(doc, seg, k))
    } else {
        seq![]
    }
}

pub struct JaNoSpaceBetweenFullWidth;

impl SegmentRule for JaNoSpaceBetweenFullWidth {
    open spec fn segment_spec(&self, doc: DocumentView, seg: SegmentView) -> Seq<IssueView> {
        segment_issues(doc, seg)
    }

    fn check_segment(&self, doc: &Document, i: usize, out: &mut Vec<Issue>) {
        let seg = doc.segment(i);
        let ghost sv = seg@;
        let ghost d = doc@;
        proof {
            doc.lemma_wf();
        }
        if !is_str_bearing(seg.kind) {
            assert(rule::issues_view(out@) =~= rule::issues_view(old(out)@) + seq![]);
            return;
        }
        let (chars, offs) = text::char_table(seg.text.as_str());
        if chars.len() < 3 {
            assert(rule::issues_view(out@) =~= rule::issues_view(old(out)@) + seq![]);
            return;
        }
        let n = chars.len() - 2;
        let ghost f = |k: int| window_issue(d, sv, k);
        let mut k: usize = 0;
        assert(rule::issues_view(out@) =~= rule::issues_view(old(out)@) + rules::per_index(0, f));
        while k < n
            invariant
                doc.wf(),
                d == doc@,
                document::view_wf(d),
                i < d.segments.len(),
                sv == d.segments[i as int],
                seg@ == sv,
                chars@ == sv.text,
                rules::offsets_of(chars@, offs@),
                n + 2 == chars@.len(),
                n + 2 <= usize::MAX,
                f == (|j: int| window_issue(d, sv, j)),
                k <= n,
                rule::issues_view(out@) == rule::issues_view(old(out)@) + rules::per_index(k as nat, f),
                rule::fixes_fit(d.source, rule::issues_view(out@)),
            decreases n - k,
        {
            let prev = chars[k];
            let sp = chars[k + 1];
            let next = chars[k + 2];
            let mut pushed = false;
            if sp == ' ' && is_full_width(prev) && is_full_width(next) && !(is_katakana_in_compound(prev)
                && is_katakana_in_compound(next)) {
                proof {
                    document::lemma_seg_offset(d, i as int, k + 1);
                    document::lemma_seg_offset(d, i as int, k + 2);
                    text::lemma_byte_pos_step(chars@, k + 1);
                    text::lemma_char_width(chars@[k + 1]);
                }
                let sp_byte = offs[k + 1];
                if !rules::overlaps_any_exec(&seg.code_ranges, sp_byte, sp_byte + 1) && !rules::in_link_exec(doc, i, &chars, &offs, k + 1,
                ) {
                    let (line, column) = doc.pos_at(seg, sp_byte);
                    let abs = seg.start_byte + sp_byte;
                    let issue = Issue::new(
                        "ja-no-space-between-full-width",
                        "原則として、全角文字どうしの間にスペースを入れません。",
                        line,
                        column,
                        Severity::Error,
                    ).with_fix(Fix { range: abs..abs + 1, replacement: String::new() });
                    let ghost prev_out = out@;
                    out.push(issue);
                    assert(rule::issues_view(out@) =~= rule::issues_view(prev_out).push(issue@));
                    assert(seq![issue@] =~= f(k as int));
                    pushed = true;
                }
            }
            if !pushed {
                assert(f(k as int) =~= Seq::<IssueView>::empty());
            }
            assert(rule::issues_view(out@) =~= rule::issues_view(old(out)@) + rules::per_index(k as nat + 1, f));
            k += 1;
        }
    }
}

impl Rule for JaNoSpaceBetweenFullWidth {
    open spec fn spec_id(&self) -> Seq<char> {
        rule_id()
    }

    open spec fn accepts(&self, doc: DocumentView, issues: Seq<IssueView>) -> bool {
        issues == rules::all_segments(self, doc)
    }

    fn id(&self) -> (r: &str) {
        "ja-no-space-between-full-width"
    }

    fn check(&self, doc: &Document) -> (issues: Vec<Issue>) {
        rules::check_segments(self, doc)
    }
}

} // verus!

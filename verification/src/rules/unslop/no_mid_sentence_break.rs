//! no-mid-sentence-break
//!
//! In a paragraph outside block quotes, reports each line break whose last
//! preceding char other than white space does not end a sentence. A sentence
//! broken over lines slips past the checks that split text into sentences.

use vstd::prelude::*;
use crate::document::{self, Document, DocumentView, SegmentKind, SegmentView};
use crate::rule::{self, Issue, IssueView, Rule, Severity};
use crate::rules::{self as rules, SegmentRule};
use crate::text;

verus! {

pub open spec fn rule_id() -> Seq<char> {
    "no-mid-sentence-break"@
}

pub open spec fn message() -> Seq<char> {
    "文の途中で改行されています。一文の途中の改行は sentence-length などの文分割チェックをすり抜けるため、句点で区切ってください。"@
}

/// Chars after which a line break is allowed.
pub open spec fn sentence_ender(c: char) -> bool {
    c == '。' || c == '．' || c == '.' || c == '！' || c == '!' || c == '？' || c == '?' || c == '」' || c == '』'
        || c == '）' || c == ')' || c == '】' || c == '〕' || c == '》' || c == '〉' || c == '｝' || c == '］'
        || c == '}' || c == ']' || c == '…'
}

pub fn is_sentence_ender(c: char) -> (r: bool)
    ensures
        r == sentence_ender(c),
{
    c == '。' || c == '．' || c == '.' || c == '！' || c == '!' || c == '？' || c == '?' || c == '」' || c == '』'
        || c == '）' || c == ')' || c == '】' || c == '〕' || c == '》' || c == '〉' || c == '｝' || c == '］'
        || c == '}' || c == ']' || c == '…'
}

/// The last char among the first `k` of `t` that is not white space.
pub open spec fn last_solid(t: Seq<char>, k: int) -> Option<char>
    decreases k,
{
    if k <= 0 {
        None
    } else if !rules::white_space(t[k - 1]) {
        Some(t[k - 1])
    } else {
        last_solid(t, k - 1)
    }
}

/// The issue for char `k` of segment `seg`, if it is a line break in mid sentence.
pub open spec fn char_issue(doc: DocumentView, seg: SegmentView, k: int) -> Seq<IssueView> {
    if seg.text[k] == '\n' && (last_solid(seg.text, k) matches Some(p) && !sentence_ender(p)) {
        let at = text::byte_pos(seg.text, k);
        seq![rule::issue_spec(rule_id(), message(), document::seg_pos(doc, seg, at as int), Severity::Error)]
    } else {
        seq![]
    }
}

pub open spec fn segment_issues(doc: DocumentView, seg: SegmentView) -> Seq<IssueView> {
    if seg.kind == SegmentKind::Paragraph && !seg.in_block_quote {
        rules::per_index(seg.text.len(), |k: int| char_issue(doc, seg, k))
    } else {
        seq![]
    }
}

pub struct NoMidSentenceBreak;

impl SegmentRule for NoMidSentenceBreak {
    open spec fn segment_spec(&self, doc: DocumentView, seg: SegmentView) -> Seq<IssueView> {
        segment_issues(doc, seg)
    }

    fn check_segment(&self, doc: &Document, i: usize, out: &mut Vec<Issue>) {
        let seg = doc.segment(i);
        let ghost sv = seg@;
        let ghost d = doc@;
        proof {
            doc.lemma_wf();
        }
        if seg.kind != SegmentKind::Paragraph || seg.in_block_quote {
            assert(rule::issues_view(out@) =~= rule::issues_view(old(out)@) + seq![]);
            return;
        }
        let (chars, offs) = text::char_table(seg.text.as_str());
        let ghost f = |k: int| char_issue(d, sv, k);
        let mut last: Option<char> = None;
        let mut k: usize = 0;
        assert(rule::issues_view(out@) =~= rule::issues_view(old(out)@) + rules::per_index(0, f));
        while k < chars.len()
            invariant
                doc.wf(),
                d == doc@,
                document::view_wf(d),
                i < d.segments.len(),
                sv == d.segments[i as int],
                seg@ == sv,
                chars@ == sv.text,
                rules::offsets_of(chars@, offs@),
                f == (|j: int| char_issue(d, sv, j)),
                k <= chars@.len(),
                last == last_solid(chars@, k as int),
                rule::issues_view(out@) == rule::issues_view(old(out)@) + rules::per_index(k as nat, f),
                rule::fixes_fit(d.source, rule::issues_view(out@)),
            decreases chars@.len() - k,
        {
            let ch = chars[k];
            let mut pushed = false;
            if ch == '\n' {
                if let Some(prev) = last {
                    if !is_sentence_ender(prev) {
                        proof {
                            document::lemma_seg_offset(d, i as int, k as int);
                        }
                        let (line, column) = doc.pos_at(seg, offs[k]);
                        let issue = Issue::new(
                            "no-mid-sentence-break",
                            "文の途中で改行されています。一文の途中の改行は sentence-length などの文分割チェックをすり抜けるため、句点で区切ってください。",
                            line,
                            column,
                            Severity::Error,
                        );
                        let ghost prev_out = out@;
                        out.push(issue);
                        assert(rule::issues_view(out@) =~= rule::issues_view(prev_out).push(issue@));
                        assert(seq![issue@] =~= f(k as int));
                        pushed = true;
                    }
                }
            }
            if !pushed {
                assert(f(k as int) =~= Seq::<IssueView>::empty());
            }
            assert(rule::issues_view(out@) =~= rule::issues_view(old(out)@) + rules::per_index(k as nat + 1, f));
            if !rules::is_white_space(ch) {
                last = Some(ch);
            }
            k += 1;
        }
    }
}

impl Rule for NoMidSentenceBreak {
    open spec fn spec_id(&self) -> Seq<char> {
        rule_id()
    }

    open spec fn accepts(&self, doc: DocumentView, issues: Seq<IssueView>) -> bool {
        issues == rules::all_segments(self, doc)
    }

    fn id(&self) -> (r: &str) {
        "no-mid-sentence-break"
    }

    fn check(&self, doc: &Document) -> (issues: Vec<Issue>) {
        rules::check_segments(self, doc)
    }
}

} // verus!

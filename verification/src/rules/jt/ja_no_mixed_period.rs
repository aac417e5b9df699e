//! preset-ja-technical-writing/ja-no-mixed-period
//!
//! In a paragraph with Japanese text, reports each sentence that ends in `.`,
//! `．`, `:` or `：` outside code and outside the destination of an inline
//! link, with a fix that puts `。` in its place.

use vstd::prelude::*;
use crate::document::{self, Document, DocumentView, SegmentKind, SegmentView};
use crate::rule::{self, Fix, FixView, Issue, IssueView, Rule, Severity};
use crate::rules::{self as rules, SegmentRule, Terminators};
use crate::text;

verus! {

pub open spec fn rule_id() -> Seq<char> {
    "ja-no-mixed-period"@
}

/// Hiragana, katakana and the CJK unified ideographs.
pub open spec fn japanese_char(c: char) -> bool {
    let v = c as u32;
    (0x3040 <= v <= 0x309F) || (0x30A0 <= v <= 0x30FF) || (0x4E00 <= v <= 0x9FFF)
}

pub open spec fn has_japanese(t: Seq<char>) -> bool {
    exists|k: int| 0 <= k < t.len() && japanese_char(#[trigger] t[k])
}

pub fn contains_japanese_char(chars: &Vec<char>) -> (r: bool)
    ensures
        r == has_japanese(chars@),
{
    let mut k: usize = 0;
    while k < chars.len()
        invariant
            k <= chars@.len(),
            forall|j: int| 0 <= j < k ==> !japanese_char(#[trigger] chars@[j]),
        decreases chars@.len() - k,
    {
        let v = chars[k] as u32;
        if (0x3040 <= v && v <= 0x309F) || (0x30A0 <= v && v <= 0x30FF) || (0x4E00 <= v && v <= 0x9FFF) {
            assert(japanese_char(chars@[k as int]));
            return true;
        }
        k += 1;
    }
    false
}

/// Chars dropped from the end of a sentence before its last char is read.
pub open spec fn trailing(c: char) -> bool {
    c == '\n' || c == '\r' || c == ' ' || c == '\t'
}

/// One past the last index in `a..b` whose char is not trailing, or `a`.
pub open spec fn trim_trailing(t: Seq<char>, a: int, b: int) -> int
    decreases b - a,
{
    if b <= a {
        a
    } else if trailing(t[b - 1]) {
        trim_trailing(t, a, b - 1)
    } else {
        b
    }
}

fn trim_trailing_exec(chars: &Vec<char>, a: usize, b: usize) -> (r: usize)
    requires
        a <= b <= chars@.len(),
    ensures
        r == trim_trailing(chars@, a as int, b as int),
        a <= r <= b,
    decreases b - a,
{
    if b <= a {
        a
    } else {
        let c = chars[b - 1];
        if c == '\n' || c == '\r' || c == ' ' || c == '\t' {
            trim_trailing_exec(chars, a, b - 1)
        } else {
            b
        }
    }
}

/// The marks the rule reports at the end of a sentence.
pub open spec fn mixed_period(c: char) -> bool {
    c == '.' || c == '．' || c == ':' || c == '：'
}

pub open spec fn message(c: char) -> Seq<char> {
    "Disallow to use \""@ + seq![c] + "\" as sentence terminator; use \"。\"."@
}

/// The issue for sentence `r` (a char range) of segment `seg`.
pub open spec fn sentence_issue(doc: DocumentView, seg: SegmentView, r: (int, int)) -> Seq<IssueView> {
    let t = seg.text;
    let te = trim_trailing(t, r.0, r.1);
    if te <= r.0 || !mixed_period(t[te - 1]) {
        seq![]
    } else {
        let rel = text::byte_pos(t, te - 1);
        let end_rel = text::byte_pos(t, te);
        if rules::overlaps_any(seg.code_ranges, rel as int, end_rel as int) || rules::in_link(doc, seg, te - 1) {
            seq![]
        } else {
            let abs = (seg.start_byte + rel) as usize;
            let len = (end_rel - rel) as usize;
            seq![
                IssueView {
                    fix: Some(FixView { start: abs, end: (abs + len) as usize, replacement: "。"@ }),
                    ..rule::issue_spec(
                        rule_id(),
                        message(t[te - 1]),
                        document::seg_pos(doc, seg, rel as int),
                        Severity::Error,
                    )
                },
            ]
        }
    }
}

pub open spec fn segment_issues(doc: DocumentView, seg: SegmentView) -> Seq<IssueView> {
    if seg.kind == SegmentKind::Paragraph && has_japanese(seg.text) {
        let ss = rules::sentences(seg.text, Terminators::Mixed);
        rules::per_index(ss.len(), |q: int| sentence_issue(doc, seg, ss[q]))
    } else {
        seq![]
    }
}

pub struct JaNoMixedPeriod;

impl SegmentRule for JaNoMixedPeriod {
    open spec fn segment_spec(&self, doc: DocumentView, seg: SegmentView) -> Seq<IssueView> {
        segment_issues(doc, seg)
    }

    fn check_segment(&self, doc: &Document, i: usize, out: &mut Vec<Issue>) {
        let seg = doc.segment(i);
        let ghost sv = seg@;
        let ghost d = doc@;
        proof {
            doc.lemma_wf();
        }
        if seg.kind != SegmentKind::Paragraph {
            assert(rule::issues_view(out@) =~= rule::issues_view(old(out)@) + seq![]);
            return;
        }
        let (chars, offs) = text::char_table(seg.text.as_str());
        if !contains_japanese_char(&chars) {
            assert(rule::issues_view(out@) =~= rule::issues_view(old(out)@) + seq![]);
            return;
        }
        let ss = rules::split_sentences(&chars, Terminators::Mixed);
        let ghost gs = rules::sentences(sv.text, Terminators::Mixed);
        let ghost f = |q: int| sentence_issue(d, sv, gs[q]);
        let mut q: usize = 0;
        assert(rule::issues_view(out@) =~= rule::issues_view(old(out)@) + rules::per_index(0, f));
        while q < ss.len()
            invariant
                doc.wf(),
                d == doc@,
                document::view_wf(d),
                i < d.segments.len(),
                sv == d.segments[i as int],
                seg@ == sv,
                chars@ == sv.text,
                rules::offsets_of(chars@, offs@),
                gs == rules::sentences(sv.text, Terminators::Mixed),
                rules::ranges_view(ss@) == gs,
                forall|p: int| 0 <= p < ss@.len() ==> #[trigger] ss@[p].0 < ss@[p].1 <= chars@.len(),
                f == (|p: int| sentence_issue(d, sv, gs[p])),
                q <= ss@.len(),
                rule::issues_view(out@) == rule::issues_view(old(out)@) + rules::per_index(q as nat, f),
                rule::fixes_fit(d.source, rule::issues_view(out@)),
            decreases ss@.len() - q,
        {
            let (a, b) = ss[q];
            assert(gs[q as int] == (a as int, b as int));
            let te = trim_trailing_exec(&chars, a, b);
            let mut pushed = false;
            if te > a {
                let c = chars[te - 1];
                if c == '.' || c == '．' || c == ':' || c == '：' {
                    let rel = offs[te - 1];
                    let end_rel = offs[te];
                    if !rules::overlaps_any_exec(&seg.code_ranges, rel, end_rel) && !rules::in_link_exec(doc, i, &chars, &offs, te - 1) {
                        proof {
                            document::lemma_seg_offset(d, i as int, te - 1);
                            document::lemma_seg_offset(d, i as int, te as int);
                            text::lemma_byte_pos_step(chars@, te - 1);
                        }
                        let (line, column) = doc.pos_at(seg, rel);
                        let abs = seg.start_byte + rel;
                        let len = end_rel - rel;
                        let mut msg = String::new();
                        text::push_str(&mut msg, "Disallow to use \"");
                        text::push_char(&mut msg, c);
                        text::push_str(&mut msg, "\" as sentence terminator; use \"。\".");
                        assert(msg@ =~= message(c));
                        let issue = Issue::new("ja-no-mixed-period", msg.as_str(), line, column, Severity::Error)
                            .with_fix(Fix { range: abs..abs + len, replacement: "。".to_owned() });
                        let ghost prev = out@;
                        out.push(issue);
                        assert(rule::issues_view(out@) =~= rule::issues_view(prev).push(issue@));
                        assert(seq![issue@] =~= f(q as int));
                        pushed = true;
                    }
                }
            }
            if !pushed {
                assert(f(q as int) =~= Seq::<IssueView>::empty());
            }
            assert(rule::issues_view(out@) =~= rule::issues_view(old(out)@) + rules::per_index(q as nat + 1, f));
            q += 1;
        }
    }
}

impl Rule for JaNoMixedPeriod {
    open spec fn spec_id(&self) -> Seq<char> {
        rule_id()
    }

    open spec fn accepts(&self, doc: DocumentView, issues: Seq<IssueView>) -> bool {
        issues == rules::all_segments(self, doc)
    }

    fn id(&self) -> (r: &str) {
        "ja-no-mixed-period"
    }

    fn check(&self, doc: &Document) -> (issues: Vec<Issue>) {
        rules::check_segments(self, doc)
    }
}

} // verus!

//! preset-ja-technical-writing/no-nfd
//!
//! Reports a char followed by a combining (or spacing) voiced or semi-voiced
//! sound mark, the decomposed form that some file systems produce, with a fix
//! that puts the composed form in its place.

use vstd::prelude::*;
use crate::document::{self, Document, DocumentView, SegmentView};
use crate::normalize;
use crate::rule::{self, Fix, FixView, Issue, IssueView, Rule, Severity};
use crate::rules::{self as rules, is_str_bearing, SegmentRule};
use crate::text;

verus! {

pub open spec fn rule_id() -> Seq<char> {
    "no-nfd"@
}

/// The voiced and semi-voiced sound marks, spacing and combining.
pub open spec fn sound_mark(c: char) -> bool {
    let v = c as u32;
    v == 0x309B || v == 0x309C || v == 0x309A || v == 0x3099
}

fn is_target(c: char) -> (r: bool)
    ensures
        r == sound_mark(c),
{
    let v = c as u32;
    v == 0x309B || v == 0x309C || v == 0x309A || v == 0x3099
}

/// A spacing sound mark turned into its combining form; other chars are kept.
pub open spec fn combining(c: char) -> char {
    let v = c as u32;
    if v == 0x309B {
        '\u{3099}'
    } else if v == 0x309C {
        '\u{309A}'
    } else {
        c
    }
}

fn combining_exec(c: char) -> (r: char)
    ensures
        r == combining(c),
{
    let v = c as u32;
    if v == 0x309B {
        '\u{3099}'
    } else if v == 0x309C {
        '\u{309A}'
    } else {
        c
    }
}

pub open spec fn message(pair: Seq<char>, nfc: Seq<char>) -> Seq<char> {
    "Disallow to use NFD(well-known as UTF8-MAC 濁点): \""@ + pair + "\" => \""@ + nfc + "\""@
}

/// The issue for char `k` of segment `seg`, if it is a sound mark after some char.
pub open spec fn char_issue(doc: DocumentView, seg: SegmentView, k: int) -> Seq<IssueView> {
    let t = seg.text;
    if k >= 1 && sound_mark(t[k]) {
        let pair = t.subrange(k - 1, k + 1);
        let nfc = normalize::nfc_of(seq![combining(t[k - 1]), combining(t[k])]);
        let s = (seg.start_byte + text::byte_pos(t, k - 1)) as usize;
        let e = (seg.start_byte + text::byte_pos(t, k + 1)) as usize;
        seq![
            IssueView {
                fix: Some(FixView { start: s, end: e, replacement: nfc }),
                ..rule::issue_spec(
                    rule_id(),
                    message(pair, nfc),
                    document::seg_pos(doc, seg, text::byte_pos(t, k) as int),
                    Severity::Error,
                )
            },
        ]
    } else {
        seq![]
    }
}

pub open spec fn segment_issues(doc: DocumentView, seg: SegmentView) -> Seq<IssueView> {
    if rules::str_bearing(seg.kind) {
        rules::per_index(seg.text.len(), |k: int| char_issue(doc, seg, k))
    } else {
        seq![]
    }
}

pub struct NoNfd;

impl SegmentRule for NoNfd {
    open spec fn segment_spec(&self, doc: DocumentView, seg: SegmentView) -> Seq<IssueView> {
        segment_issues(doc, seg)
    }

    fn check_segment(&self, doc: &Document, i: usize, out: &mut Vec<Issue>) {
        let seg = doc.segment(i);
        let ghost sv = seg@;
        let ghost d = doc@;
        proof {
            doc.lemma_wf();
        }
        if !is_str_bearing(seg.kind) {
            assert(rule::issues_view(out@) =~= rule::issues_view(old(out)@) + seq![]);
            return;
        }
        let (chars, offs) = text::char_table(seg.text.as_str());
        let ghost f = |k: int| char_issue(d, sv, k);
        let mut k: usize = 0;
        assert(rule::issues_view(out@) =~= rule::issues_view(old(out)@) + rules::per_index(0, f));
        while k < chars.len()
            invariant
                doc.wf(),
                d == doc@,
                document::view_wf(d),
                i < d.segments.len(),
                sv == d.segments[i as int],
                seg@ == sv,
                chars@ == sv.text,
                rules::offsets_of(chars@, offs@),
                f == (|j: int| char_issue(d, sv, j)),
                k <= chars@.len(),
                rule::issues_view(out@) == rule::issues_view(old(out)@) + rules::per_index(k as nat, f),
                rule::fixes_fit(d.source, rule::issues_view(out@)),
            decreases chars@.len() - k,
        {
            let c = chars[k];
            if k >= 1 && is_target(c) {
                proof {
                    document::lemma_seg_offset(d, i as int, k - 1);
                    document::lemma_seg_offset(d, i as int, k as int);
                    document::lemma_seg_offset(d, i as int, k + 1);
                    text::lemma_byte_pos_mono(chars@, k - 1, k + 1);
                }
                let pair = text::string_of(&chars, k - 1, k + 1);
                let mut normalized = String::new();
                text::push_char(&mut normalized, combining_exec(chars[k - 1]));
                text::push_char(&mut normalized, combining_exec(c));
                assert(normalized@ =~= seq![combining(chars@[k - 1]), combining(chars@[k as int])]);
                let nfc = normalize::nfc(normalized.as_str());
                let (line, column) = doc.pos_at(seg, offs[k]);
                let s = seg.start_byte + offs[k - 1];
                let e = seg.start_byte + offs[k + 1];
                let mut msg = String::new();
                text::push_str(&mut msg, "Disallow to use NFD(well-known as UTF8-MAC 濁点): \"");
                text::push_str(&mut msg, pair.as_str());
                text::push_str(&mut msg, "\" => \"");
                text::push_str(&mut msg, nfc.as_str());
                text::push_str(&mut msg, "\"");
                assert(msg@ =~= message(pair@, nfc@));
                let issue = Issue::new("no-nfd", msg.as_str(), line, column, Severity::Error)
                    .with_fix(Fix { range: s..e, replacement: nfc });
                let ghost prev_out = out@;
                out.push(issue);
                assert(rule::issues_view(out@) =~= rule::issues_view(prev_out).push(issue@));
                assert(seq![issue@] =~= f(k as int));
            } else {
                assert(f(k as int) =~= Seq::<IssueView>::empty());
            }
            assert(rule::issues_view(out@) =~= rule::issues_view(old(out)@) + rules::per_index(k as nat + 1, f));
            k += 1;
        }
    }
}

impl Rule for NoNfd {
    open spec fn spec_id(&self) -> Seq<char> {
        rule_id()
    }

    open spec fn accepts(&self, doc: DocumentView, issues: Seq<IssueView>) -> bool {
        issues == rules::all_segments(self, doc)
    }

    fn id(&self) -> (r: &str) {
        "no-nfd"
    }

    fn check(&self, doc: &Document) -> (issues: Vec<Issue>) {
        rules::check_segments(self, doc)
    }
}

} // verus!

//! preset-ja-technical-writing/no-hankaku-kana
//!
//! Reports each run of half-width katakana, with a fix that puts its NFKC
//! form (full-width katakana) in its place.

use vstd::prelude::*;
use crate::document::{self, Document, DocumentView, SegmentView};
use crate::normalize;
use crate::regex;
use crate::rule::{self, Fix, FixView, Issue, IssueView, Rule, Severity};
use crate::rules::{self as rules, is_str_bearing, SegmentRule};
use crate::text;

verus! {

pub open spec fn rule_id() -> Seq<char> {
    "no-hankaku-kana"@
}

/// A run of half-width katakana.
pub open spec fn pattern() -> Seq<char> {
    "([\\u{ff61}-\\u{ff9f}]+)"@
}

pub open spec fn message(found: Seq<char>) -> Seq<char> {
    "Disallow to use 半角カタカナ: \""@ + found + "\""@
}

pub open spec fn match_issue(doc: DocumentView, seg: SegmentView, m: (usize, usize)) -> Seq<IssueView> {
    let found = rules::byte_slice(seg.text, m.0 as int, m.1 as int);
    seq![
        IssueView {
            fix: Some(
                FixView {
                    start: (seg.start_byte + m.0) as usize,
                    end: (seg.start_byte + m.1) as usize,
                    replacement: normalize::nfkc_of(found),
                },
            ),
            ..rule::issue_spec(rule_id(), message(found), document::seg_pos(doc, seg, m.0 as int), Severity::Error)
        },
    ]
}

pub open spec fn segment_issues(doc: DocumentView, seg: SegmentView) -> Seq<IssueView> {
    if rules::str_bearing(seg.kind) {
        let ms = regex::all_matches(pattern(), seg.text);
        rules::per_index(ms.len(), |j: int| match_issue(doc, seg, ms[j]))
    } else {
        seq![]
    }
}

pub struct NoHankakuKana;

impl SegmentRule for NoHankakuKana {
    open spec fn segment_spec(&self, doc: DocumentView, seg: SegmentView) -> Seq<IssueView> {
        segment_issues(doc, seg)
    }

    fn check_segment(&self, doc: &Document, i: usize, out: &mut Vec<Issue>) {
        let seg = doc.segment(i);
        let ghost sv = seg@;
        let ghost d = doc@;
        proof {
            doc.lemma_wf();
        }
        if !is_str_bearing(seg.kind) {
            assert(rule::issues_view(out@) =~= rule::issues_view(old(out)@) + seq![]);
            return;
        }
        let (chars, offs) = text::char_table(seg.text.as_str());
        let ms = regex::matches_of("([\\u{ff61}-\\u{ff9f}]+)", seg.text.as_str());
        let ghost f = |j: int| match_issue(d, sv, ms@[j]);
        let mut j: usize = 0;
        assert(rule::issues_view(out@) =~= rule::issues_view(old(out)@) + rules::per_index(0, f));
        while j < ms.len()
            invariant
                doc.wf(),
                d == doc@,
                document::view_wf(d),
                i < d.segments.len(),
                sv == d.segments[i as int],
                seg@ == sv,
                chars@ == sv.text,
                rules::offsets_of(chars@, offs@),
                ms@ == regex::all_matches(pattern(), sv.text),
                forall|q: int| 0 <= q < ms@.len() ==> regex::sound_match(sv.text, 0, #[trigger] ms@[q]),
                f == (|q: int| match_issue(d, sv, ms@[q])),
                j <= ms@.len(),
                rule::issues_view(out@) == rule::issues_view(old(out)@) + rules::per_index(j as nat, f),
                rule::fixes_fit(d.source, rule::issues_view(out@)),
            decreases ms@.len() - j,
        {
            let (s, e) = ms[j];
            assert(regex::sound_match(sv.text, 0, ms@[j as int]));
            proof {
                rules::lemma_seg_byte(d, i as int, s as int);
                rules::lemma_seg_byte(d, i as int, e as int);
                document::lemma_char_index(sv.text, s as int);
                document::lemma_char_index(sv.text, e as int);
                let sk = document::char_index(sv.text, s as int);
                let ek = document::char_index(sv.text, e as int);
                document::lemma_seg_offset(d, i as int, sk);
                document::lemma_seg_offset(d, i as int, ek);
            }
            let (line, column) = doc.pos_at(seg, s);
            let found = rules::slice_bytes(&chars, &offs, s, e);
            let replacement = normalize::nfkc(found.as_str());
            let mut msg = String::new();
            text::push_str(&mut msg, "Disallow to use 半角カタカナ: \"");
            text::push_str(&mut msg, found.as_str());
            text::push_str(&mut msg, "\"");
            assert(msg@ =~= message(found@));
            let issue = Issue::new("no-hankaku-kana", msg.as_str(), line, column, Severity::Error)
                .with_fix(Fix { range: seg.start_byte + s..seg.start_byte + e, replacement });
            let ghost prev_out = out@;
            out.push(issue);
            assert(rule::issues_view(out@) =~= rule::issues_view(prev_out).push(issue@));
            assert(seq![issue@] =~= f(j as int));
            assert(rule::issues_view(out@) =~= rule::issues_view(old(out)@) + rules::per_index(j as nat + 1, f));
            j += 1;
        }
    }
}

impl Rule for NoHankakuKana {
    open spec fn spec_id(&self) -> Seq<char> {
        rule_id()
    }

    open spec fn accepts(&self, doc: DocumentView, issues: Seq<IssueView>) -> bool {
        issues == rules::all_segments(self, doc)
    }

    fn id(&self) -> (r: &str) {
        "no-hankaku-kana"
    }

    fn check(&self, doc: &Document) -> (issues: Vec<Issue>) {
        rules::check_segments(self, doc)
    }
}

} // verus!

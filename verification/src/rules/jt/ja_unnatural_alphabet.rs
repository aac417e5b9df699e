//! preset-ja-technical-writing/ja-unnatural-alphabet
//!
//! Reports a single Latin letter between two Japanese chars (a typical slip of
//! the input method), but for vowels, `n` and capitals.

use vstd::prelude::*;
use crate::document::{self, Document, DocumentView, SegmentView};
use crate::regex;
use crate::rule::{self, Issue, IssueView, Rule, Severity};
use crate::rules::{self as rules, is_str_bearing, SegmentRule};
use crate::text;

verus! {

pub open spec fn rule_id() -> Seq<char> {
    "ja-unnatural-alphabet"@
}

/// A Japanese char, a Latin letter (group 1), and a Japanese char.
pub open spec fn pattern() -> Seq<char> {
    "(?:[々〇〻\\u{3400}-\\u{4DBF}\\u{4E00}-\\u{9FFF}\\u{F900}-\\u{FAFF}\\u{FF00}-\\u{FFEF}ぁ-んァ-ヶー。、・−])([a-zA-Zａ-ｚＡ-Ｚ])(?:[々〇〻\\u{3400}-\\u{4DBF}\\u{4E00}-\\u{9FFF}\\u{F900}-\\u{FAFF}\\u{FF00}-\\u{FFEF}ぁ-んァ-ヶー。、・−])"@
}

/// Letters that may stand alone between Japanese chars.
pub open spec fn allowed(c: char) -> bool {
    c == 'a' || c == 'i' || c == 'u' || c == 'e' || c == 'o' || c == 'n' || ('A' <= c <= 'Z')
}

fn is_allowed(c: char) -> (r: bool)
    ensures
        r == allowed(c),
{
    c == 'a' || c == 'i' || c == 'u' || c == 'e' || c == 'o' || c == 'n' || ('A' <= c && c <= 'Z')
}

pub open spec fn message(found: Seq<char>) -> Seq<char> {
    "不自然なアルファベットがあります: \""@ + found + "\""@
}

/// The issue for capture `c`: the letter of group 1 unless it is allowed.
pub open spec fn capture_issue(doc: DocumentView, seg: SegmentView, c: ((usize, usize), Option<(usize, usize)>)) -> Seq<IssueView> {
    match c.1 {
        Some(g) => if g.0 < g.1 && !allowed(seg.text[document::char_index(seg.text, g.0 as int)]) {
            seq![
                rule::issue_spec(
                    rule_id(),
                    message(rules::byte_slice(seg.text, c.0.0 as int, c.0.1 as int)),
                    document::seg_pos(doc, seg, g.0 as int),
                    Severity::Error,
                ),
            ]
        } else {
            seq![]
        },
        None => seq![],
    }
}

pub open spec fn segment_issues(doc: DocumentView, seg: SegmentView) -> Seq<IssueView> {
    if rules::str_bearing(seg.kind) {
        let cs = regex::all_captures(pattern(), seg.text);
        rules::per_index(cs.len(), |j: int| capture_issue(doc, seg, cs[j]))
    } else {
        seq![]
    }
}

pub struct JaUnnaturalAlphabet;

impl SegmentRule for JaUnnaturalAlphabet {
    open spec fn segment_spec(&self, doc: DocumentView, seg: SegmentView) -> Seq<IssueView> {
        segment_issues(doc, seg)
    }

    fn check_segment(&self, doc: &Document, i: usize, out: &mut Vec<Issue>) {
        let seg = doc.segment(i);
        let ghost sv = seg@;
        let ghost d = doc@;
        proof {
            doc.lemma_wf();
        }
        if !is_str_bearing(seg.kind) {
            assert(rule::issues_view(out@) =~= rule::issues_view(old(out)@) + seq![]);
            return;
        }
        let (chars, offs) = text::char_table(seg.text.as_str());
        let cs = regex::captures_of(
            "(?:[々〇〻\\u{3400}-\\u{4DBF}\\u{4E00}-\\u{9FFF}\\u{F900}-\\u{FAFF}\\u{FF00}-\\u{FFEF}ぁ-んァ-ヶー。、・−])([a-zA-Zａ-ｚＡ-Ｚ])(?:[々〇〻\\u{3400}-\\u{4DBF}\\u{4E00}-\\u{9FFF}\\u{F900}-\\u{FAFF}\\u{FF00}-\\u{FFEF}ぁ-んァ-ヶー。、・−])",
            seg.text.as_str(),
        );
        let ghost f = |j: int| capture_issue(d, sv, cs@[j]);
        let mut j: usize = 0;
        assert(rule::issues_view(out@) =~= rule::issues_view(old(out)@) + rules::per_index(0, f));
        while j < cs.len()
            invariant
                doc.wf(),
                d == doc@,
                document::view_wf(d),
                i < d.segments.len(),
                sv == d.segments[i as int],
                seg@ == sv,
                chars@ == sv.text,
                rules::offsets_of(chars@, offs@),
                cs@ == regex::all_captures(pattern(), sv.text),
                forall|q: int| 0 <= q < cs@.len() ==> regex::sound_capture(sv.text, 0, #[trigger] cs@[q]),
                f == (|q: int| capture_issue(d, sv, cs@[q])),
                j <= cs@.len(),
                rule::issues_view(out@) == rule::issues_view(old(out)@) + rules::per_index(j as nat, f),
                rule::fixes_fit(d.source, rule::issues_view(out@)),
            decreases cs@.len() - j,
        {
            let c = cs[j];
            assert(regex::sound_capture(sv.text, 0, cs@[j as int]));
            let mut pushed = false;
            match c.1 {
                Some(g) => {
                    if g.0 < g.1 {
                        let k = rules::char_at_byte(&chars, &offs, g.0);
                        if k >= chars.len() {
                            proof {
                                text::lemma_byte_pos_full(chars@);
                            }
                            assert(false);
                        }
                        if !is_allowed(chars[k]) {
                            proof {
                                rules::lemma_seg_byte(d, i as int, g.0 as int);
                            }
                            let (line, column) = doc.pos_at(seg, g.0);
                            let found = rules::slice_bytes(&chars, &offs, c.0.0, c.0.1);
                            let mut msg = String::new();
                            text::push_str(&mut msg, "不自然なアルファベットがあります: \"");
                            text::push_str(&mut msg, found.as_str());
                            text::push_str(&mut msg, "\"");
                            assert(msg@ =~= message(found@));
                            let issue = Issue::new("ja-unnatural-alphabet", msg.as_str(), line, column, Severity::Error);
                            let ghost prev_out = out@;
                            out.push(issue);
                            assert(rule::issues_view(out@) =~= rule::issues_view(prev_out).push(issue@));
                            assert(seq![issue@] =~= f(j as int));
                            pushed = true;
                        }
                    }
                },
                None => {},
            }
            if !pushed {
                assert(f(j as int) =~= Seq::<IssueView>::empty());
            }
            assert(rule::issues_view(out@) =~= rule::issues_view(old(out)@) + rules::per_index(j as nat + 1, f));
            j += 1;
        }
    }
}

impl Rule for JaUnnaturalAlphabet {
    open spec fn spec_id(&self) -> Seq<char> {
        rule_id()
    }

    open spec fn accepts(&self, doc: DocumentView, issues: Seq<IssueView>) -> bool {
        issues == rules::all_segments(self, doc)
    }

    fn id(&self) -> (r: &str) {
        "ja-unnatural-alphabet"
    }

    fn check(&self, doc: &Document) -> (issues: Vec<Issue>) {
        rules::check_segments(self, doc)
    }
}

} // verus!

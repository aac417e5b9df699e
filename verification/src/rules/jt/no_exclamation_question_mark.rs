//! preset-ja-technical-writing/no-exclamation-question-mark
//!
//! Reports each `!`, `！`, `?` and `？` in running text, but for those inside
//! an allowed word.

use vstd::prelude::*;
use crate::document::{self, Document, DocumentView, SegmentView};
use crate::regex;
use crate::rule::{self, Issue, IssueView, Rule, Severity};
use crate::rules::{self as rules, is_str_bearing, SegmentRule};
use crate::text;

verus! {

pub open spec fn rule_id() -> Seq<char> {
    "no-exclamation-question-mark"@
}

/// The word in which the marks are allowed.
pub open spec fn allowed_word() -> Seq<char> {
    "Yahoo!"@
}

/// Byte `s` of `t` lies in an occurrence of the allowed word.
pub open spec fn in_allowed(t: Seq<char>, s: int) -> bool {
    exists|a: int|
        #![trigger text::occurs_at(t, a, allowed_word())]
        text::occurs_at(t, a, allowed_word()) && text::byte_pos(t, a) <= s < text::byte_pos(
            t,
            a + allowed_word().len(),
        )
}

pub open spec fn message(found: Seq<char>) -> Seq<char> {
    "Disallow to use \""@ + found + "\"."@
}

/// The issue for match `m` in segment `seg`.
pub open spec fn match_issue(doc: DocumentView, seg: SegmentView, m: (usize, usize)) -> Seq<IssueView> {
    if in_allowed(seg.text, m.0 as int) {
        seq![]
    } else {
        seq![
            rule::issue_spec(
                rule_id(),
                message(rules::byte_slice(seg.text, m.0 as int, m.1 as int)),
                document::seg_pos(doc, seg, m.0 as int),
                Severity::Error,
            ),
        ]
    }
}

/// The issues for the matches of pattern `p` in segment `seg`.
pub open spec fn pattern_issues(doc: DocumentView, seg: SegmentView, p: Seq<char>) -> Seq<IssueView> {
    let ms = regex::all_matches(p, seg.text);
    rules::per_index(ms.len(), |j: int| match_issue(doc, seg, ms[j]))
}

pub open spec fn segment_issues(doc: DocumentView, seg: SegmentView) -> Seq<IssueView> {
    if rules::str_bearing(seg.kind) {
        pattern_issues(doc, seg, "!"@) + pattern_issues(doc, seg, "！"@) + pattern_issues(doc, seg, "\\?"@)
            + pattern_issues(doc, seg, "？"@)
    } else {
        seq![]
    }
}

/// Whether byte `s` lies in an occurrence of `word`.
fn in_allowed_exec(chars: &Vec<char>, offs: &Vec<usize>, word: &Vec<char>, s: usize) -> (r: bool)
    requires
        rules::offsets_of(chars@, offs@),
        word@ == allowed_word(),
    ensures
        r == in_allowed(chars@, s as int),
{
    let n = chars.len();
    let mut a: usize = 0;
    while a < n
        invariant
            n == chars@.len(),
            rules::offsets_of(chars@, offs@),
            word@ == allowed_word(),
            a <= n,
            forall|b: int|
                0 <= b < a ==> !(text::occurs_at(chars@, b, allowed_word()) && text::byte_pos(chars@, b) <= s
                    < text::byte_pos(chars@, b + allowed_word().len())),
        decreases n - a,
    {
        if text::starts_with_at(chars, a, word) {
            let end = a + word.len();
            if offs[a] <= s && s < offs[end] {
                assert(text::occurs_at(chars@, a as int, allowed_word()));
                return true;
            }
        }
        a += 1;
    }
    assert forall|b: int| text::occurs_at(chars@, b, allowed_word()) implies !(text::byte_pos(chars@, b) <= s
        < text::byte_pos(chars@, b + allowed_word().len())) by {
        reveal_strlit("Yahoo!");
        assert(0 <= b < a);
    }
    false
}

/// Appends the issues for the matches of `src` in segment `i`.
fn pattern_check(doc: &Document, i: usize, src: &str, out: &mut Vec<Issue>)
    requires
        doc.wf(),
        i < doc@.segments.len(),
        rule::fixes_fit(doc@.source, rule::issues_view(old(out)@)),
    ensures
        rule::issues_view(final(out)@) == rule::issues_view(old(out)@) + pattern_issues(
            doc@,
            doc@.segments[i as int],
            src@,
        ),
        rule::fixes_fit(doc@.source, rule::issues_view(final(out)@)),
{
    let seg = doc.segment(i);
    let ghost sv = seg@;
    let ghost d = doc@;
    proof {
        doc.lemma_wf();
    }
    let (chars, offs) = text::char_table(seg.text.as_str());
    let word = text::chars_of("Yahoo!");
    let ms = regex::matches_of(src, seg.text.as_str());
    let ghost f = |j: int| match_issue(d, sv, ms@[j]);
    let mut j: usize = 0;
    assert(rule::issues_view(out@) =~= rule::issues_view(old(out)@) + rules::per_index(0, f));
    while j < ms.len()
        invariant
            doc.wf(),
            d == doc@,
            document::view_wf(d),
            i < d.segments.len(),
            sv == d.segments[i as int],
            seg@ == sv,
            chars@ == sv.text,
            rules::offsets_of(chars@, offs@),
            word@ == allowed_word(),
            ms@ == regex::all_matches(src@, sv.text),
            forall|q: int| 0 <= q < ms@.len() ==> regex::sound_match(sv.text, 0, #[trigger] ms@[q]),
            f == (|q: int| match_issue(d, sv, ms@[q])),
            j <= ms@.len(),
            rule::issues_view(out@) == rule::issues_view(old(out)@) + rules::per_index(j as nat, f),
            rule::fixes_fit(d.source, rule::issues_view(out@)),
        decreases ms@.len() - j,
    {
        let (s, e) = ms[j];
        assert(regex::sound_match(sv.text, 0, ms@[j as int]));
        if in_allowed_exec(&chars, &offs, &word, s) {
            assert(f(j as int) =~= Seq::<IssueView>::empty());
            assert(rule::issues_view(out@) =~= rule::issues_view(old(out)@) + rules::per_index(j as nat + 1, f));
        } else {
            proof {
                rules::lemma_seg_byte(d, i as int, s as int);
            }
            let (line, column) = doc.pos_at(seg, s);
            let found = rules::slice_bytes(&chars, &offs, s, e);
            let mut msg = String::new();
            text::push_str(&mut msg, "Disallow to use \"");
            text::push_str(&mut msg, found.as_str());
            text::push_str(&mut msg, "\".");
            let issue = Issue::new("no-exclamation-question-mark", msg.as_str(), line, column, Severity::Error);
            let ghost prev = out@;
            out.push(issue);
            assert(rule::issues_view(out@) =~= rule::issues_view(prev).push(issue@));
            assert(seq![issue@] =~= f(j as int));
            assert(rule::issues_view(out@) =~= rule::issues_view(old(out)@) + rules::per_index(j as nat + 1, f));
        }
        j += 1;
    }
}

pub struct NoExclamationQuestionMark;

impl SegmentRule for NoExclamationQuestionMark {
    open spec fn segment_spec(&self, doc: DocumentView, seg: SegmentView) -> Seq<IssueView> {
        segment_issues(doc, seg)
    }

    fn check_segment(&self, doc: &Document, i: usize, out: &mut Vec<Issue>) {
        let seg = doc.segment(i);
        if !is_str_bearing(seg.kind) {
            assert(rule::issues_view(out@) =~= rule::issues_view(old(out)@) + seq![]);
            return;
        }
        let ghost o0 = rule::issues_view(out@);
        let ghost sv = doc@.segments[i as int];
        pattern_check(doc, i, "!", out);
        pattern_check(doc, i, "！", out);
        pattern_check(doc, i, "\\?", out);
        pattern_check(doc, i, "？", out);
        assert(rule::issues_view(out@) =~= o0 + segment_issues(doc@, sv));
    }
}

impl Rule for NoExclamationQuestionMark {
    open spec fn spec_id(&self) -> Seq<char> {
        rule_id()
    }

    open spec fn accepts(&self, doc: DocumentView, issues: Seq<IssueView>) -> bool {
        issues == rules::all_segments(self, doc)
    }

    fn id(&self) -> (r: &str) {
        "no-exclamation-question-mark"
    }

    fn check(&self, doc: &Document) -> (issues: Vec<Issue>) {
        rules::check_segments(self, doc)
    }
}

} // verus!

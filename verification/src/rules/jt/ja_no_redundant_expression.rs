//! preset-ja-technical-writing/ja-no-redundant-expression
//!
//! Reports, outside code, inline link destinations and block quotes, the
//! redundant phrasings
//! 「することが可能」「することができる」「であると言える」「であると考えている」.

use vstd::prelude::*;
use crate::document::{self, Document, DocumentView, SegmentKind, SegmentView};
use crate::regex;
use crate::rule::{self, Issue, IssueView, Rule, Severity};
use crate::rules::{self as rules, SegmentRule};
use crate::text;

verus! {

pub open spec fn rule_id() -> Seq<char> {
    "ja-no-redundant-expression"@
}

/// Number of entries of the table.
pub const ENTRY_COUNT: usize = 4;

/// The pattern of entry `k`.
pub open spec fn entry_pattern(k: usize) -> Seq<char> {
    match k {
        0 => "すること(が|も|は)可能"@,
        1 => "すること(が|も|は)でき(る|ます|ない|ません)"@,
        2 => "であると言え(る|ます)"@,
        3 => "であると考えて(いる|います)"@,
        _ => seq![],
    }
}

/// The message of entry `k`.
pub open spec fn entry_message(k: usize) -> Seq<char> {
    match k {
        0 => "【dict1】 \"することが可能\"は冗長な表現です。\"することが\"を省き簡潔な表現にすると文章が明瞭になります。"@,
        1 => "【dict2】 \"することができる\"は冗長な表現です。\"することが\"を省き簡潔な表現にすると文章が明瞭になります。"@,
        2 => "【dict3】 \"であると言える\"は冗長な表現です。\"である\" または \"と言える\"を省き簡潔な表現にすると文章が明瞭になります。"@,
        3 => "【dict4】 \"であると考えている\"は冗長な表現です。\"である\" または \"と考えている\"を省き簡潔な表現にすると文章が明瞭になります。"@,
        _ => seq![],
    }
}

fn entry(k: usize) -> (r: (&'static str, &'static str))
    requires
        k < ENTRY_COUNT,
    ensures
        r.0@ == entry_pattern(k),
        r.1@ == entry_message(k),
{
    match k {
        0 => ("すること(が|も|は)可能", "【dict1】 \"することが可能\"は冗長な表現です。\"することが\"を省き簡潔な表現にすると文章が明瞭になります。"),
        1 => ("すること(が|も|は)でき(る|ます|ない|ません)", "【dict2】 \"することができる\"は冗長な表現です。\"することが\"を省き簡潔な表現にすると文章が明瞭になります。"),
        2 => ("であると言え(る|ます)", "【dict3】 \"であると言える\"は冗長な表現です。\"である\" または \"と言える\"を省き簡潔な表現にすると文章が明瞭になります。"),
        3 => ("であると考えて(いる|います)", "【dict4】 \"であると考えている\"は冗長な表現です。\"である\" または \"と考えている\"を省き簡潔な表現にすると文章が明瞭になります。"),
        _ => ("", ""),
    }
}

/// The pattern that entry `k` is searched with.
pub open spec fn search_pattern(k: usize) -> Seq<char> {
    entry_pattern(k)
}

/// The issue for match `m` of entry `k` in segment `seg`.
pub open spec fn match_issue(doc: DocumentView, seg: SegmentView, k: usize, m: (usize, usize)) -> Seq<IssueView> {
    if rules::overlaps_any(seg.code_ranges, m.0 as int, m.1 as int) || rules::in_link(doc, seg, document::char_index(seg.text, m.0 as int),
    ) {
        seq![]
    } else {
        seq![rule::issue_spec(rule_id(), entry_message(k), document::seg_pos(doc, seg, m.0 as int), Severity::Error)]
    }
}

/// The issues for the matches of entry `k` in segment `seg`.
pub open spec fn entry_issues(doc: DocumentView, seg: SegmentView, k: usize) -> Seq<IssueView> {
    let ms = regex::all_matches(search_pattern(k), seg.text);
    rules::per_index(ms.len(), |j: int| match_issue(doc, seg, k, ms[j]))
}

/// The segments the rule reads.
pub open spec fn applies(seg: SegmentView) -> bool {
    !seg.in_block_quote && (seg.kind == SegmentKind::Paragraph || seg.kind == SegmentKind::ListItem || seg.kind == SegmentKind::TableCell)
}

pub open spec fn segment_issues(doc: DocumentView, seg: SegmentView) -> Seq<IssueView> {
    if applies(seg) {
        rules::per_index(ENTRY_COUNT as nat, |k: int| entry_issues(doc, seg, k as usize))
    } else {
        seq![]
    }
}

const RULE_ID: &'static str = "ja-no-redundant-expression";

/// Appends the issues for the matches of entry `k` in segment `i`.
fn entry_check(doc: &Document, i: usize, k: usize, out: &mut Vec<Issue>)
    requires
        doc.wf(),
        i < doc@.segments.len(),
        k < ENTRY_COUNT,
        rule::fixes_fit(doc@.source, rule::issues_view(old(out)@)),
    ensures
        rule::issues_view(final(out)@) == rule::issues_view(old(out)@) + entry_issues(
            doc@,
            doc@.segments[i as int],
            k,
        ),
        rule::fixes_fit(doc@.source, rule::issues_view(final(out)@)),
{
    let seg = doc.segment(i);
    let ghost sv = seg@;
    let ghost d = doc@;
    proof {
        doc.lemma_wf();
        reveal_strlit("づらい");
    }
    let (chars, offs) = text::char_table(seg.text.as_str());
    let (pat, message) = entry(k);
    let ms = regex::matches_of(pat, seg.text.as_str());
    let ghost f = |j: int| match_issue(d, sv, k, ms@[j]);
    let mut j: usize = 0;
    assert(rule::issues_view(out@) =~= rule::issues_view(old(out)@) + rules::per_index(0, f));
    while j < ms.len()
        invariant
            doc.wf(),
            d == doc@,
            document::view_wf(d),
            i < d.segments.len(),
            sv == d.segments[i as int],
            seg@ == sv,
            chars@ == sv.text,
            rules::offsets_of(chars@, offs@),
            message@ == entry_message(k),
            ms@ == regex::all_matches(search_pattern(k), sv.text),
            forall|q: int| 0 <= q < ms@.len() ==> regex::sound_match(sv.text, 0, #[trigger] ms@[q]),
            f == (|q: int| match_issue(d, sv, k, ms@[q])),
            j <= ms@.len(),
            rule::issues_view(out@) == rule::issues_view(old(out)@) + rules::per_index(j as nat, f),
            rule::fixes_fit(d.source, rule::issues_view(out@)),
        decreases ms@.len() - j,
    {
        let (s, e) = ms[j];
        assert(regex::sound_match(sv.text, 0, ms@[j as int]));
        let c = rules::char_at_byte(&chars, &offs, s);
        let in_link = c < chars.len() && rules::in_link_exec(doc, i, &chars, &offs, c);
        if rules::overlaps_any_exec(&seg.code_ranges, s, e) || in_link {
            assert(f(j as int) =~= Seq::<IssueView>::empty());
        } else {
            proof {
                rules::lemma_seg_byte(d, i as int, s as int);
                rules::lemma_seg_byte(d, i as int, e as int);
                document::lemma_char_index(sv.text, s as int);
                document::lemma_char_index(sv.text, e as int);
                document::lemma_seg_offset(d, i as int, document::char_index(sv.text, s as int));
                document::lemma_seg_offset(d, i as int, document::char_index(sv.text, e as int));
            }
            let (line, column) = doc.pos_at(seg, s);
            let issue = Issue::new(RULE_ID, message, line, column, Severity::Error);
            let ghost prev_out = out@;
            out.push(issue);
            assert(rule::issues_view(out@) =~= rule::issues_view(prev_out).push(issue@));
            assert(seq![issue@] =~= f(j as int));
        }
        assert(rule::issues_view(out@) =~= rule::issues_view(old(out)@) + rules::per_index(j as nat + 1, f));
        j += 1;
    }
}

pub struct JaNoRedundantExpression;

impl SegmentRule for JaNoRedundantExpression {
    open spec fn segment_spec(&self, doc: DocumentView, seg: SegmentView) -> Seq<IssueView> {
        segment_issues(doc, seg)
    }

    fn check_segment(&self, doc: &Document, i: usize, out: &mut Vec<Issue>) {
        let seg = doc.segment(i);
        let ghost sv = seg@;
        let ghost d = doc@;
        if !(!seg.in_block_quote && (seg.kind == SegmentKind::Paragraph || seg.kind == SegmentKind::ListItem || seg.kind == SegmentKind::TableCell)) {
            assert(rule::issues_view(out@) =~= rule::issues_view(old(out)@) + seq![]);
            return;
        }
        let ghost g = |k: int| entry_issues(d, sv, k as usize);
        let mut k: usize = 0;
        assert(rule::issues_view(out@) =~= rule::issues_view(old(out)@) + rules::per_index(0, g));
        while k < ENTRY_COUNT
            invariant
                doc.wf(),
                d == doc@,
                i < d.segments.len(),
                sv == d.segments[i as int],
                g == (|q: int| entry_issues(d, sv, q as usize)),
                k <= ENTRY_COUNT,
                rule::issues_view(out@) == rule::issues_view(old(out)@) + rules::per_index(k as nat, g),
                rule::fixes_fit(d.source, rule::issues_view(out@)),
            decreases ENTRY_COUNT - k,
        {
            entry_check(doc, i, k, out);
            assert(rule::issues_view(out@) =~= rule::issues_view(old(out)@) + rules::per_index(k as nat + 1, g));
            k += 1;
        }
    }
}

impl Rule for JaNoRedundantExpression {
    open spec fn spec_id(&self) -> Seq<char> {
        rule_id()
    }

    open spec fn accepts(&self, doc: DocumentView, issues: Seq<IssueView>) -> bool {
        issues == rules::all_segments(self, doc)
    }

    fn id(&self) -> (r: &str) {
        RULE_ID
    }

    fn check(&self, doc: &Document) -> (issues: Vec<Issue>) {
        rules::check_segments(self, doc)
    }
}

} // verus!

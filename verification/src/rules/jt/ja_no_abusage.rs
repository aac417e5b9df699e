//! preset-ja-technical-writing/ja-no-abusage
//!
//! Reports, in running text outside code, inline link destinations and block
//! quotes, a table of common misuses, most with a fix that puts the right
//! form in place.

use vstd::prelude::*;
use crate::document::{self, Document, DocumentView, SegmentKind, SegmentView};
use crate::regex;
use crate::rule::{self, Fix, FixView, Issue, IssueView, Rule, Severity};
use crate::rules::{self as rules, SegmentRule};
use crate::text;

verus! {

pub open spec fn rule_id() -> Seq<char> {
    "ja-no-abusage"@
}

/// Number of entries of the table.
pub const ENTRY_COUNT: usize = 7;

/// The pattern of entry `k`.
pub open spec fn entry_pattern(k: usize) -> Seq<char> {
    match k {
        0 => "を適応"@,
        1 => "可変する"@,
        2 => "([ぁ-ん])ずらい"@,
        3 => "値を返却する"@,
        4 => "例外を補足"@,
        5 => "こんにちわ"@,
        6 => "うる覚え"@,
        _ => seq![],
    }
}

/// The message of entry `k`.
pub open spec fn entry_message(k: usize) -> Seq<char> {
    match k {
        0 => "\"適用\"の誤用である可能性があります。適応 => 適用"@,
        1 => "「可変する」という使い方は適切ではありません。「可逆」と同じ使い方になります。\nhttp://qiita.com/scivola/items/f02589968a4ca27bc52b"@,
        2 => "動詞の連用形+辛い（つらい）の場合は、「ずらい」ではなく「づらい」が適切です。"@,
        3 => "「値を返却する」は冗長な誤用の可能性があります。「値を返す」が一般的です。"@,
        4 => "「補足」は補い足すこと。例外は「捕捉」する。"@,
        5 => "「こんにちわ」は誤りです。「こんにちは」が正しい表記です。"@,
        6 => "「うる覚え」は誤りです。「うろ覚え」が正しい表記です。"@,
        _ => seq![],
    }
}

fn entry(k: usize) -> (r: (&'static str, &'static str))
    requires
        k < ENTRY_COUNT,
    ensures
        r.0@ == entry_pattern(k),
        r.1@ == entry_message(k),
{
    match k {
        0 => ("を適応", "\"適用\"の誤用である可能性があります。適応 => 適用"),
        1 => ("可変する", "「可変する」という使い方は適切ではありません。「可逆」と同じ使い方になります。\nhttp://qiita.com/scivola/items/f02589968a4ca27bc52b"),
        2 => ("([ぁ-ん])ずらい", "動詞の連用形+辛い（つらい）の場合は、「ずらい」ではなく「づらい」が適切です。"),
        3 => ("値を返却する", "「値を返却する」は冗長な誤用の可能性があります。「値を返す」が一般的です。"),
        4 => ("例外を補足", "「補足」は補い足すこと。例外は「捕捉」する。"),
        5 => ("こんにちわ", "「こんにちわ」は誤りです。「こんにちは」が正しい表記です。"),
        6 => ("うる覚え", "「うる覚え」は誤りです。「うろ覚え」が正しい表記です。"),
        _ => ("", ""),
    }
}

/// How entry `k` mends a match: `None` for no fix, `Some(None)` for the
/// match's first char followed by `づらい`, `Some(Some(r))` for `r`.
pub open spec fn entry_fix(k: usize) -> Option<Option<Seq<char>>> {
    match k {
        0 => Some(Some("を適用"@)),
        1 => None,
        2 => Some(None),
        3 => Some(Some("値を返す"@)),
        4 => Some(Some("例外を捕捉"@)),
        5 => Some(Some("こんにちは"@)),
        6 => Some(Some("うろ覚え"@)),
        _ => None,
    }
}

fn entry_fix_exec(k: usize) -> (r: Option<Option<&'static str>>)
    ensures
        match r {
            None => entry_fix(k) is None,
            Some(None) => entry_fix(k) == Some(Option::<Seq<char>>::None),
            Some(Some(s)) => entry_fix(k) == Some(Some(s@)),
        },
{
    match k {
        0 => Some(Some("を適用")),
        1 => None,
        2 => Some(None),
        3 => Some(Some("値を返す")),
        4 => Some(Some("例外を捕捉")),
        5 => Some(Some("こんにちは")),
        6 => Some(Some("うろ覚え")),
        _ => None,
    }
}

/// The replacement that entry `k` puts in place of the matched text `found`.
pub open spec fn replacement(k: usize, found: Seq<char>) -> Option<Seq<char>> {
    match entry_fix(k) {
        None => None,
        Some(None) => Some((if found.len() > 0 {
            seq![found[0]]
        } else {
            seq![]
        }) + "づらい"@),
        Some(Some(r)) => Some(r),
    }
}

/// The pattern that entry `k` is searched with.
pub open spec fn search_pattern(k: usize) -> Seq<char> {
    entry_pattern(k)
}

/// The issue for match `m` of entry `k` in segment `seg`.
pub open spec fn match_issue(doc: DocumentView, seg: SegmentView, k: usize, m: (usize, usize)) -> Seq<IssueView> {
    if rules::overlaps_any(seg.code_ranges, m.0 as int, m.1 as int) || rules::in_link(doc, seg, document::char_index(seg.text, m.0 as int),
    ) {
        seq![]
    } else {
        let found = rules::byte_slice(seg.text, m.0 as int, m.1 as int);
        let base = rule::issue_spec(rule_id(), entry_message(k), document::seg_pos(doc, seg, m.0 as int), Severity::Error);
        match replacement(k, found) {
            Some(r) => seq![
                IssueView {
                    fix: Some(
                        FixView {
                            start: (seg.start_byte + m.0) as usize,
                            end: (seg.start_byte + m.1) as usize,
                            replacement: r,
                        },
                    ),
                    ..base
                },
            ],
            None => seq![base],
        }
    }
}

/// The issues for the matches of entry `k` in segment `seg`.
pub open spec fn entry_issues(doc: DocumentView, seg: SegmentView, k: usize) -> Seq<IssueView> {
    let ms = regex::all_matches(search_pattern(k), seg.text);
    rules::per_index(ms.len(), |j: int| match_issue(doc, seg, k, ms[j]))
}

/// The segments the rule reads.
pub open spec fn applies(seg: SegmentView) -> bool {
    rules::str_bearing(seg.kind) && !seg.in_block_quote
}

pub open spec fn segment_issues(doc: DocumentView, seg: SegmentView) -> Seq<IssueView> {
    if applies(seg) {
        rules::per_index(ENTRY_COUNT as nat, |k: int| entry_issues(doc, seg, k as usize))
    } else {
        seq![]
    }
}

const RULE_ID: &'static str = "ja-no-abusage";

/// Appends the issues for the matches of entry `k` in segment `i`.
fn entry_check(doc: &Document, i: usize, k: usize, out: &mut Vec<Issue>)
    requires
        doc.wf(),
        i < doc@.segments.len(),
        k < ENTRY_COUNT,
        rule::fixes_fit(doc@.source, rule::issues_view(old(out)@)),
    ensures
        rule::issues_view(final(out)@) == rule::issues_view(old(out)@) + entry_issues(
            doc@,
            doc@.segments[i as int],
            k,
        ),
        rule::fixes_fit(doc@.source, rule::issues_view(final(out)@)),
{
    let seg = doc.segment(i);
    let ghost sv = seg@;
    let ghost d = doc@;
    proof {
        doc.lemma_wf();
        reveal_strlit("づらい");
    }
    let (chars, offs) = text::char_table(seg.text.as_str());
    let (pat, message) = entry(k);
    let ms = regex::matches_of(pat, seg.text.as_str());
    let ghost f = |j: int| match_issue(d, sv, k, ms@[j]);
    let mut j: usize = 0;
    assert(rule::issues_view(out@) =~= rule::issues_view(old(out)@) + rules::per_index(0, f));
    while j < ms.len()
        invariant
            doc.wf(),
            d == doc@,
            document::view_wf(d),
            i < d.segments.len(),
            sv == d.segments[i as int],
            seg@ == sv,
            chars@ == sv.text,
            rules::offsets_of(chars@, offs@),
            message@ == entry_message(k),
            ms@ == regex::all_matches(search_pattern(k), sv.text),
            forall|q: int| 0 <= q < ms@.len() ==> regex::sound_match(sv.text, 0, #[trigger] ms@[q]),
            f == (|q: int| match_issue(d, sv, k, ms@[q])),
            j <= ms@.len(),
            rule::issues_view(out@) == rule::issues_view(old(out)@) + rules::per_index(j as nat, f),
            rule::fixes_fit(d.source, rule::issues_view(out@)),
        decreases ms@.len() - j,
    {
        let (s, e) = ms[j];
        assert(regex::sound_match(sv.text, 0, ms@[j as int]));
        let c = rules::char_at_byte(&chars, &offs, s);
        let in_link = c < chars.len() && rules::in_link_exec(doc, i, &chars, &offs, c);
        if rules::overlaps_any_exec(&seg.code_ranges, s, e) || in_link {
            assert(f(j as int) =~= Seq::<IssueView>::empty());
        } else {
            proof {
                rules::lemma_seg_byte(d, i as int, s as int);
                rules::lemma_seg_byte(d, i as int, e as int);
                document::lemma_char_index(sv.text, s as int);
                document::lemma_char_index(sv.text, e as int);
                document::lemma_seg_offset(d, i as int, document::char_index(sv.text, s as int));
                document::lemma_seg_offset(d, i as int, document::char_index(sv.text, e as int));
            }
            let (line, column) = doc.pos_at(seg, s);
            let base = Issue::new(RULE_ID, message, line, column, Severity::Error);
            let issue = match entry_fix_exec(k) {
                None => base,
                Some(rep) => {
                    let found = rules::slice_bytes(&chars, &offs, s, e);
                    let r = match rep {
                        Some(r) => r.to_owned(),
                        None => {
                            let fc = text::chars_of(found.as_str());
                            let mut r = String::new();
                            if fc.len() > 0 {
                                text::push_char(&mut r, fc[0]);
                            }
                            text::push_str(&mut r, "づらい");
                            assert(r@ =~= (if found@.len() > 0 {
                                seq![found@[0]]
                            } else {
                                seq![]
                            }) + "づらい"@);
                            r
                        },
                    };
                    base.with_fix(Fix { range: seg.start_byte + s..seg.start_byte + e, replacement: r })
                },
            };
            let ghost prev_out = out@;
            out.push(issue);
            assert(rule::issues_view(out@) =~= rule::issues_view(prev_out).push(issue@));
            assert(seq![issue@] =~= f(j as int));
        }
        assert(rule::issues_view(out@) =~= rule::issues_view(old(out)@) + rules::per_index(j as nat + 1, f));
        j += 1;
    }
}

pub struct JaNoAbusage;

impl SegmentRule for JaNoAbusage {
    open spec fn segment_spec(&self, doc: DocumentView, seg: SegmentView) -> Seq<IssueView> {
        segment_issues(doc, seg)
    }

    fn check_segment(&self, doc: &Document, i: usize, out: &mut Vec<Issue>) {
        let seg = doc.segment(i);
        let ghost sv = seg@;
        let ghost d = doc@;
        if !(rules::is_str_bearing(seg.kind) && !seg.in_block_quote) {
            assert(rule::issues_view(out@) =~= rule::issues_view(old(out)@) + seq![]);
            return;
        }
        let ghost g = |k: int| entry_issues(d, sv, k as usize);
        let mut k: usize = 0;
        assert(rule::issues_view(out@) =~= rule::issues_view(old(out)@) + rules::per_index(0, g));
        while k < ENTRY_COUNT
            invariant
                doc.wf(),
                d == doc@,
                i < d.segments.len(),
                sv == d.segments[i as int],
                g == (|q: int| entry_issues(d, sv, q as usize)),
                k <= ENTRY_COUNT,
                rule::issues_view(out@) == rule::issues_view(old(out)@) + rules::per_index(k as nat, g),
                rule::fixes_fit(d.source, rule::issues_view(out@)),
            decreases ENTRY_COUNT - k,
        {
            entry_check(doc, i, k, out);
            assert(rule::issues_view(out@) =~= rule::issues_view(old(out)@) + rules::per_index(k as nat + 1, g));
            k += 1;
        }
    }
}

impl Rule for JaNoAbusage {
    open spec fn spec_id(&self) -> Seq<char> {
        rule_id()
    }

    open spec fn accepts(&self, doc: DocumentView, issues: Seq<IssueView>) -> bool {
        issues == rules::all_segments(self, doc)
    }

    fn id(&self) -> (r: &str) {
        RULE_ID
    }

    fn check(&self, doc: &Document) -> (issues: Vec<Issue>) {
        rules::check_segments(self, doc)
    }
}

} // verus!

//! prh: term replacement from a dictionary of (expected, pattern) rules.
//!
//! A pattern is `/regex/flags` (only the `i` flag is read) or a bare regex.
//! Each match outside code whose text differs from the expected term (with
//! the case of the match carried over) is reported as `actual => merged`,
//! with a fix that puts the merged term in place.

use vstd::prelude::*;
use crate::document::{self, Document, DocumentView, SegmentKind, SegmentView};
use crate::regex::{self, Pattern};
use crate::rule::{self, Fix, FixView, Issue, IssueView, Rule, Severity};
use crate::rules::{self as rules, is_str_bearing, SegmentRule};
use crate::text;

verus! {

pub open spec fn rule_id() -> Seq<char> {
    "prh"@
}

/// What `char::to_uppercase` yields for `c`.
pub uninterp spec fn upper_of(c: char) -> Seq<char>;

/// What `char::to_lowercase` yields for `c`.
pub uninterp spec fn lower_of(c: char) -> Seq<char>;

/// `char::to_uppercase`, collected into a string.
#[verifier::external_body]
fn char_to_upper(c: char) -> (r: String)
    ensures
        r@ == upper_of(c),
{
    c.to_uppercase().collect::<String>()
}

/// `char::to_lowercase`, collected into a string.
#[verifier::external_body]
fn char_to_lower(c: char) -> (r: String)
    ensures
        r@ == lower_of(c),
{
    c.to_lowercase().collect::<String>()
}

/// One rule of a dictionary, as written in it.
#[derive(Debug, Clone)]
pub struct PrhRule {
    pub expected: String,
    pub pattern: String,
}

/// Why a dictionary was refused.
#[derive(Debug, Clone, PartialEq, Eq)]
pub enum PrhError {
    /// The regex of this pattern does not compile.
    InvalidPattern(String),
}

pub open spec fn ascii_alpha(c: char) -> bool {
    ('a' <= c <= 'z') || ('A' <= c <= 'Z')
}

pub open spec fn ascii_lower(c: char) -> bool {
    'a' <= c <= 'z'
}

pub open spec fn ascii_upper(c: char) -> bool {
    'A' <= c <= 'Z'
}

/// `c` with an ASCII letter put in lower case, as `char::to_ascii_lowercase`.
pub open spec fn to_ascii_lower(c: char) -> char {
    if ascii_upper(c) {
        ((c as u32) + 32) as char
    } else {
        c
    }
}

/// `c` with an ASCII letter put in upper case, as `char::to_ascii_uppercase`.
pub open spec fn to_ascii_upper(c: char) -> char {
    if ascii_lower(c) {
        ((c as u32) - 32) as char
    } else {
        c
    }
}

/// The lower-case mappings of the chars of `s`, one after another.
pub open spec fn lower_all(s: Seq<char>) -> Seq<char>
    decreases s.len(),
{
    if s.len() == 0 {
        seq![]
    } else {
        lower_all(s.drop_last()) + lower_of(s.last())
    }
}

/// `expected` with the case of `actual` carried over: all lower, all upper or
/// title case, read from the ASCII letters of `actual`; `expected` as it is
/// where it is not ASCII, `actual` has no ASCII letter or mixes cases otherwise.
pub open spec fn case_merge_spec(actual: Seq<char>, expected: Seq<char>, expected_is_ascii: bool) -> Seq<char> {
    let letters = actual.filter(|c: char| ascii_alpha(c));
    if !expected_is_ascii || letters.len() == 0 {
        expected
    } else if forall|k: int| 0 <= k < letters.len() ==> ascii_lower(#[trigger] letters[k]) {
        expected.map_values(|c: char| to_ascii_lower(c))
    } else if forall|k: int| 0 <= k < letters.len() ==> ascii_upper(#[trigger] letters[k]) {
        expected.map_values(|c: char| to_ascii_upper(c))
    } else if ascii_upper(letters[0]) && forall|k: int| 1 <= k < letters.len() ==> ascii_lower(#[trigger] letters[k]) {
        if expected.len() == 0 {
            expected
        } else {
            upper_of(expected[0]) + lower_all(expected.drop_first())
        }
    } else {
        expected
    }
}

fn is_ascii_alpha(c: char) -> (r: bool)
    ensures
        r == ascii_alpha(c),
{
    ('a' <= c && c <= 'z') || ('A' <= c && c <= 'Z')
}

fn map_ascii(s: &Vec<char>, upper: bool) -> (r: String)
    ensures
        upper ==> r@ == s@.map_values(|c: char| to_ascii_upper(c)),
        !upper ==> r@ == s@.map_values(|c: char| to_ascii_lower(c)),
{
    let mut r = String::new();
    let mut k: usize = 0;
    while k < s.len()
        invariant
            k <= s@.len(),
            upper ==> r@ == s@.take(k as int).map_values(|c: char| to_ascii_upper(c)),
            !upper ==> r@ == s@.take(k as int).map_values(|c: char| to_ascii_lower(c)),
        decreases s@.len() - k,
    {
        let c = s[k];
        let d = if upper {
            if 'a' <= c && c <= 'z' {
                ((c as u8) - 32) as char
            } else {
                c
            }
        } else {
            if 'A' <= c && c <= 'Z' {
                ((c as u8) + 32) as char
            } else {
                c
            }
        };
        text::push_char(&mut r, d);
        assert(s@.take(k + 1) =~= s@.take(k as int).push(c));
        if upper {
            assert(r@ =~= s@.take(k + 1).map_values(|c: char| to_ascii_upper(c)));
        } else {
            assert(r@ =~= s@.take(k + 1).map_values(|c: char| to_ascii_lower(c)));
        }
        k += 1;
    }
    assert(s@.take(s@.len() as int) =~= s@);
    r
}

/// `expected` with the case of `actual` carried over (see `case_merge_spec`).
pub fn case_merge(actual: &str, expected: &str, expected_is_ascii: bool) -> (r: String)
    ensures
        r@ == case_merge_spec(actual@, expected@, expected_is_ascii),
{
    let a = text::chars_of(actual);
    let ex = text::chars_of(expected);
    let ghost letters = actual@.filter(|c: char| ascii_alpha(c));
    if !expected_is_ascii {
        return expected.to_owned();
    }
    let ghost pred = |c: char| ascii_alpha(c);
    let mut ls: Vec<char> = Vec::new();
    let mut k: usize = 0;
    assert(a@.take(0).filter(pred) =~= Seq::<char>::empty());
    while k < a.len()
        invariant
            k <= a@.len(),
            a@ == actual@,
            pred == (|c: char| ascii_alpha(c)),
            ls@ == a@.take(k as int).filter(pred),
        decreases a@.len() - k,
    {
        let ghost t = a@.take(k as int + 1);
        assert(t.drop_last() =~= a@.take(k as int));
        assert(t.last() == a@[k as int]);
        reveal(Seq::filter);
        assert(t.filter(pred) == (if pred(t.last()) {
            t.drop_last().filter(pred).push(t.last())
        } else {
            t.drop_last().filter(pred)
        }));
        if is_ascii_alpha(a[k]) {
            ls.push(a[k]);
        }
        assert(ls@ =~= t.filter(pred));
        k += 1;
    }
    assert(a@.take(a@.len() as int) =~= a@);
    assert(ls@ == letters);
    if ls.len() == 0 {
        return expected.to_owned();
    }
    let mut all_lower = true;
    let mut all_upper = true;
    let mut rest_lower = true;
    let mut j: usize = 0;
    while j < ls.len()
        invariant
            j <= ls@.len(),
            ls@.len() > 0,
            all_lower == (forall|q: int| 0 <= q < j ==> ascii_lower(#[trigger] ls@[q])),
            all_upper == (forall|q: int| 0 <= q < j ==> ascii_upper(#[trigger] ls@[q])),
            rest_lower == (forall|q: int| 1 <= q < j ==> ascii_lower(#[trigger] ls@[q])),
        decreases ls@.len() - j,
    {
        let c = ls[j];
        let lower = 'a' <= c && c <= 'z';
        let upper = 'A' <= c && c <= 'Z';
        if !lower {
            all_lower = false;
            if j >= 1 {
                rest_lower = false;
            }
        }
        if !upper {
            all_upper = false;
        }
        j += 1;
    }
    let title = ('A' <= ls[0] && ls[0] <= 'Z') && rest_lower;
    if all_lower {
        map_ascii(&ex, false)
    } else if all_upper {
        map_ascii(&ex, true)
    } else if title {
        if ex.len() == 0 {
            return expected.to_owned();
        }
        let mut out = char_to_upper(ex[0]);
        let ghost first = out@;
        let mut q: usize = 1;
        while q < ex.len()
            invariant
                1 <= q <= ex@.len(),
                ex@ == expected@,
                first == upper_of(ex@[0]),
                out@ == first + lower_all(ex@.subrange(1, q as int)),
            decreases ex@.len() - q,
        {
            let low = char_to_lower(ex[q]);
            text::push_str(&mut out, low.as_str());
            let ghost t = ex@.subrange(1, q + 1);
            assert(t.drop_last() =~= ex@.subrange(1, q as int));
            assert(out@ =~= first + lower_all(t));
            q += 1;
        }
        assert(ex@.subrange(1, ex@.len() as int) =~= ex@.drop_first());
        out
    } else {
        expected.to_owned()
    }
}

/// The regex that a pattern stands for: the body of `/body/flags`, after
/// `(?i)` where the flags hold `i`; a bare pattern as it is.
pub open spec fn pattern_source(src: Seq<char>) -> Seq<char> {
    let last = last_slash(src, src.len() as int);
    if src.len() > 0 && src[0] == '/' && last > 0 {
        let body = src.subrange(1, last);
        let flags = src.subrange(last + 1, src.len() as int);
        if flags.contains('i') {
            "(?i)"@ + body
        } else {
            body
        }
    } else {
        src
    }
}

/// The index of the last `/` among the first `n` chars of `s`, or -1.
pub open spec fn last_slash(s: Seq<char>, n: int) -> int
    decreases n,
{
    if n <= 0 {
        -1
    } else if s[n - 1] == '/' {
        n - 1
    } else {
        last_slash(s, n - 1)
    }
}

fn last_slash_exec(s: &Vec<char>) -> (r: Option<usize>)
    ensures
        r matches Some(k) ==> k == last_slash(s@, s@.len() as int) && k < s@.len(),
        r is None ==> last_slash(s@, s@.len() as int) == -1,
{
    let mut n: usize = s.len();
    while n > 0
        invariant
            n <= s@.len(),
            last_slash(s@, s@.len() as int) == last_slash(s@, n as int),
        decreases n,
    {
        if s[n - 1] == '/' {
            return Some(n - 1);
        }
        n -= 1;
    }
    None
}

/// The regex source of a dictionary pattern (see `pattern_source`).
pub fn pattern_source_exec(src: &str) -> (r: String)
    ensures
        r@ == pattern_source(src@),
{
    let s = text::chars_of(src);
    if s.len() > 0 && s[0] == '/' {
        match last_slash_exec(&s) {
            Some(last) => {
                if last > 0 {
                    let mut has_i = false;
                    let mut k = last + 1;
                    while k < s.len()
                        invariant
                            last + 1 <= k <= s@.len(),
                            has_i == s@.subrange(last + 1, k as int).contains('i'),
                        decreases s@.len() - k,
                    {
                        let ghost before = s@.subrange(last + 1, k as int);
                        assert(s@.subrange(last + 1, k + 1) =~= before.push(s@[k as int]));
                        if s[k] == 'i' {
                            assert(s@.subrange(last + 1, k + 1)[k - last - 1] == 'i');
                            has_i = true;
                        } else {
                            assert(before.push(s@[k as int]).contains('i') == before.contains('i')) by {
                                if before.push(s@[k as int]).contains('i') {
                                    let w = choose|w: int|
                                        0 <= w < before.push(s@[k as int]).len() && before.push(s@[k as int])[w] == 'i';
                                    assert(w < before.len());
                                }
                            }
                        }
                        k += 1;
                    }
                    let mut r = String::new();
                    if has_i {
                        text::push_str(&mut r, "(?i)");
                    }
                    text::push_chars(&mut r, &s, 1, last);
                    assert(r@ =~= pattern_source(src@));
                    return r;
                }
            },
            None => {},
        }
    }
    src.to_owned()
}

/// A rule compiled: the expected term, whether it is ASCII, and its regex.
struct CompiledRule {
    expected: String,
    expected_is_ascii: bool,
    re: Pattern,
}

/// A compiled dictionary.
pub struct Prh {
    rules: Vec<CompiledRule>,
}

/// A compiled rule as the contracts read it: the expected term, whether it is
/// ASCII, and the regex source.
pub struct CompiledView {
    pub expected: Seq<char>,
    pub expected_is_ascii: bool,
    pub source: Seq<char>,
}

impl View for Prh {
    type V = Seq<CompiledView>;

    closed spec fn view(&self) -> Seq<CompiledView> {
        self.rules@.map_values(
            |r: CompiledRule| CompiledView { expected: r.expected@, expected_is_ascii: r.expected_is_ascii, source: r.re@ },
        )
    }
}

/// The compiled form of rule `r`.
pub open spec fn compiled(r: PrhRule) -> CompiledView {
    CompiledView {
        expected: r.expected@,
        expected_is_ascii: vstd::utf8::is_ascii_chars(r.expected@),
        source: pattern_source(r.pattern@),
    }
}

/// The index of the first rule among `rules[0..n]` whose regex does not compile, or `n`.
pub open spec fn first_invalid(rules: Seq<PrhRule>, n: int) -> int
    decreases n,
{
    if n <= 0 {
        0
    } else if first_invalid(rules, n - 1) < n - 1 {
        first_invalid(rules, n - 1)
    } else if regex::regex_valid(pattern_source(rules[n - 1].pattern@)) {
        n
    } else {
        n - 1
    }
}

pub proof fn lemma_first_invalid(rules: Seq<PrhRule>, n: int)
    requires
        0 <= n <= rules.len(),
    ensures
        0 <= first_invalid(rules, n) <= n,
        forall|k: int| 0 <= k < first_invalid(rules, n) ==> regex::regex_valid(pattern_source(#[trigger] rules[k].pattern@)),
        first_invalid(rules, n) < n ==> !regex::regex_valid(pattern_source(rules[first_invalid(rules, n)].pattern@)),
    decreases n,
{
    if n > 0 {
        lemma_first_invalid(rules, n - 1);
    }
}

/// Compiles the pattern of a dictionary rule.
pub fn compile_pattern(src: &str) -> (r: Result<Pattern, PrhError>)
    ensures
        r is Ok <==> regex::regex_valid(pattern_source(src@)),
        r matches Ok(p) ==> p@ == pattern_source(src@),
        r matches Err(PrhError::InvalidPattern(p)) ==> p@ == src@,
{
    let source = pattern_source_exec(src);
    match regex::compile(source.as_str()) {
        Some(p) => Ok(p),
        None => Err(PrhError::InvalidPattern(src.to_owned())),
    }
}

impl Prh {
    /// Compiles a dictionary; refused at the first pattern whose regex does not compile.
    pub fn from_rules(rules: Vec<PrhRule>) -> (r: Result<Prh, PrhError>)
        ensures
            first_invalid(rules@, rules@.len() as int) == rules@.len() ==> (r matches Ok(p) && p@
                == rules@.map_values(|x: PrhRule| compiled(x))),
            first_invalid(rules@, rules@.len() as int) < rules@.len() ==> (r matches Err(
                PrhError::InvalidPattern(p),
            ) && p@ == rules@[first_invalid(rules@, rules@.len() as int)].pattern@),
    {
        let mut compiled_rules: Vec<CompiledRule> = Vec::new();
        let mut k: usize = 0;
        while k < rules.len()
            invariant
                k <= rules@.len(),
                first_invalid(rules@, k as int) == k,
                compiled_rules@.len() == k,
                compiled_rules@.map_values(
                    |r: CompiledRule| CompiledView { expected: r.expected@, expected_is_ascii: r.expected_is_ascii, source: r.re@ },
                ) == rules@.take(k as int).map_values(|x: PrhRule| compiled(x)),
            decreases rules@.len() - k,
        {
            let r = &rules[k];
            match compile_pattern(r.pattern.as_str()) {
                Ok(re) => {
                    let expected_is_ascii = r.expected.as_str().is_ascii();
                    let ghost prev = compiled_rules@;
                    compiled_rules.push(CompiledRule { expected: r.expected.as_str().to_owned(), expected_is_ascii, re });
                    assert(rules@.take(k + 1) =~= rules@.take(k as int).push(rules@[k as int]));
                    let ghost last = compiled_rules@[k as int];
                    assert(last.expected@ == rules@[k as int].expected@);
                    assert(last.expected_is_ascii == vstd::utf8::is_ascii_chars(rules@[k as int].expected@));
                    assert(last.re@ == pattern_source(rules@[k as int].pattern@));
                    let ghost cv = |r: CompiledRule| CompiledView { expected: r.expected@, expected_is_ascii: r.expected_is_ascii, source: r.re@ };
                    let ghost cg = |x: PrhRule| compiled(x);
                    assert forall|j: int| 0 <= j < k + 1 implies #[trigger] compiled_rules@.map_values(cv)[j]
                        == rules@.take(k + 1).map_values(cg)[j] by {
                        if j < k {
                            assert(compiled_rules@[j] == prev[j]);
                            assert(prev.map_values(cv)[j] == rules@.take(k as int).map_values(cg)[j]);
                        }
                    }
                    assert(compiled_rules@.map_values(cv) =~= rules@.take(k + 1).map_values(cg));
                },
                Err(e) => {
                    proof {
                        let n = rules@.len() as int;
                        let ghost f = first_invalid(rules@, k + 1);
                        assert(f == k);
                        lemma_first_invalid_stays(rules@, k + 1, n);
                    }
                    return Err(e);
                },
            }
            k += 1;
        }
        assert(rules@.take(rules@.len() as int) =~= rules@);
        Ok(Prh { rules: compiled_rules })
    }
}

/// Once a rule fails, the first failure stays where it is.
pub proof fn lemma_first_invalid_stays(rules: Seq<PrhRule>, m: int, n: int)
    requires
        0 <= m <= n <= rules.len(),
        first_invalid(rules, m) < m,
    ensures
        first_invalid(rules, n) == first_invalid(rules, m),
    decreases n - m,
{
    if n > m {
        lemma_first_invalid_stays(rules, m, n - 1);
    }
}

pub open spec fn message(actual: Seq<char>, merged: Seq<char>) -> Seq<char> {
    actual + " => "@ + merged
}

/// The issue for match `m` of compiled rule `r` in segment `seg`.
pub open spec fn match_issue(doc: DocumentView, seg: SegmentView, r: CompiledView, m: (usize, usize)) -> Seq<IssueView> {
    let actual = rules::byte_slice(seg.text, m.0 as int, m.1 as int);
    let merged = case_merge_spec(actual, r.expected, r.expected_is_ascii);
    if rules::overlaps_any(seg.code_ranges, m.0 as int, m.1 as int) || actual == merged {
        seq![]
    } else {
        seq![
            IssueView {
                fix: Some(
                    FixView {
                        start: (seg.start_byte + m.0) as usize,
                        end: (seg.start_byte + m.1) as usize,
                        replacement: merged,
                    },
                ),
                ..rule::issue_spec(rule_id(), message(actual, merged), document::seg_pos(doc, seg, m.0 as int), Severity::Error)
            },
        ]
    }
}

/// The issues of compiled rule `r` in segment `seg`.
pub open spec fn rule_issues(doc: DocumentView, seg: SegmentView, r: CompiledView) -> Seq<IssueView> {
    let ms = regex::matches_from(r.source, seg.text, 0);
    rules::per_index(ms.len(), |j: int| match_issue(doc, seg, r, ms[j]))
}

pub open spec fn segment_issues(doc: DocumentView, seg: SegmentView, dict: Seq<CompiledView>) -> Seq<IssueView> {
    if rules::str_bearing(seg.kind) {
        rules::per_index(dict.len(), |k: int| rule_issues(doc, seg, dict[k]))
    } else {
        seq![]
    }
}

/// Law: the dictionary reads every block of running text alike: a heading, a
/// list item or a table cell gives the issues (and fixes) that a paragraph
/// with the same text, position and code spans gives.
pub proof fn lemma_prh_text_blocks(doc: DocumentView, seg: SegmentView, dict: Seq<CompiledView>)
    ensures
        seg.kind == SegmentKind::Heading || seg.kind == SegmentKind::ListItem || seg.kind == SegmentKind::TableCell
            ==> segment_issues(doc, seg, dict) == segment_issues(
            doc,
            (SegmentView { kind: SegmentKind::Paragraph, ..seg }),
            dict,
        ),
{
    let para = SegmentView { kind: SegmentKind::Paragraph, ..seg };
    assert forall|k: int| 0 <= k < dict.len() implies #[trigger] rule_issues(doc, seg, dict[k]) == rule_issues(
        doc,
        para,
        dict[k],
    ) by {
        let r = dict[k];
        let ms = regex::matches_from(r.source, seg.text, 0);
        assert forall|j: int| 0 <= j < ms.len() implies #[trigger] match_issue(doc, seg, r, ms[j]) == match_issue(
            doc,
            para,
            r,
            ms[j],
        ) by {
            assert(document::seg_pos(doc, seg, ms[j].0 as int) == document::seg_pos(doc, para, ms[j].0 as int));
        }
        rules::lemma_per_index_ext(
            ms.len(),
            |j: int| match_issue(doc, seg, r, ms[j]),
            |j: int| match_issue(doc, para, r, ms[j]),
        );
    }
    rules::lemma_per_index_ext(
        dict.len(),
        |k: int| rule_issues(doc, seg, dict[k]),
        |k: int| rule_issues(doc, para, dict[k]),
    );
}

impl Prh {
    /// Appends the issues of rule `k` in segment `i`.
    fn rule_check(&self, doc: &Document, i: usize, k: usize, out: &mut Vec<Issue>)
        requires
            doc.wf(),
            i < doc@.segments.len(),
            k < self@.len(),
            rule::fixes_fit(doc@.source, rule::issues_view(old(out)@)),
        ensures
            rule::issues_view(final(out)@) == rule::issues_view(old(out)@) + rule_issues(
                doc@,
                doc@.segments[i as int],
                self@[k as int],
            ),
            rule::fixes_fit(doc@.source, rule::issues_view(final(out)@)),
    {
        let seg = doc.segment(i);
        let ghost sv = seg@;
        let ghost d = doc@;
        let ghost cr = self@[k as int];
        proof {
            doc.lemma_wf();
        }
        let r = &self.rules[k];
        assert(cr.source == r.re@ && cr.expected == r.expected@ && cr.expected_is_ascii == r.expected_is_ascii);
        let (chars, offs) = text::char_table(seg.text.as_str());
        let ms = regex::find_all(&r.re, seg.text.as_str());
        let ghost f = |j: int| match_issue(d, sv, cr, ms@[j]);
        let mut j: usize = 0;
        assert(rule::issues_view(out@) =~= rule::issues_view(old(out)@) + rules::per_index(0, f));
        while j < ms.len()
            invariant
                doc.wf(),
                d == doc@,
                document::view_wf(d),
                i < d.segments.len(),
                sv == d.segments[i as int],
                seg@ == sv,
                chars@ == sv.text,
                rules::offsets_of(chars@, offs@),
                cr.source == r.re@,
                cr.expected == r.expected@,
                cr.expected_is_ascii == r.expected_is_ascii,
                ms@ == regex::matches_from(cr.source, sv.text, 0),
                forall|q: int| 0 <= q < ms@.len() ==> regex::sound_match(sv.text, 0, #[trigger] ms@[q]),
                f == (|q: int| match_issue(d, sv, cr, ms@[q])),
                j <= ms@.len(),
                rule::issues_view(out@) == rule::issues_view(old(out)@) + rules::per_index(j as nat, f),
                rule::fixes_fit(d.source, rule::issues_view(out@)),
            decreases ms@.len() - j,
        {
            let (s, e) = ms[j];
            assert(regex::sound_match(sv.text, 0, ms@[j as int]));
            let actual = rules::slice_bytes(&chars, &offs, s, e);
            let merged = case_merge(actual.as_str(), r.expected.as_str(), r.expected_is_ascii);
            if rules::overlaps_any_exec(&seg.code_ranges, s, e) || text::str_eq(actual.as_str(), merged.as_str()) {
                assert(f(j as int) =~= Seq::<IssueView>::empty());
            } else {
                proof {
                    rules::lemma_seg_byte(d, i as int, s as int);
                    rules::lemma_seg_byte(d, i as int, e as int);
                    document::lemma_char_index(sv.text, s as int);
                    document::lemma_char_index(sv.text, e as int);
                    document::lemma_seg_offset(d, i as int, document::char_index(sv.text, s as int));
                    document::lemma_seg_offset(d, i as int, document::char_index(sv.text, e as int));
                }
                let (line, column) = doc.pos_at(seg, s);
                let mut msg = String::new();
                text::push_str(&mut msg, actual.as_str());
                text::push_str(&mut msg, " => ");
                text::push_str(&mut msg, merged.as_str());
                let issue = Issue::new("prh", msg.as_str(), line, column, Severity::Error)
                    .with_fix(Fix { range: seg.start_byte + s..seg.start_byte + e, replacement: merged });
                let ghost prev_out = out@;
                out.push(issue);
                assert(rule::issues_view(out@) =~= rule::issues_view(prev_out).push(issue@));
                assert(seq![issue@] =~= f(j as int));
            }
            assert(rule::issues_view(out@) =~= rule::issues_view(old(out)@) + rules::per_index(j as nat + 1, f));
            j += 1;
        }
    }
}

impl SegmentRule for Prh {
    open spec fn segment_spec(&self, doc: DocumentView, seg: SegmentView) -> Seq<IssueView> {
        segment_issues(doc, seg, self@)
    }

    fn check_segment(&self, doc: &Document, i: usize, out: &mut Vec<Issue>) {
        let seg = doc.segment(i);
        let ghost sv = seg@;
        let ghost d = doc@;
        let ghost dict = self@;
        if !is_str_bearing(seg.kind) {
            assert(rule::issues_view(out@) =~= rule::issues_view(old(out)@) + seq![]);
            return;
        }
        let ghost g = |k: int| rule_issues(d, sv, dict[k]);
        let n = self.rules.len();
        assert(n == dict.len());
        let mut k: usize = 0;
        assert(rule::issues_view(out@) =~= rule::issues_view(old(out)@) + rules::per_index(0, g));
        while k < n
            invariant
                doc.wf(),
                d == doc@,
                i < d.segments.len(),
                sv == d.segments[i as int],
                dict == self@,
                n == dict.len(),
                g == (|q: int| rule_issues(d, sv, dict[q])),
                k <= n,
                rule::issues_view(out@) == rule::issues_view(old(out)@) + rules::per_index(k as nat, g),
                rule::fixes_fit(d.source, rule::issues_view(out@)),
            decreases n - k,
        {
            self.rule_check(doc, i, k, out);
            assert(rule::issues_view(out@) =~= rule::issues_view(old(out)@) + rules::per_index(k as nat + 1, g));
            k += 1;
        }
    }
}

impl Rule for Prh {
    open spec fn spec_id(&self) -> Seq<char> {
        rule_id()
    }

    open spec fn accepts(&self, doc: DocumentView, issues: Seq<IssueView>) -> bool {
        issues == rules::all_segments(self, doc)
    }

    fn id(&self) -> (r: &str) {
        "prh"
    }

    fn check(&self, doc: &Document) -> (issues: Vec<Issue>) {
        rules::check_segments(self, doc)
    }
}

} // verus!

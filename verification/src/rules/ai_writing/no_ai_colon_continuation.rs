//! preset-ai-writing/no-ai-colon-continuation
//!
//! Reports a paragraph that ends in a colon right before a list, a block
//! quote, a table or a code block when the text before the colon ends in a
//! verb, an adjective, an auxiliary or a conjunction: a pattern that reads
//! like English syntax.

use vstd::prelude::*;
use crate::document::{self, Document, DocumentView, SegmentKind, SegmentView};
use crate::morph::{self, Token, Tokenizer, Unit};
use crate::rule::{self, Issue, IssueView, Rule, Severity};
use crate::rules as rules;
use crate::text;

verus! {

pub open spec fn rule_id() -> Seq<char> {
    "@textlint-ja/preset-ai-writing/no-ai-colon-continuation"@
}

const RULE_ID: &'static str = "@textlint-ja/preset-ai-writing/no-ai-colon-continuation";

pub open spec fn message(before: Seq<char>, colon: char) -> Seq<char> {
    "「"@ + before + seq![colon] + "」のような述語とコロンで終わるパターンは、読み手によっては英語の構文を直訳したような印象を与える場合があります。「次のように〜します。」のような自然な日本語表現を検討してください。"@
}

/// A char allowed in English-only text besides letters and digits.
pub open spec fn english_char(c: char) -> bool {
    ('0' <= c <= '9') || ('a' <= c <= 'z') || ('A' <= c <= 'Z') || c == ' ' || c == '-' || c == '_' || c == '.'
}

/// `s`, without surrounding white space, has an ASCII letter and nothing but
/// ASCII letters, digits, spaces, `-`, `_` and `.`.
pub open spec fn english_only(s: Seq<char>) -> bool {
    let a = rules::trim_start(s, 0, s.len() as int);
    let t = s.subrange(a, rules::trim_end(s, a, s.len() as int));
    (exists|k: int| 0 <= k < t.len() && (('a' <= #[trigger] t[k] <= 'z') || ('A' <= t[k] <= 'Z')))
        && forall|k: int| 0 <= k < t.len() ==> english_char(#[trigger] t[k])
}

/// Whether `s` is English only (see `english_only`).
pub fn is_english_only(s: &str) -> (r: bool)
    ensures
        r == english_only(s@),
{
    let c = text::chars_of(s);
    let a = rules::trim_start_exec(&c, 0, c.len());
    let b = rules::trim_end_exec(&c, a, c.len());
    let ghost t = c@.subrange(a as int, b as int);
    let mut alpha = false;
    let mut k = a;
    while k < b
        invariant
            a <= k <= b <= c@.len(),
            c@ == s@,
            a == rules::trim_start(s@, 0, s@.len() as int),
            b == rules::trim_end(s@, a as int, s@.len() as int),
            t == c@.subrange(a as int, b as int),
            alpha == exists|j: int| 0 <= j < k - a && (('a' <= #[trigger] t[j] <= 'z') || ('A' <= t[j] <= 'Z')),
            forall|j: int| 0 <= j < k - a ==> english_char(#[trigger] t[j]),
        decreases b - k,
    {
        let x = c[k];
        assert(t[k - a] == x);
        if !(('0' <= x && x <= '9') || ('a' <= x && x <= 'z') || ('A' <= x && x <= 'Z') || x == ' ' || x == '-' || x
            == '_' || x == '.') {
            assert(!english_char(t[k - a]));
            return false;
        }
        if ('a' <= x && x <= 'z') || ('A' <= x && x <= 'Z') {
            alpha = true;
        }
        k += 1;
    }
    alpha
}

/// The index past the chars `c` that end `a..b` of `t`.
pub open spec fn strip_end(t: Seq<char>, a: int, b: int, c: char) -> int
    decreases b - a,
{
    if b <= a {
        a
    } else if t[b - 1] == c {
        strip_end(t, a, b - 1, c)
    } else {
        b
    }
}

fn strip_end_exec(t: &Vec<char>, a: usize, b: usize, c: char) -> (r: usize)
    requires
        a <= b <= t@.len(),
    ensures
        r == strip_end(t@, a as int, b as int, c),
        a <= r <= b,
    decreases b - a,
{
    if b <= a {
        a
    } else if t[b - 1] == c {
        strip_end_exec(t, a, b - 1, c)
    } else {
        b
    }
}

/// For a paragraph that ends (before white space) in a colon: the colon, and
/// the char range of the text before it without the colons and white space.
pub open spec fn colon_split(t: Seq<char>) -> Option<(char, int, int)> {
    let te = rules::trim_end(t, 0, t.len() as int);
    if te <= 0 || (t[te - 1] != '：' && t[te - 1] != ':') {
        None
    } else {
        let c = t[te - 1];
        let k = strip_end(t, 0, te, c);
        let a = rules::trim_start(t, 0, k);
        Some((c, a, rules::trim_end(t, a, k)))
    }
}

/// A code block starts after segment `i` ends and before the next segment,
/// if there is one.
pub open spec fn code_block_after(doc: DocumentView, i: int) -> bool {
    let seg = doc.segments[i];
    exists|k: int|
        0 <= k < doc.code_blocks.len() && seg.start_byte + text::byte_len(seg.text) <= #[trigger] doc.code_blocks[k]
            && (i + 1 < doc.segments.len() ==> doc.code_blocks[k] < doc.segments[i + 1].start_byte)
}

/// The block right after segment `i` is a list, a block quote, a table or a
/// code block: the next segment is a list item, a table cell or the first
/// segment of a block quote, or a code block comes before it.
pub open spec fn block_follows(doc: DocumentView, i: int) -> bool {
    let seg = doc.segments[i];
    ||| (i + 1 < doc.segments.len() && {
        let next = doc.segments[i + 1];
        next.kind == SegmentKind::ListItem || next.kind == SegmentKind::TableCell || (next.in_block_quote
            && !seg.in_block_quote)
    })
    ||| code_block_after(doc, i)
}

/// Segment `i` is a candidate: a paragraph that ends in a colon right before a
/// list, a block quote, a table or a code block, with more than two chars
/// before the colon that are not English only.
pub open spec fn candidate(doc: DocumentView, i: int) -> Option<(char, int, int)> {
    let seg = doc.segments[i];
    if seg.kind != SegmentKind::Paragraph || !block_follows(doc, i) {
        None
    } else {
        match colon_split(seg.text) {
            None => None,
            Some((c, a, b)) => if b - a <= 2 || english_only(seg.text.subrange(a, b)) {
                None
            } else {
                Some((c, a, b))
            },
        }
    }
}

/// The texts before the colon of the candidates among the first `n` segments.
pub open spec fn colon_units_upto(doc: DocumentView, n: nat) -> Seq<Unit>
    decreases n,
{
    if n == 0 {
        seq![]
    } else {
        let i = n - 1;
        let before = colon_units_upto(doc, (n - 1) as nat);
        match candidate(doc, i) {
            Some((c, a, b)) => before.push(
                Unit {
                    seg: i as usize,
                    start: text::byte_pos(doc.segments[i].text, a) as usize,
                    end: text::byte_pos(doc.segments[i].text, b) as usize,
                },
            ),
            None => before,
        }
    }
}

pub open spec fn colon_units(doc: DocumentView) -> Seq<Unit> {
    colon_units_upto(doc, doc.segments.len())
}

/// The parts of speech that make the pattern.
pub open spec fn predicate_pos(pos: Seq<char>) -> bool {
    pos == "動詞"@ || pos == "形容詞"@ || pos == "助動詞"@ || pos == "接続詞"@
}

/// The issue for candidate unit `u`, cut into `toks`.
pub open spec fn unit_issue(doc: DocumentView, u: Unit, toks: Seq<Token>) -> Seq<IssueView> {
    let seg = doc.segments[u.seg as int];
    match candidate(doc, u.seg as int) {
        Some((c, a, b)) => if toks.len() > 0 && predicate_pos(toks.last().pos@) {
            let at = text::byte_pos(seg.text, rules::last_in(seg.text, 0, seg.text.len() as int, c));
            seq![
                rule::issue_spec(
                    rule_id(),
                    message(seg.text.subrange(a, b), c),
                    document::seg_pos(doc, seg, at as int),
                    Severity::Error,
                ),
            ]
        } else {
            seq![]
        },
        None => seq![],
    }
}

pub open spec fn doc_issues(doc: DocumentView, toks: Seq<Vec<Token>>) -> Seq<IssueView> {
    let us = colon_units(doc);
    rules::per_index(us.len(), |k: int| unit_issue(doc, us[k], toks[k]@))
}

/// Whether a block follows segment `i` (see `block_follows`).
fn block_follows_exec(doc: &Document, i: usize) -> (r: bool)
    requires
        doc.wf(),
        i < doc@.segments.len(),
    ensures
        r == block_follows(doc@, i as int),
{
    let seg = doc.segment(i);
    let n = doc.segment_count();
    if i + 1 < n {
        let next = doc.segment(i + 1);
        if next.kind == SegmentKind::ListItem || next.kind == SegmentKind::TableCell || (next.in_block_quote
            && !seg.in_block_quote) {
            return true;
        }
    }
    proof {
        doc.lemma_wf();
        document::lemma_segment_end(doc@, i as int);
    }
    let end = seg.start_byte + text::str_byte_len(seg.text.as_str());
    let m = doc.code_block_count();
    let mut k: usize = 0;
    while k < m
        invariant
            doc.wf(),
            i < n,
            n == doc@.segments.len(),
            m == doc@.code_blocks.len(),
            seg@ == doc@.segments[i as int],
            end == seg@.start_byte + text::byte_len(seg@.text),
            k <= m,
            forall|j: int|
                0 <= j < k ==> !(end <= #[trigger] doc@.code_blocks[j] && (i + 1 < n ==> doc@.code_blocks[j]
                    < doc@.segments[i + 1].start_byte)),
        decreases m - k,
    {
        let b = doc.code_block(k);
        if end <= b && (i + 1 >= n || b < doc.segment(i + 1).start_byte) {
            assert(code_block_after(doc@, i as int));
            return true;
        }
        k += 1;
    }
    false
}

/// The candidate split of segment `i` (see `candidate`).
fn candidate_exec(doc: &Document, i: usize, chars: &Vec<char>) -> (r: Option<(char, usize, usize)>)
    requires
        doc.wf(),
        i < doc@.segments.len(),
        chars@ == doc@.segments[i as int].text,
    ensures
        match r {
            None => candidate(doc@, i as int) is None,
            Some((c, a, b)) => candidate(doc@, i as int) == Some((c, a as int, b as int)) && a <= b <= chars@.len(),
        },
{
    let seg = doc.segment(i);
    if seg.kind != SegmentKind::Paragraph || !block_follows_exec(doc, i) {
        return None;
    }
    let te = rules::trim_end_exec(chars, 0, chars.len());
    if te == 0 || (chars[te - 1] != '：' && chars[te - 1] != ':') {
        return None;
    }
    let c = chars[te - 1];
    let k = strip_end_exec(chars, 0, te, c);
    let a = rules::trim_start_exec(chars, 0, k);
    let b = rules::trim_end_exec(chars, a, k);
    if b - a <= 2 {
        return None;
    }
    let before = text::string_of(chars, a, b);
    if is_english_only(before.as_str()) {
        return None;
    }
    Some((c, a, b))
}

/// The units before the colon of the candidate paragraphs.
pub fn colon_units_exec(doc: &Document) -> (r: Vec<Unit>)
    requires
        doc.wf(),
    ensures
        r@ == colon_units(doc@),
        forall|k: int| 0 <= k < r@.len() ==> morph::unit_in(doc@, #[trigger] r@[k]),
{
    let mut out: Vec<Unit> = Vec::new();
    let n = doc.segment_count();
    let mut i: usize = 0;
    while i < n
        invariant
            doc.wf(),
            n == doc@.segments.len(),
            i <= n,
            out@ == colon_units_upto(doc@, i as nat),
            forall|k: int| 0 <= k < out@.len() ==> morph::unit_in(doc@, #[trigger] out@[k]),
        decreases n - i,
    {
        let seg = doc.segment(i);
        let (chars, offs) = text::char_table(seg.text.as_str());
        match candidate_exec(doc, i, &chars) {
            Some((c, a, b)) => {
                proof {
                    text::lemma_byte_pos_mono(chars@, a as int, b as int);
                }
                let ghost prev = out@;
                out.push(Unit { seg: i, start: offs[a], end: offs[b] });
                assert forall|k: int| 0 <= k < out@.len() implies morph::unit_in(doc@, #[trigger] out@[k]) by {
                    if k < prev.len() {
                        assert(out@[k] == prev[k]);
                    } else {
                        assert(text::is_boundary(chars@, offs@[a as int] as int));
                        assert(text::is_boundary(chars@, offs@[b as int] as int));
                    }
                }
            },
            None => {},
        }
        i += 1;
    }
    out
}

/// The issues for the candidate units, cut into `toks`.
pub fn check_tokens(doc: &Document, us: &Vec<Unit>, toks: &Vec<Vec<Token>>) -> (out: Vec<Issue>)
    requires
        doc.wf(),
        us@ == colon_units(doc@),
        toks@.len() == us@.len(),
        forall|k: int| 0 <= k < us@.len() ==> morph::unit_in(doc@, #[trigger] us@[k]),
    ensures
        rule::issues_view(out@) == doc_issues(doc@, toks@),
        rule::fixes_fit(doc@.source, rule::issues_view(out@)),
{
    let mut out: Vec<Issue> = Vec::new();
    let ghost f = |k: int| unit_issue(doc@, us@[k], toks@[k]@);
    let mut k: usize = 0;
    assert(rule::issues_view(out@) =~= rules::per_index(0, f));
    while k < us.len()
        invariant
            doc.wf(),
            toks@.len() == us@.len(),
            forall|j: int| 0 <= j < us@.len() ==> morph::unit_in(doc@, #[trigger] us@[j]),
            f == (|j: int| unit_issue(doc@, us@[j], toks@[j]@)),
            k <= us@.len(),
            rule::issues_view(out@) == rules::per_index(k as nat, f),
            rule::fixes_fit(doc@.source, rule::issues_view(out@)),
        decreases us@.len() - k,
    {
        let u = us[k];
        let ts = &toks[k];
        let seg = doc.segment(u.seg);
        let ghost sv = seg@;
        let (chars, offs) = text::char_table(seg.text.as_str());
        let mut pushed = false;
        match candidate_exec(doc, u.seg, &chars) {
            Some((c, a, b)) => {
                if ts.len() > 0 {
                    let pos = ts[ts.len() - 1].pos.as_str();
                    if text::str_eq(pos, "動詞") || text::str_eq(pos, "形容詞") || text::str_eq(pos, "助動詞")
                        || text::str_eq(pos, "接続詞") {
                        let (_, last) = rules::count_and_last(&chars, 0, chars.len(), c);
                        proof {
                            doc.lemma_wf();
                            document::lemma_seg_offset(doc@, u.seg as int, last as int);
                        }
                        let (line, column) = doc.pos_at(seg, offs[last]);
                        let mut msg = String::new();
                        text::push_str(&mut msg, "「");
                        text::push_chars(&mut msg, &chars, a, b);
                        text::push_char(&mut msg, c);
                        text::push_str(&mut msg, "」のような述語とコロンで終わるパターンは、読み手によっては英語の構文を直訳したような印象を与える場合があります。「次のように〜します。」のような自然な日本語表現を検討してください。");
                        assert(msg@ =~= message(sv.text.subrange(a as int, b as int), c));
                        let issue = Issue::new(RULE_ID, msg.as_str(), line, column, Severity::Error);
                        let ghost p0 = out@;
                        out.push(issue);
                        assert(rule::issues_view(out@) =~= rule::issues_view(p0).push(issue@));
                        assert(seq![issue@] =~= f(k as int));
                        pushed = true;
                    }
                }
            },
            None => {},
        }
        if !pushed {
            assert(f(k as int) =~= Seq::<IssueView>::empty());
        }
        assert(rule::issues_view(out@) =~= rules::per_index(k as nat + 1, f));
        k += 1;
    }
    out
}

/// The rule, with the analyser that cuts the text before the colon into tokens.
pub struct NoAiColonContinuation<T> {
    pub tokenizer: T,
}

impl<T: Tokenizer> Rule for NoAiColonContinuation<T> {
    open spec fn spec_id(&self) -> Seq<char> {
        rule_id()
    }

    open spec fn accepts(&self, doc: DocumentView, issues: Seq<IssueView>) -> bool {
        exists|toks: Seq<Vec<Token>>| morph::analysed(&self.tokenizer, doc, colon_units(doc), toks) && issues == #[trigger] doc_issues(doc, toks)
    }

    fn id(&self) -> (r: &str) {
        RULE_ID
    }

    fn check(&self, doc: &Document) -> (issues: Vec<Issue>) {
        let us = colon_units_exec(doc);
        let toks = morph::tokenize_units(&self.tokenizer, doc, &us);
        check_tokens(doc, &us, &toks)
    }
}

} // verus!

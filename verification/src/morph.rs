//! Morphological tokens, and the texts of a document that the token rules
//! hand to a tokenizer.
//!
//! The tokenizer itself (a dictionary-based morphological analyser) is
//! supplied by the caller through `Tokenizer`; the rules are stated over
//! what it hands back for each text they give it.

use vstd::prelude::*;
use crate::document::{self, Document, DocumentView, SegmentKind};
use crate::rule::{self, Issue, IssueView};
use crate::rules::{self as rules, Terminators};
use crate::text;

verus! {

/// A token: its surface, its byte range in the text it was cut from, and its
/// part of speech and forms as the dictionary gives them.
#[derive(Debug, Clone)]
pub struct Token {
    pub surface: String,
    pub byte_start: usize,
    pub byte_end: usize,
    pub pos: String,
    pub pos_detail_1: String,
    pub pos_detail_2: String,
    pub pos_detail_3: String,
    pub base_form: String,
    pub conjugated_form: String,
    pub reading: String,
}

/// A token as the analyser hands it over: its surface, byte range and the
/// dictionary's feature list (part of speech, its three refinements,
/// conjugation type and form, base form, reading, ...).
#[derive(Debug, Clone)]
pub struct RawToken {
    pub surface: String,
    pub byte_start: usize,
    pub byte_end: usize,
    pub details: Vec<String>,
}

/// A raw token as plain text: surface, byte range and feature list.
pub struct RawTokenView {
    pub surface: Seq<char>,
    pub byte_start: usize,
    pub byte_end: usize,
    pub details: Seq<Seq<char>>,
}

impl View for RawToken {
    type V = RawTokenView;

    open spec fn view(&self) -> RawTokenView {
        RawTokenView {
            surface: self.surface@,
            byte_start: self.byte_start,
            byte_end: self.byte_end,
            details: self.details@.map_values(|d: String| d@),
        }
    }
}

/// An analysis as plain text: the views of its tokens, or `None`.
pub open spec fn analysis_view(raw: Option<Vec<RawToken>>) -> Option<Seq<RawTokenView>> {
    match raw {
        None => None,
        Some(v) => Some(v@.map_values(|t: RawToken| t@)),
    }
}

/// A morphological analyser. Nothing is assumed of what it returns: the
/// token rules are stated over what `analyze` hands back on their calls (see
/// `analysis_of`).
pub trait Tokenizer {
    /// The tokens of `text`, in order; `None` where the analysis fails.
    fn analyze(&self, text: &str) -> Option<Vec<RawToken>>;
}

/// `raw` is what `tok` may hand back for `text`.
pub open spec fn analysis_of<T: Tokenizer>(tok: &T, text: Seq<char>, raw: Option<Seq<RawTokenView>>) -> bool {
    exists|s: &str, r: Option<Vec<RawToken>>| s@ == text && call_ensures(T::analyze, (tok, s), r) && analysis_view(r) == raw
}

/// `toks` are the tokens of an analysis that `tok` may hand back for `text`.
pub open spec fn cut_as<T: Tokenizer>(tok: &T, text: Seq<char>, toks: Seq<Token>) -> bool {
    exists|raw: Option<Seq<RawTokenView>>| analysis_of(tok, text, raw) && analysis_tokens(raw, toks)
}

/// Feature `k` of a feature list, or empty where the list is shorter.
pub open spec fn detail(details: Seq<Seq<char>>, k: int) -> Seq<char> {
    if 0 <= k < details.len() {
        details[k]
    } else {
        seq![]
    }
}

/// The token made of a raw token: the part of speech and its refinements are
/// features 0 to 3, the conjugated form 5, the base form 6, the reading 7.
pub open spec fn token_spec(raw: RawTokenView, t: Token) -> bool {
    &&& t.surface@ == raw.surface
    &&& t.byte_start == raw.byte_start
    &&& t.byte_end == raw.byte_end
    &&& t.pos@ == detail(raw.details, 0)
    &&& t.pos_detail_1@ == detail(raw.details, 1)
    &&& t.pos_detail_2@ == detail(raw.details, 2)
    &&& t.pos_detail_3@ == detail(raw.details, 3)
    &&& t.conjugated_form@ == detail(raw.details, 5)
    &&& t.base_form@ == detail(raw.details, 6)
    &&& t.reading@ == detail(raw.details, 7)
}

fn detail_exec(details: &Vec<String>, k: usize) -> (r: String)
    ensures
        r@ == detail(details@.map_values(|d: String| d@), k as int),
{
    if k < details.len() {
        details[k].as_str().to_owned()
    } else {
        String::new()
    }
}

/// The token made of a raw token (see `token_spec`).
pub fn token_of(raw: &RawToken) -> (t: Token)
    ensures
        token_spec(raw@, t),
{
    Token {
        surface: raw.surface.as_str().to_owned(),
        byte_start: raw.byte_start,
        byte_end: raw.byte_end,
        pos: detail_exec(&raw.details, 0),
        pos_detail_1: detail_exec(&raw.details, 1),
        pos_detail_2: detail_exec(&raw.details, 2),
        pos_detail_3: detail_exec(&raw.details, 3),
        base_form: detail_exec(&raw.details, 6),
        conjugated_form: detail_exec(&raw.details, 5),
        reading: detail_exec(&raw.details, 7),
    }
}

/// `toks` are the tokens of analysis `raw`, each made by `token_of`; none
/// where the analysis failed.
pub open spec fn analysis_tokens(raw: Option<Seq<RawTokenView>>, toks: Seq<Token>) -> bool {
    match raw {
        None => toks.len() == 0,
        Some(v) => toks.len() == v.len() && forall|k: int| 0 <= k < toks.len() ==> token_spec(v[k], #[trigger] toks[k]),
    }
}

/// The tokens of an analysis (see `analysis_tokens`).
pub fn tokens_of(raw: Option<Vec<RawToken>>) -> (r: Vec<Token>)
    ensures
        analysis_tokens(analysis_view(raw), r@),
{
    match raw {
        None => Vec::new(),
        Some(v) => {
            let mut out: Vec<Token> = Vec::new();
            let mut k: usize = 0;
            while k < v.len()
                invariant
                    k <= v@.len(),
                    out@.len() == k,
                    forall|j: int| 0 <= j < k ==> token_spec(v@[j]@, #[trigger] out@[j]),
                decreases v@.len() - k,
            {
                out.push(token_of(&v[k]));
                k += 1;
            }
            out
        },
    }
}

/// The tokens of `text`, as `tokenizer` analyses it on this call (see
/// `cut_as`); none where the analysis fails.
pub fn tokenize<T: Tokenizer>(tokenizer: &T, text: &str) -> (r: Vec<Token>)
    ensures
        cut_as(tokenizer, text@, r@),
{
    let raw = tokenizer.analyze(text);
    assert(call_ensures(T::analyze, (tokenizer, text), raw));
    let ghost g = analysis_view(raw);
    let r = tokens_of(raw);
    assert(analysis_of(tokenizer, text@, g));
    assert(cut_as(tokenizer, text@, r@));
    r
}

/// A text of the document handed to the tokenizer: segment `seg`, bytes
/// `start..end` of its text.
#[derive(Clone, Copy, PartialEq, Eq, Structural)]
pub struct Unit {
    pub seg: usize,
    pub start: usize,
    pub end: usize,
}

/// The sentences (with every sentence terminator) of the paragraphs of `doc`,
/// in document order, as units.
pub open spec fn sentence_units_upto(doc: DocumentView, n: nat) -> Seq<Unit>
    decreases n,
{
    if n == 0 {
        seq![]
    } else {
        let i = n - 1;
        let seg = doc.segments[i];
        let before = sentence_units_upto(doc, (n - 1) as nat);
        if seg.kind == SegmentKind::Paragraph {
            let ss = rules::sentences(seg.text, Terminators::Mixed);
            before + Seq::new(
                ss.len(),
                |q: int|
                    Unit {
                        seg: i as usize,
                        start: text::byte_pos(seg.text, ss[q].0) as usize,
                        end: text::byte_pos(seg.text, ss[q].1) as usize,
                    },
            )
        } else {
            before
        }
    }
}

pub open spec fn sentence_units(doc: DocumentView) -> Seq<Unit> {
    sentence_units_upto(doc, doc.segments.len())
}

/// A unit lies in its segment, between chars.
pub open spec fn unit_in(doc: DocumentView, u: Unit) -> bool {
    &&& u.seg < doc.segments.len()
    &&& u.start <= u.end
    &&& text::is_boundary(doc.segments[u.seg as int].text, u.start as int)
    &&& text::is_boundary(doc.segments[u.seg as int].text, u.end as int)
}

/// The text of unit `u`.
pub open spec fn unit_text(doc: DocumentView, u: Unit) -> Seq<char> {
    rules::byte_slice(doc.segments[u.seg as int].text, u.start as int, u.end as int)
}

/// The sentence units of the paragraphs of `doc`.
pub fn sentence_units_exec(doc: &Document) -> (r: Vec<Unit>)
    requires
        doc.wf(),
    ensures
        r@ == sentence_units(doc@),
        forall|k: int| 0 <= k < r@.len() ==> unit_in(doc@, #[trigger] r@[k]),
{
    let mut out: Vec<Unit> = Vec::new();
    let n = doc.segment_count();
    let mut i: usize = 0;
    while i < n
        invariant
            doc.wf(),
            n == doc@.segments.len(),
            i <= n,
            out@ == sentence_units_upto(doc@, i as nat),
            forall|k: int| 0 <= k < out@.len() ==> unit_in(doc@, #[trigger] out@[k]),
        decreases n - i,
    {
        let seg = doc.segment(i);
        let ghost sv = seg@;
        if seg.kind == SegmentKind::Paragraph {
            let (chars, offs) = text::char_table(seg.text.as_str());
            let ss = rules::split_sentences(&chars, Terminators::Mixed);
            let ghost gs = rules::sentences(sv.text, Terminators::Mixed);
            let ghost before = out@;
            let ghost mk = |q: int|
                Unit {
                    seg: i as usize,
                    start: text::byte_pos(sv.text, gs[q].0) as usize,
                    end: text::byte_pos(sv.text, gs[q].1) as usize,
                };
            let mut q: usize = 0;
            while q < ss.len()
                invariant
                    doc.wf(),
                    i < doc@.segments.len(),
                    sv == doc@.segments[i as int],
                    chars@ == sv.text,
                    rules::offsets_of(chars@, offs@),
                    gs == rules::sentences(sv.text, Terminators::Mixed),
                    rules::ranges_view(ss@) == gs,
                    forall|p: int| 0 <= p < ss@.len() ==> #[trigger] ss@[p].0 < ss@[p].1 <= chars@.len(),
                    mk == (|p: int|
                        Unit {
                            seg: i as usize,
                            start: text::byte_pos(sv.text, gs[p].0) as usize,
                            end: text::byte_pos(sv.text, gs[p].1) as usize,
                        }),
                    q <= ss@.len(),
                    out@ == before + Seq::new(q as nat, mk),
                    forall|k: int| 0 <= k < out@.len() ==> unit_in(doc@, #[trigger] out@[k]),
                decreases ss@.len() - q,
            {
                let (a, b) = ss[q];
                assert(gs[q as int] == (a as int, b as int));
                proof {
                    text::lemma_byte_pos_mono(chars@, a as int, b as int);
                }
                let u = Unit { seg: i, start: offs[a], end: offs[b] };
                let ghost prev = out@;
                out.push(u);
                assert(Seq::new(q as nat + 1, mk) =~= Seq::new(q as nat, mk).push(mk(q as int)));
                assert(out@ =~= before + Seq::new(q as nat + 1, mk));
                assert forall|k: int| 0 <= k < out@.len() implies unit_in(doc@, #[trigger] out@[k]) by {
                    if k < prev.len() {
                        assert(out@[k] == prev[k]);
                    } else {
                        assert(text::is_boundary(sv.text, offs@[a as int] as int));
                        assert(text::is_boundary(sv.text, offs@[b as int] as int));
                    }
                }
                q += 1;
            }
            assert(Seq::new(ss@.len(), mk) =~= Seq::new(
                gs.len(),
                |p: int|
                    Unit {
                        seg: i as usize,
                        start: text::byte_pos(sv.text, gs[p].0) as usize,
                        end: text::byte_pos(sv.text, gs[p].1) as usize,
                    },
            ));
        }
        i += 1;
    }
    out
}

/// The whole text of each segment of `doc` that holds running text, as units.
pub open spec fn segment_units_upto(doc: DocumentView, n: nat) -> Seq<Unit>
    decreases n,
{
    if n == 0 {
        seq![]
    } else {
        let seg = doc.segments[n - 1];
        let before = segment_units_upto(doc, (n - 1) as nat);
        if rules::str_bearing(seg.kind) {
            before.push(Unit { seg: (n - 1) as usize, start: 0, end: text::byte_len(seg.text) as usize })
        } else {
            before
        }
    }
}

pub open spec fn segment_units(doc: DocumentView) -> Seq<Unit> {
    segment_units_upto(doc, doc.segments.len())
}

/// The whole text of each segment that holds running text.
pub fn segment_units_exec(doc: &Document) -> (r: Vec<Unit>)
    requires
        doc.wf(),
    ensures
        r@ == segment_units(doc@),
        forall|k: int| 0 <= k < r@.len() ==> unit_in(doc@, #[trigger] r@[k]),
{
    let mut out: Vec<Unit> = Vec::new();
    let n = doc.segment_count();
    let mut i: usize = 0;
    while i < n
        invariant
            doc.wf(),
            n == doc@.segments.len(),
            i <= n,
            out@ == segment_units_upto(doc@, i as nat),
            forall|k: int| 0 <= k < out@.len() ==> unit_in(doc@, #[trigger] out@[k]),
        decreases n - i,
    {
        let seg = doc.segment(i);
        if rules::is_str_bearing(seg.kind) {
            let len = text::str_byte_len(seg.text.as_str());
            proof {
                text::lemma_byte_pos_zero(seg.text@);
                text::lemma_byte_pos_full(seg.text@);
                assert(text::is_boundary(seg.text@, 0));
                assert(text::is_boundary(seg.text@, len as int));
            }
            let ghost prev = out@;
            out.push(Unit { seg: i, start: 0, end: len });
            assert forall|k: int| 0 <= k < out@.len() implies unit_in(doc@, #[trigger] out@[k]) by {
                if k < prev.len() {
                    assert(out@[k] == prev[k]);
                }
            }
        }
        i += 1;
    }
    out
}

/// The text of unit `u`.
pub fn unit_text_exec(doc: &Document, u: Unit) -> (r: String)
    requires
        doc.wf(),
        unit_in(doc@, u),
    ensures
        r@ == unit_text(doc@, u),
{
    let seg = doc.segment(u.seg);
    let (chars, offs) = text::char_table(seg.text.as_str());
    rules::slice_bytes(&chars, &offs, u.start, u.end)
}

/// `toks` holds, for each unit of `us`, the tokens of its text as `tok`
/// analyses it.
pub open spec fn analysed<T: Tokenizer>(tok: &T, doc: DocumentView, us: Seq<Unit>, toks: Seq<Vec<Token>>) -> bool {
    &&& toks.len() == us.len()
    &&& forall|q: int| 0 <= q < us.len() ==> cut_as(tok, unit_text(doc, us[q]), #[trigger] toks[q]@)
}

/// The tokens of each unit, as `tok` cuts them.
pub fn tokenize_units<T: Tokenizer>(tok: &T, doc: &Document, units: &Vec<Unit>) -> (r: Vec<Vec<Token>>)
    requires
        doc.wf(),
        forall|k: int| 0 <= k < units@.len() ==> unit_in(doc@, #[trigger] units@[k]),
    ensures
        analysed(tok, doc@, units@, r@),
{
    let mut out: Vec<Vec<Token>> = Vec::new();
    let mut k: usize = 0;
    while k < units.len()
        invariant
            doc.wf(),
            forall|j: int| 0 <= j < units@.len() ==> unit_in(doc@, #[trigger] units@[j]),
            k <= units@.len(),
            out@.len() == k,
            forall|q: int| 0 <= q < k ==> cut_as(tok, unit_text(doc@, units@[q]), #[trigger] out@[q]@),
        decreases units@.len() - k,
    {
        let t = unit_text_exec(doc, units[k]);
        let ts = tokenize(tok, t.as_str());
        let ghost prev = out@;
        out.push(ts);
        assert forall|q: int| 0 <= q < k + 1 implies cut_as(tok, unit_text(doc@, units@[q]), #[trigger] out@[q]@) by {
            if q < k {
                assert(out@[q] == prev[q]);
            }
        }
        k += 1;
    }
    out
}

/// A token rule that reads each unit on its own.
pub trait UnitRule {
    /// The issues the rule reports on unit `u` of `doc`, cut into `toks`.
    spec fn unit_spec(&self, doc: DocumentView, u: Unit, toks: Seq<Token>) -> Seq<IssueView>;

    /// Appends the issues of unit `u`, cut into `toks`, to `out`.
    fn check_unit(&self, doc: &Document, u: Unit, toks: &Vec<Token>, out: &mut Vec<Issue>)
        requires
            doc.wf(),
            unit_in(doc@, u),
            rule::fixes_fit(doc@.source, rule::issues_view(old(out)@)),
        ensures
            rule::issues_view(final(out)@) == rule::issues_view(old(out)@) + self.unit_spec(doc@, u, toks@),
            rule::fixes_fit(doc@.source, rule::issues_view(final(out)@)),
    ;
}

/// The issues `r` reports on the units `us`, cut into `toks`, in order.
pub open spec fn units_issues<R: UnitRule>(r: &R, doc: DocumentView, us: Seq<Unit>, toks: Seq<Vec<Token>>) -> Seq<IssueView> {
    rules::per_index(us.len(), |k: int| r.unit_spec(doc, us[k], toks[k]@))
}

/// Runs a unit rule over the units `us`, cut into `toks`.
pub fn check_units<R: UnitRule>(r: &R, doc: &Document, us: &Vec<Unit>, toks: &Vec<Vec<Token>>) -> (out: Vec<Issue>)
    requires
        doc.wf(),
        toks@.len() == us@.len(),
        forall|k: int| 0 <= k < us@.len() ==> unit_in(doc@, #[trigger] us@[k]),
    ensures
        rule::issues_view(out@) == units_issues(r, doc@, us@, toks@),
        rule::fixes_fit(doc@.source, rule::issues_view(out@)),
{
    let mut out: Vec<Issue> = Vec::new();
    let ghost f = |k: int| r.unit_spec(doc@, us@[k], toks@[k]@);
    let mut k: usize = 0;
    assert(rule::issues_view(out@) =~= rules::per_index(0, f));
    while k < us.len()
        invariant
            doc.wf(),
            toks@.len() == us@.len(),
            forall|j: int| 0 <= j < us@.len() ==> unit_in(doc@, #[trigger] us@[j]),
            f == (|j: int| r.unit_spec(doc@, us@[j], toks@[j]@)),
            k <= us@.len(),
            rule::issues_view(out@) == rules::per_index(k as nat, f),
            rule::fixes_fit(doc@.source, rule::issues_view(out@)),
        decreases us@.len() - k,
    {
        r.check_unit(doc, us[k], &toks[k], &mut out);
        k += 1;
    }
    out
}

/// Byte `off` of unit `u` lies between two chars of its segment.
pub open spec fn unit_at(doc: DocumentView, u: Unit, off: int) -> bool {
    u.start + off <= usize::MAX && text::is_boundary(doc.segments[u.seg as int].text, u.start + off)
}

/// Whether byte `off` of unit `u` lies between two chars of its segment;
/// the absolute offset in the segment where it does.
pub fn unit_offset(doc: &Document, u: Unit, off: usize) -> (r: Option<usize>)
    requires
        doc.wf(),
        unit_in(doc@, u),
    ensures
        r is Some <==> unit_at(doc@, u, off as int),
        r matches Some(b) ==> b == u.start + off,
{
    match u.start.checked_add(off) {
        Some(b) => if seg_boundary(doc, u.seg, b) {
            Some(b)
        } else {
            None
        },
        None => None,
    }
}

/// Byte `b` of segment `i` lies between two of its chars.
pub fn seg_boundary(doc: &Document, i: usize, b: usize) -> (r: bool)
    requires
        doc.wf(),
        i < doc@.segments.len(),
    ensures
        r == text::is_boundary(doc@.segments[i as int].text, b as int),
{
    let seg = doc.segment(i);
    let (chars, offs) = text::char_table(seg.text.as_str());
    proof {
        assert forall|x: int, y: int| 0 <= x < y < offs@.len() implies offs@[x] < offs@[y] by {
            text::lemma_byte_pos_mono(chars@, x, y);
        }
    }
    match text::char_index_at(&offs, b) {
        Some(k) => {
            assert(text::byte_pos(chars@, k as int) == b);
            true
        },
        None => {
            assert forall|k: int| 0 <= k <= chars@.len() implies text::byte_pos(chars@, k) != b by {
                assert(offs@[k] != b);
            }
            false
        },
    }
}

} // verus!

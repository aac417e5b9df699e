//! preset-ja-technical-writing/no-double-negative-ja
//!
//! Reports double negatives (〜なくもない, 〜ないことはない, ...): runs of
//! tokens that meet the token conditions of a pattern one after another.

use vstd::prelude::*;
use crate::document::{self, Document, DocumentView};
use crate::morph::{self, Token, Tokenizer, Unit, UnitRule};
use crate::rule::{self, Issue, IssueView, Rule, Severity};
use crate::rules as rules;
use crate::text;

verus! {

pub open spec fn rule_id() -> Seq<char> {
    "no-double-negative-ja"@
}

/// Conditions on a token: for each field given, the token's field is one of
/// the listed values.
pub struct TokenSpec {
    pub surface: Option<Vec<&'static str>>,
    pub base: Option<Vec<&'static str>>,
    pub pos: Option<Vec<&'static str>>,
    pub reading: Option<Vec<&'static str>>,
    pub conjugated_form: Option<Vec<&'static str>>,
}

#[verifier::ext_equal]
pub struct TokenSpecView {
    pub surface: Option<Seq<Seq<char>>>,
    pub base: Option<Seq<Seq<char>>>,
    pub pos: Option<Seq<Seq<char>>>,
    pub reading: Option<Seq<Seq<char>>>,
    pub conjugated_form: Option<Seq<Seq<char>>>,
}

pub open spec fn strs_view(v: Seq<&'static str>) -> Seq<Seq<char>> {
    v.map_values(|s: &'static str| s@)
}

pub open spec fn opt_view(o: Option<Vec<&'static str>>) -> Option<Seq<Seq<char>>> {
    match o {
        None => None,
        Some(v) => Some(strs_view(v@)),
    }
}

impl View for TokenSpec {
    type V = TokenSpecView;

    open spec fn view(&self) -> TokenSpecView {
        TokenSpecView {
            surface: opt_view(self.surface),
            base: opt_view(self.base),
            pos: opt_view(self.pos),
            reading: opt_view(self.reading),
            conjugated_form: opt_view(self.conjugated_form),
        }
    }
}

/// A double negative: its message and the conditions on its tokens, in order.
pub struct NegPattern {
    pub message: &'static str,
    pub specs: Vec<TokenSpec>,
}

#[verifier::ext_equal]
pub struct PatternView {
    pub message: Seq<char>,
    pub specs: Seq<TokenSpecView>,
}

impl View for NegPattern {
    type V = PatternView;

    open spec fn view(&self) -> PatternView {
        PatternView { message: self.message@, specs: self.specs@.map_values(|s: TokenSpec| s@) }
    }
}

/// A token spec with no condition.
pub fn spec_const() -> (r: TokenSpec)
    ensures
        r@ == (TokenSpecView { surface: None, base: None, pos: None, reading: None, conjugated_form: None }),
{
    TokenSpec { surface: None, base: None, pos: None, reading: None, conjugated_form: None }
}

/// Number of patterns.
pub const PATTERN_COUNT: usize = 8;

/// The double negatives the rule knows.
pub open spec fn negation_patterns() -> Seq<PatternView> {
    seq![
            PatternView {
                message: "二重否定: 〜なくもない"@,
                specs: seq![
                    TokenSpecView { surface: None, base: Some(seq!["ない"@, "無い"@]), pos: None, reading: None, conjugated_form: None },
                    TokenSpecView { surface: Some(seq!["も"@]), base: None, pos: Some(seq!["助詞"@]), reading: None, conjugated_form: None },
                    TokenSpecView { surface: None, base: Some(seq!["ない"@, "無い"@]), pos: Some(seq!["形容詞"@]), reading: None, conjugated_form: None },
                ],
            },
            PatternView {
                message: "二重否定: 〜なくはない"@,
                specs: seq![
                    TokenSpecView { surface: None, base: Some(seq!["ない"@, "無い"@]), pos: None, reading: None, conjugated_form: None },
                    TokenSpecView { surface: Some(seq!["は"@]), base: None, pos: Some(seq!["助詞"@]), reading: None, conjugated_form: None },
                    TokenSpecView { surface: None, base: Some(seq!["ない"@, "無い"@]), pos: Some(seq!["形容詞"@]), reading: None, conjugated_form: None },
                ],
            },
            PatternView {
                message: "二重否定: 〜ないでもない"@,
                specs: seq![
                    TokenSpecView { surface: None, base: Some(seq!["ない"@, "無い"@]), pos: None, reading: None, conjugated_form: None },
                    TokenSpecView { surface: Some(seq!["で"@]), base: None, pos: None, reading: None, conjugated_form: Some(seq!["連用形"@]) },
                    TokenSpecView { surface: Some(seq!["も"@]), base: None, pos: Some(seq!["助詞"@]), reading: None, conjugated_form: None },
                    TokenSpecView { surface: None, base: Some(seq!["ない"@, "無い"@]), pos: Some(seq!["形容詞"@]), reading: None, conjugated_form: None },
                ],
            },
            PatternView {
                message: "二重否定: 〜ないではない"@,
                specs: seq![
                    TokenSpecView { surface: None, base: Some(seq!["ない"@, "無い"@]), pos: None, reading: None, conjugated_form: None },
                    TokenSpecView { surface: Some(seq!["で"@]), base: None, pos: Some(seq!["助詞"@]), reading: None, conjugated_form: None },
                    TokenSpecView { surface: Some(seq!["は"@]), base: None, pos: Some(seq!["助詞"@]), reading: None, conjugated_form: None },
                    TokenSpecView { surface: None, base: Some(seq!["ない"@, "無い"@]), pos: Some(seq!["形容詞"@]), reading: None, conjugated_form: None },
                ],
            },
            PatternView {
                message: "二重否定: 〜ないことはない"@,
                specs: seq![
                    TokenSpecView { surface: None, base: Some(seq!["ない"@, "無い"@]), pos: None, reading: None, conjugated_form: None },
                    TokenSpecView { surface: None, base: None, pos: Some(seq!["名詞"@]), reading: Some(seq!["コト"@]), conjugated_form: None },
                    TokenSpecView { surface: Some(seq!["は"@]), base: None, pos: Some(seq!["助詞"@]), reading: None, conjugated_form: None },
                    TokenSpecView { surface: None, base: Some(seq!["ない"@, "無い"@]), pos: None, reading: None, conjugated_form: None },
                ],
            },
            PatternView {
                message: "二重否定: 〜ないこともない"@,
                specs: seq![
                    TokenSpecView { surface: None, base: Some(seq!["ない"@, "無い"@]), pos: None, reading: None, conjugated_form: None },
                    TokenSpecView { surface: None, base: None, pos: Some(seq!["名詞"@]), reading: Some(seq!["コト"@]), conjugated_form: None },
                    TokenSpecView { surface: Some(seq!["も"@]), base: None, pos: Some(seq!["助詞"@]), reading: None, conjugated_form: None },
                    TokenSpecView { surface: None, base: Some(seq!["ない"@, "無い"@]), pos: None, reading: None, conjugated_form: None },
                ],
            },
            PatternView {
                message: "二重否定: 〜ないわけではない"@,
                specs: seq![
                    TokenSpecView { surface: None, base: Some(seq!["ない"@, "無い"@]), pos: None, reading: None, conjugated_form: None },
                    TokenSpecView { surface: None, base: None, pos: Some(seq!["名詞"@]), reading: Some(seq!["ワケ"@]), conjugated_form: None },
                    TokenSpecView { surface: Some(seq!["で"@]), base: None, pos: Some(seq!["助詞"@]), reading: None, conjugated_form: None },
                    TokenSpecView { surface: Some(seq!["は"@]), base: None, pos: Some(seq!["助詞"@]), reading: None, conjugated_form: None },
                    TokenSpecView { surface: None, base: Some(seq!["ない"@, "無い"@]), pos: Some(seq!["形容詞"@]), reading: None, conjugated_form: None },
                ],
            },
            PatternView {
                message: "二重否定: 〜ないとはかぎらない"@,
                specs: seq![
                    TokenSpecView { surface: None, base: Some(seq!["ない"@, "無い"@]), pos: None, reading: None, conjugated_form: None },
                    TokenSpecView { surface: Some(seq!["と"@]), base: None, pos: Some(seq!["助詞"@]), reading: None, conjugated_form: None },
                    TokenSpecView { surface: Some(seq!["は"@]), base: None, pos: Some(seq!["助詞"@]), reading: None, conjugated_form: None },
                    TokenSpecView { surface: None, base: None, pos: None, reading: Some(seq!["カギラ"@]), conjugated_form: None },
                    TokenSpecView { surface: None, base: Some(seq!["ない"@, "無い"@]), pos: None, reading: None, conjugated_form: None },
                ],
            },
    ]
}

/// The double negatives the rule knows (see `negation_patterns`).
pub fn patterns() -> (r: Vec<NegPattern>)
    ensures
        r@.map_values(|p: NegPattern| p@) == negation_patterns(),
{
    let r = vec![
        NegPattern {
            message: "二重否定: 〜なくもない",
            specs: vec![
                TokenSpec { surface: None, base: Some(vec!["ない", "無い"]), pos: None, reading: None, conjugated_form: None },
                TokenSpec { surface: Some(vec!["も"]), base: None, pos: Some(vec!["助詞"]), reading: None, conjugated_form: None },
                TokenSpec { surface: None, base: Some(vec!["ない", "無い"]), pos: Some(vec!["形容詞"]), reading: None, conjugated_form: None },
            ],
        },
        NegPattern {
            message: "二重否定: 〜なくはない",
            specs: vec![
                TokenSpec { surface: None, base: Some(vec!["ない", "無い"]), pos: None, reading: None, conjugated_form: None },
                TokenSpec { surface: Some(vec!["は"]), base: None, pos: Some(vec!["助詞"]), reading: None, conjugated_form: None },
                TokenSpec { surface: None, base: Some(vec!["ない", "無い"]), pos: Some(vec!["形容詞"]), reading: None, conjugated_form: None },
            ],
        },
        NegPattern {
            message: "二重否定: 〜ないでもない",
            specs: vec![
                TokenSpec { surface: None, base: Some(vec!["ない", "無い"]), pos: None, reading: None, conjugated_form: None },
                TokenSpec { surface: Some(vec!["で"]), base: None, pos: None, reading: None, conjugated_form: Some(vec!["連用形"]) },
                TokenSpec { surface: Some(vec!["も"]), base: None, pos: Some(vec!["助詞"]), reading: None, conjugated_form: None },
                TokenSpec { surface: None, base: Some(vec!["ない", "無い"]), pos: Some(vec!["形容詞"]), reading: None, conjugated_form: None },
            ],
        },
        NegPattern {
            message: "二重否定: 〜ないではない",
            specs: vec![
                TokenSpec { surface: None, base: Some(vec!["ない", "無い"]), pos: None, reading: None, conjugated_form: None },
                TokenSpec { surface: Some(vec!["で"]), base: None, pos: Some(vec!["助詞"]), reading: None, conjugated_form: None },
                TokenSpec { surface: Some(vec!["は"]), base: None, pos: Some(vec!["助詞"]), reading: None, conjugated_form: None },
                TokenSpec { surface: None, base: Some(vec!["ない", "無い"]), pos: Some(vec!["形容詞"]), reading: None, conjugated_form: None },
            ],
        },
        NegPattern {
            message: "二重否定: 〜ないことはない",
            specs: vec![
                TokenSpec { surface: None, base: Some(vec!["ない", "無い"]), pos: None, reading: None, conjugated_form: None },
                TokenSpec { surface: None, base: None, pos: Some(vec!["名詞"]), reading: Some(vec!["コト"]), conjugated_form: None },
                TokenSpec { surface: Some(vec!["は"]), base: None, pos: Some(vec!["助詞"]), reading: None, conjugated_form: None },
                TokenSpec { surface: None, base: Some(vec!["ない", "無い"]), pos: None, reading: None, conjugated_form: None },
            ],
        },
        NegPattern {
            message: "二重否定: 〜ないこともない",
            specs: vec![
                TokenSpec { surface: None, base: Some(vec!["ない", "無い"]), pos: None, reading: None, conjugated_form: None },
                TokenSpec { surface: None, base: None, pos: Some(vec!["名詞"]), reading: Some(vec!["コト"]), conjugated_form: None },
                TokenSpec { surface: Some(vec!["も"]), base: None, pos: Some(vec!["助詞"]), reading: None, conjugated_form: None },
                TokenSpec { surface: None, base: Some(vec!["ない", "無い"]), pos: None, reading: None, conjugated_form: None },
            ],
        },
        NegPattern {
            message: "二重否定: 〜ないわけではない",
            specs: vec![
                TokenSpec { surface: None, base: Some(vec!["ない", "無い"]), pos: None, reading: None, conjugated_form: None },
                TokenSpec { surface: None, base: None, pos: Some(vec!["名詞"]), reading: Some(vec!["ワケ"]), conjugated_form: None },
                TokenSpec { surface: Some(vec!["で"]), base: None, pos: Some(vec!["助詞"]), reading: None, conjugated_form: None },
                TokenSpec { surface: Some(vec!["は"]), base: None, pos: Some(vec!["助詞"]), reading: None, conjugated_form: None },
                TokenSpec { surface: None, base: Some(vec!["ない", "無い"]), pos: Some(vec!["形容詞"]), reading: None, conjugated_form: None },
            ],
        },
        NegPattern {
            message: "二重否定: 〜ないとはかぎらない",
            specs: vec![
                TokenSpec { surface: None, base: Some(vec!["ない", "無い"]), pos: None, reading: None, conjugated_form: None },
                TokenSpec { surface: Some(vec!["と"]), base: None, pos: Some(vec!["助詞"]), reading: None, conjugated_form: None },
                TokenSpec { surface: Some(vec!["は"]), base: None, pos: Some(vec!["助詞"]), reading: None, conjugated_form: None },
                TokenSpec { surface: None, base: None, pos: None, reading: Some(vec!["カギラ"]), conjugated_form: None },
                TokenSpec { surface: None, base: Some(vec!["ない", "無い"]), pos: None, reading: None, conjugated_form: None },
            ],
        },
    ];
    assert(r@.len() == negation_patterns().len());
    assert(r@.map_values(|p: NegPattern| p@) =~~= negation_patterns());
    r
}

/// The token's value passes a field condition.
pub open spec fn field_ok(allowed: Option<Seq<Seq<char>>>, v: Seq<char>) -> bool {
    match allowed {
        None => true,
        Some(a) => a.contains(v),
    }
}

pub open spec fn matches_view(t: Token, s: TokenSpecView) -> bool {
    field_ok(s.surface, t.surface@) && field_ok(s.base, t.base_form@) && field_ok(s.pos, t.pos@) && field_ok(
        s.reading,
        t.reading@,
    ) && field_ok(s.conjugated_form, t.conjugated_form@)
}

fn field_ok_exec(allowed: Option<&Vec<&'static str>>, v: &str) -> (r: bool)
    ensures
        r == field_ok(
            match allowed {
                None => None,
                Some(a) => Some(strs_view(a@)),
            },
            v@,
        ),
{
    match allowed {
        None => true,
        Some(a) => {
            let ghost av = strs_view(a@);
            let mut k: usize = 0;
            while k < a.len()
                invariant
                    k <= a@.len(),
                    allowed == Some(a),
                    av == strs_view(a@),
                    forall|j: int| 0 <= j < k ==> av[j] != v@,
                decreases a@.len() - k,
            {
                if text::str_eq(a[k], v) {
                    assert(av[k as int] == v@);
                    assert(av.contains(v@));
                    return true;
                }
                k += 1;
            }
            false
        },
    }
}

/// Whether token `t` meets the conditions of `s`.
pub fn matches_spec(t: &Token, s: &TokenSpec) -> (r: bool)
    ensures
        r == matches_view(*t, s@),
{
    field_ok_exec(s.surface.as_ref(), t.surface.as_str()) && field_ok_exec(s.base.as_ref(), t.base_form.as_str())
        && field_ok_exec(s.pos.as_ref(), t.pos.as_str()) && field_ok_exec(s.reading.as_ref(), t.reading.as_str())
        && field_ok_exec(s.conjugated_form.as_ref(), t.conjugated_form.as_str())
}

/// After the first `n` tokens: how many conditions of `specs` are met in a
/// row, where the run started, and the starts of the complete runs so far.
pub open spec fn scan(toks: Seq<Token>, specs: Seq<TokenSpecView>, n: int) -> (nat, usize, Seq<usize>)
    decreases n,
{
    if n <= 0 {
        (0, 0, seq![])
    } else {
        let prev = scan(toks, specs, n - 1);
        let t = toks[n - 1];
        if prev.0 < specs.len() && matches_view(t, specs[prev.0 as int]) {
            let anchor = if prev.0 == 0 {
                t.byte_start
            } else {
                prev.1
            };
            if prev.0 + 1 == specs.len() {
                (0, anchor, prev.2.push(anchor))
            } else {
                ((prev.0 + 1) as nat, anchor, prev.2)
            }
        } else {
            (0, prev.1, prev.2)
        }
    }
}

pub open spec fn anchor_issue(doc: DocumentView, u: Unit, message: Seq<char>, at: usize) -> Seq<IssueView> {
    if morph::unit_at(doc, u, at as int) {
        let seg = doc.segments[u.seg as int];
        seq![rule::issue_spec(rule_id(), message, document::seg_pos(doc, seg, u.start + at), Severity::Error)]
    } else {
        seq![]
    }
}

pub open spec fn pattern_issues(doc: DocumentView, u: Unit, toks: Seq<Token>, p: PatternView) -> Seq<IssueView> {
    let hits = scan(toks, p.specs, toks.len() as int).2;
    rules::per_index(hits.len(), |j: int| anchor_issue(doc, u, p.message, hits[j]))
}

pub open spec fn unit_issues(doc: DocumentView, u: Unit, toks: Seq<Token>) -> Seq<IssueView> {
    let pats = negation_patterns();
    rules::per_index(pats.len(), |p: int| pattern_issues(doc, u, toks, pats[p]))
}

/// Appends the issues of pattern `p` in unit `u`.
fn pattern_check(doc: &Document, u: Unit, toks: &Vec<Token>, p: &NegPattern, out: &mut Vec<Issue>)
    requires
        doc.wf(),
        morph::unit_in(doc@, u),
        rule::fixes_fit(doc@.source, rule::issues_view(old(out)@)),
    ensures
        rule::issues_view(final(out)@) == rule::issues_view(old(out)@) + pattern_issues(doc@, u, toks@, p@),
        rule::fixes_fit(doc@.source, rule::issues_view(final(out)@)),
{
    let ghost specs = p@.specs;
    let mut hits: Vec<usize> = Vec::new();
    let mut state: usize = 0;
    let mut anchor: usize = 0;
    let mut k: usize = 0;
    while k < toks.len()
        invariant
            k <= toks@.len(),
            specs == p@.specs,
            specs.len() == p.specs@.len(),
            forall|j: int| 0 <= j < p.specs@.len() ==> #[trigger] specs[j] == p.specs@[j]@,
            scan(toks@, specs, k as int) == (state as nat, anchor, hits@),
            state < specs.len() || state == 0,
        decreases toks@.len() - k,
    {
        let t = &toks[k];
        if state < p.specs.len() && matches_spec(t, &p.specs[state]) {
            if state == 0 {
                anchor = t.byte_start;
            }
            state += 1;
            if state == p.specs.len() {
                hits.push(anchor);
                state = 0;
            }
        } else {
            state = 0;
        }
        k += 1;
    }
    let ghost f = |j: int| anchor_issue(doc@, u, p@.message, hits@[j]);
    let mut j: usize = 0;
    assert(rule::issues_view(out@) =~= rule::issues_view(old(out)@) + rules::per_index(0, f));
    while j < hits.len()
        invariant
            doc.wf(),
            morph::unit_in(doc@, u),
            hits@ == scan(toks@, p@.specs, toks@.len() as int).2,
            f == (|q: int| anchor_issue(doc@, u, p@.message, hits@[q])),
            j <= hits@.len(),
            rule::issues_view(out@) == rule::issues_view(old(out)@) + rules::per_index(j as nat, f),
            rule::fixes_fit(doc@.source, rule::issues_view(out@)),
        decreases hits@.len() - j,
    {
        let mut pushed = false;
        match morph::unit_offset(doc, u, hits[j]) {
            Some(b) => {
                proof {
                    doc.lemma_wf();
                    rules::lemma_seg_byte(doc@, u.seg as int, b as int);
                }
                let seg = doc.segment(u.seg);
                let (line, column) = doc.pos_at(seg, b);
                let issue = Issue::new("no-double-negative-ja", p.message, line, column, Severity::Error);
                let ghost prev = out@;
                out.push(issue);
                assert(rule::issues_view(out@) =~= rule::issues_view(prev).push(issue@));
                assert(seq![issue@] =~= f(j as int));
                pushed = true;
            },
            None => {},
        }
        if !pushed {
            assert(f(j as int) =~= Seq::<IssueView>::empty());
        }
        assert(rule::issues_view(out@) =~= rule::issues_view(old(out)@) + rules::per_index(j as nat + 1, f));
        j += 1;
    }
}

/// The rule, with the analyser that cuts segments into tokens.
pub struct NoDoubleNegativeJa<T> {
    pub tokenizer: T,
}

impl<T> UnitRule for NoDoubleNegativeJa<T> {
    open spec fn unit_spec(&self, doc: DocumentView, u: Unit, toks: Seq<Token>) -> Seq<IssueView> {
        unit_issues(doc, u, toks)
    }

    fn check_unit(&self, doc: &Document, u: Unit, toks: &Vec<Token>, out: &mut Vec<Issue>) {
        let pats = patterns();
        let ghost pv = negation_patterns();
        let ghost g = |p: int| pattern_issues(doc@, u, toks@, pv[p]);
        let mut k: usize = 0;
        assert(pats@.len() == pv.len()) by {
            assert(pats@.map_values(|p: NegPattern| p@).len() == pv.len());
        }
        assert(rule::issues_view(out@) =~= rule::issues_view(old(out)@) + rules::per_index(0, g));
        while k < pats.len()
            invariant
                doc.wf(),
                morph::unit_in(doc@, u),
                pv == negation_patterns(),
                pats@.map_values(|p: NegPattern| p@) == pv,
                pats@.len() == pv.len(),
                g == (|p: int| pattern_issues(doc@, u, toks@, pv[p])),
                k <= pats@.len(),
                rule::issues_view(out@) == rule::issues_view(old(out)@) + rules::per_index(k as nat, g),
                rule::fixes_fit(doc@.source, rule::issues_view(out@)),
            decreases pats@.len() - k,
        {
            assert(pats@[k as int]@ == pv[k as int]) by {
                assert(pats@.map_values(|p: NegPattern| p@)[k as int] == pats@[k as int]@);
            }
            pattern_check(doc, u, toks, &pats[k], out);
            assert(rule::issues_view(out@) =~= rule::issues_view(old(out)@) + rules::per_index(k as nat + 1, g));
            k += 1;
        }
    }
}

impl<T: Tokenizer> Rule for NoDoubleNegativeJa<T> {
    open spec fn spec_id(&self) -> Seq<char> {
        rule_id()
    }

    open spec fn accepts(&self, doc: DocumentView, issues: Seq<IssueView>) -> bool {
        exists|toks: Seq<Vec<Token>>|
            morph::analysed(&self.tokenizer, doc, morph::segment_units(doc), toks) && issues == #[trigger] morph::units_issues(
                self,
                doc,
                morph::segment_units(doc),
                toks,
            )
    }

    fn id(&self) -> (r: &str) {
        "no-double-negative-ja"
    }

    fn check(&self, doc: &Document) -> (issues: Vec<Issue>) {
        let us = morph::segment_units_exec(doc);
        let toks = morph::tokenize_units(&self.tokenizer, doc, &us);
        morph::check_units(self, doc, &us, &toks)
    }
}

} // verus!

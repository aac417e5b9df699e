//! preset-ja-technical-writing/no-doubled-conjunction
//!
//! Reports a sentence of a paragraph that opens with the same conjunction as
//! the sentence before it in that paragraph.

use vstd::prelude::*;
use crate::document::{self, Document, DocumentView};
use crate::morph::{self, Token, Tokenizer, Unit};
use crate::rule::{self, Issue, IssueView, Rule, Severity};
use crate::rules as rules;
use crate::text;

verus! {

pub open spec fn rule_id() -> Seq<char> {
    "no-doubled-conjunction"@
}

pub open spec fn message(surface: Seq<char>) -> Seq<char> {
    "同じ接続詞（"@ + surface + "）が連続して使われています。"@
}

/// Token `i` is a conjunction not preceded by white space.
pub open spec fn counts_as_conj(toks: Seq<Token>, i: int) -> bool {
    toks[i].pos@ == "接続詞"@ && !(i >= 1 && toks[i - 1].pos_detail_1@ == "空白"@)
}

/// The index of the first counted conjunction at or after `i`, or the length.
pub open spec fn first_conj(toks: Seq<Token>, i: int) -> int
    decreases toks.len() - i,
{
    if i < 0 || i >= toks.len() {
        toks.len() as int
    } else if counts_as_conj(toks, i) {
        i
    } else {
        first_conj(toks, i + 1)
    }
}

/// The conjunction carried from the sentences before, and the issues, after
/// the first `n` units. The carried conjunction is dropped at a new paragraph.
pub open spec fn conj_fold(doc: DocumentView, us: Seq<Unit>, toks: Seq<Vec<Token>>, n: int) -> (Option<Seq<char>>, Seq<IssueView>)
    decreases n,
{
    if n <= 0 {
        (None, seq![])
    } else {
        let prev = conj_fold(doc, us, toks, n - 1);
        let u = us[n - 1];
        let carried = if n >= 2 && us[n - 2].seg == u.seg {
            prev.0
        } else {
            None
        };
        let ts = toks[n - 1]@;
        let c = first_conj(ts, 0);
        if c < ts.len() {
            let conj = ts[c];
            let issue = if carried == Some(conj.surface@) && morph::unit_at(doc, u, conj.byte_start as int) {
                seq![
                    rule::issue_spec(
                        rule_id(),
                        message(conj.surface@),
                        document::seg_pos(doc, doc.segments[u.seg as int], u.start + conj.byte_start),
                        Severity::Error,
                    ),
                ]
            } else {
                seq![]
            };
            (Some(conj.surface@), prev.1 + issue)
        } else {
            (carried, prev.1)
        }
    }
}

fn first_conj_exec(toks: &Vec<Token>) -> (r: usize)
    ensures
        r == first_conj(toks@, 0),
        r <= toks@.len(),
{
    let mut i: usize = 0;
    while i < toks.len()
        invariant
            i <= toks@.len(),
            first_conj(toks@, 0) == first_conj(toks@, i as int),
        decreases toks@.len() - i,
    {
        if text::str_eq(toks[i].pos.as_str(), "接続詞") && !(i >= 1 && text::str_eq(
            toks[i - 1].pos_detail_1.as_str(),
            "空白",
        )) {
            return i;
        }
        i += 1;
    }
    i
}

/// The rule, with the analyser that cuts sentences into tokens.
pub struct NoDoubledConjunction<T> {
    pub tokenizer: T,
}

/// The issues for the units `us`, cut into `toks`.
pub fn check_tokens(doc: &Document, us: &Vec<Unit>, toks: &Vec<Vec<Token>>) -> (out: Vec<Issue>)
    requires
        doc.wf(),
        toks@.len() == us@.len(),
        forall|k: int| 0 <= k < us@.len() ==> morph::unit_in(doc@, #[trigger] us@[k]),
    ensures
        rule::issues_view(out@) == conj_fold(doc@, us@, toks@, us@.len() as int).1,
        rule::fixes_fit(doc@.source, rule::issues_view(out@)),
{
    let mut out: Vec<Issue> = Vec::new();
    let mut prev: Option<String> = None;
    let mut k: usize = 0;
    while k < us.len()
        invariant
            doc.wf(),
            toks@.len() == us@.len(),
            forall|j: int| 0 <= j < us@.len() ==> morph::unit_in(doc@, #[trigger] us@[j]),
            k <= us@.len(),
            rule::issues_view(out@) == conj_fold(doc@, us@, toks@, k as int).1,
            (match prev {
                None => None,
                Some(s) => Some(s@),
            }) == conj_fold(doc@, us@, toks@, k as int).0,
            rule::fixes_fit(doc@.source, rule::issues_view(out@)),
        decreases us@.len() - k,
    {
        let u = us[k];
        if k >= 1 && us[k - 1].seg != u.seg {
            prev = None;
        }
        if k == 0 {
            prev = None;
        }
        let ts = &toks[k];
        let c = first_conj_exec(ts);
        let ghost before = rule::issues_view(out@);
        if c < ts.len() {
            let conj = &ts[c];
            let same = match &prev {
                Some(p) => text::str_eq(p.as_str(), conj.surface.as_str()),
                None => false,
            };
            let mut pushed = false;
            if same {
                match morph::unit_offset(doc, u, conj.byte_start) {
                    Some(b) => {
                        proof {
                            doc.lemma_wf();
                            rules::lemma_seg_byte(doc@, u.seg as int, b as int);
                        }
                        let seg = doc.segment(u.seg);
                        let (line, column) = doc.pos_at(seg, b);
                        let mut msg = String::new();
                        text::push_str(&mut msg, "同じ接続詞（");
                        text::push_str(&mut msg, conj.surface.as_str());
                        text::push_str(&mut msg, "）が連続して使われています。");
                        assert(msg@ =~= message(conj.surface@));
                        let issue = Issue::new("no-doubled-conjunction", msg.as_str(), line, column, Severity::Error);
                        let ghost p0 = out@;
                        out.push(issue);
                        assert(rule::issues_view(out@) =~= rule::issues_view(p0).push(issue@));
                        pushed = true;
                        assert(rule::issues_view(out@) =~= conj_fold(doc@, us@, toks@, k + 1).1);
                    },
                    None => {},
                }
            }
            if !pushed {
                assert(rule::issues_view(out@) =~= conj_fold(doc@, us@, toks@, k + 1).1);
            }
            prev = Some(conj.surface.as_str().to_owned());
        } else {
            assert(rule::issues_view(out@) =~= conj_fold(doc@, us@, toks@, k + 1).1);
        }
        k += 1;
    }
    out
}

impl<T: Tokenizer> Rule for NoDoubledConjunction<T> {
    open spec fn spec_id(&self) -> Seq<char> {
        rule_id()
    }

    open spec fn accepts(&self, doc: DocumentView, issues: Seq<IssueView>) -> bool {
        exists|toks: Seq<Vec<Token>>|
            morph::analysed(&self.tokenizer, doc, morph::sentence_units(doc), toks) && issues == (#[trigger] conj_fold(
                doc,
                morph::sentence_units(doc),
                toks,
                morph::sentence_units(doc).len() as int,
            )).1
    }

    fn id(&self) -> (r: &str) {
        "no-doubled-conjunction"
    }

    fn check(&self, doc: &Document) -> (issues: Vec<Issue>) {
        let us = morph::sentence_units_exec(doc);
        let toks = morph::tokenize_units(&self.tokenizer, doc, &us);
        check_tokens(doc, &us, &toks)
    }
}

} // verus!

//! preset-ja-technical-writing/no-doubled-conjunctive-particle-ga
//!
//! Reports a sentence of a paragraph with two or more conjunctive particles
//! `が`, at the second one.

use vstd::prelude::*;
use crate::document::{self, Document, DocumentView};
use crate::morph::{self, Token, Tokenizer, Unit, UnitRule};
use crate::rule::{self, Issue, IssueView, Rule, Severity};
use crate::rules as rules;
use crate::text;

verus! {

pub open spec fn rule_id() -> Seq<char> {
    "no-doubled-conjunctive-particle-ga"@
}

pub open spec fn message() -> Seq<char> {
    "一文に二回以上利用されている接続助詞 \"が\" がみつかりました。"@
}

/// A conjunctive particle `が`.
pub open spec fn is_ga(t: Token) -> bool {
    t.pos@ == "助詞"@ && t.pos_detail_1@ == "接続助詞"@ && t.surface@ == "が"@
}

/// The `が` tokens among the first `n` tokens, in order.
pub open spec fn ga_hits(toks: Seq<Token>, n: int) -> Seq<Token>
    decreases n,
{
    if n <= 0 {
        seq![]
    } else if is_ga(toks[n - 1]) {
        ga_hits(toks, n - 1).push(toks[n - 1])
    } else {
        ga_hits(toks, n - 1)
    }
}

pub open spec fn unit_issues(doc: DocumentView, u: Unit, toks: Seq<Token>) -> Seq<IssueView> {
    let hits = ga_hits(toks, toks.len() as int);
    if hits.len() >= 2 && morph::unit_at(doc, u, hits[1].byte_start as int) {
        let seg = doc.segments[u.seg as int];
        seq![
            rule::issue_spec(
                rule_id(),
                message(),
                document::seg_pos(doc, seg, u.start + hits[1].byte_start),
                Severity::Error,
            ),
        ]
    } else {
        seq![]
    }
}

/// The rule, with the analyser that cuts sentences into tokens.
pub struct NoDoubledConjunctiveParticleGa<T> {
    pub tokenizer: T,
}

impl<T> UnitRule for NoDoubledConjunctiveParticleGa<T> {
    open spec fn unit_spec(&self, doc: DocumentView, u: Unit, toks: Seq<Token>) -> Seq<IssueView> {
        unit_issues(doc, u, toks)
    }

    fn check_unit(&self, doc: &Document, u: Unit, toks: &Vec<Token>, out: &mut Vec<Issue>) {
        let mut count: usize = 0;
        let mut second: usize = 0;
        let mut k: usize = 0;
        while k < toks.len()
            invariant
                k <= toks@.len(),
                count == ga_hits(toks@, k as int).len(),
                count >= 2 ==> second == ga_hits(toks@, k as int)[1].byte_start,
                count <= k,
            decreases toks@.len() - k,
        {
            let t = &toks[k];
            if text::str_eq(t.pos.as_str(), "助詞") && text::str_eq(t.pos_detail_1.as_str(), "接続助詞")
                && text::str_eq(t.surface.as_str(), "が") {
                if count == 1 {
                    second = t.byte_start;
                }
                count += 1;
            }
            k += 1;
        }
        if count >= 2 {
            match morph::unit_offset(doc, u, second) {
                Some(b) => {
                    proof {
                        doc.lemma_wf();
                        rules::lemma_seg_byte(doc@, u.seg as int, b as int);
                    }
                    let seg = doc.segment(u.seg);
                    let (line, column) = doc.pos_at(seg, b);
                    let issue = Issue::new(
                        "no-doubled-conjunctive-particle-ga",
                        "一文に二回以上利用されている接続助詞 \"が\" がみつかりました。",
                        line,
                        column,
                        Severity::Error,
                    );
                    let ghost prev = out@;
                    out.push(issue);
                    assert(rule::issues_view(out@) =~= rule::issues_view(prev).push(issue@));
                    assert(rule::issues_view(out@) =~= rule::issues_view(old(out)@) + unit_issues(doc@, u, toks@));
                    return;
                },
                None => {},
            }
        }
        assert(rule::issues_view(out@) =~= rule::issues_view(old(out)@) + unit_issues(doc@, u, toks@));
    }
}

impl<T: Tokenizer> Rule for NoDoubledConjunctiveParticleGa<T> {
    open spec fn spec_id(&self) -> Seq<char> {
        rule_id()
    }

    open spec fn accepts(&self, doc: DocumentView, issues: Seq<IssueView>) -> bool {
        exists|toks: Seq<Vec<Token>>|
            morph::analysed(&self.tokenizer, doc, morph::sentence_units(doc), toks) && issues == #[trigger] morph::units_issues(
                self,
                doc,
                morph::sentence_units(doc),
                toks,
            )
    }

    fn id(&self) -> (r: &str) {
        "no-doubled-conjunctive-particle-ga"
    }

    fn check(&self, doc: &Document) -> (issues: Vec<Issue>) {
        let us = morph::sentence_units_exec(doc);
        let toks = morph::tokenize_units(&self.tokenizer, doc, &us);
        morph::check_units(self, doc, &us, &toks)
    }
}

} // verus!

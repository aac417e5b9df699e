//! preset-ja-technical-writing/max-ten
//!
//! Reports each sentence of a paragraph with more readings commas (`、`
//! tokens that are symbols) than allowed, at its last one.

use vstd::prelude::*;
use crate::document::{self, Document, DocumentView};
use crate::morph::{self, Token, Tokenizer, Unit, UnitRule};
use crate::rule::{self, Issue, IssueView, Rule, Severity};
use crate::rules as rules;
use crate::text;

verus! {

pub open spec fn rule_id() -> Seq<char> {
    "max-ten"@
}

pub open spec fn message(max: usize) -> Seq<char> {
    "This sentence exceeds the maximum count of ten. Maximum is "@ + text::decimal(max as nat) + "."@
}

/// A reading comma token.
pub open spec fn is_touten(t: Token) -> bool {
    t.surface@ == "、"@ && t.pos@ == "記号"@
}

/// How many of the first `n` tokens are reading commas.
pub open spec fn touten_count(toks: Seq<Token>, n: int) -> nat
    decreases n,
{
    if n <= 0 {
        0
    } else {
        touten_count(toks, n - 1) + (if is_touten(toks[n - 1]) {
            1nat
        } else {
            0nat
        })
    }
}

/// The byte start of the last reading comma among the first `n` tokens.
pub open spec fn last_touten(toks: Seq<Token>, n: int) -> usize
    decreases n,
{
    if n <= 0 {
        0
    } else if is_touten(toks[n - 1]) {
        toks[n - 1].byte_start
    } else {
        last_touten(toks, n - 1)
    }
}

pub open spec fn unit_issues(doc: DocumentView, max: usize, u: Unit, toks: Seq<Token>) -> Seq<IssueView> {
    let last = last_touten(toks, toks.len() as int);
    if touten_count(toks, toks.len() as int) > max && morph::unit_at(doc, u, last as int) {
        let seg = doc.segments[u.seg as int];
        seq![rule::issue_spec(rule_id(), message(max), document::seg_pos(doc, seg, u.start + last), Severity::Error)]
    } else {
        seq![]
    }
}

/// The rule, with the analyser that cuts sentences into tokens.
pub struct MaxTen<T> {
    pub max: usize,
    pub tokenizer: T,
}

impl<T> MaxTen<T> {
    pub fn new(tokenizer: T) -> (r: Self)
        ensures
            r.max == 3,
    {
        MaxTen { max: 3, tokenizer }
    }
}

impl<T> UnitRule for MaxTen<T> {
    open spec fn unit_spec(&self, doc: DocumentView, u: Unit, toks: Seq<Token>) -> Seq<IssueView> {
        unit_issues(doc, self.max, u, toks)
    }

    fn check_unit(&self, doc: &Document, u: Unit, toks: &Vec<Token>, out: &mut Vec<Issue>) {
        let mut count: usize = 0;
        let mut last: usize = 0;
        let mut k: usize = 0;
        while k < toks.len()
            invariant
                k <= toks@.len(),
                count == touten_count(toks@, k as int),
                count <= k,
                last == last_touten(toks@, k as int),
            decreases toks@.len() - k,
        {
            let t = &toks[k];
            if text::str_eq(t.surface.as_str(), "、") && text::str_eq(t.pos.as_str(), "記号") {
                count += 1;
                last = t.byte_start;
            }
            k += 1;
        }
        if count > self.max {
            match morph::unit_offset(doc, u, last) {
                Some(b) => {
                    proof {
                        doc.lemma_wf();
                        rules::lemma_seg_byte(doc@, u.seg as int, b as int);
                    }
                    let seg = doc.segment(u.seg);
                    let (line, column) = doc.pos_at(seg, b);
                    let mut msg = String::new();
                    text::push_str(&mut msg, "This sentence exceeds the maximum count of ten. Maximum is ");
                    text::push_decimal(&mut msg, self.max);
                    text::push_str(&mut msg, ".");
                    let issue = Issue::new("max-ten", msg.as_str(), line, column, Severity::Error);
                    let ghost prev = out@;
                    out.push(issue);
                    assert(rule::issues_view(out@) =~= rule::issues_view(prev).push(issue@));
                    assert(rule::issues_view(out@) =~= rule::issues_view(old(out)@) + unit_issues(doc@, self.max, u, toks@));
                    return;
                },
                None => {},
            }
        }
        assert(rule::issues_view(out@) =~= rule::issues_view(old(out)@) + unit_issues(doc@, self.max, u, toks@));
    }
}

impl<T: Tokenizer> Rule for MaxTen<T> {
    open spec fn spec_id(&self) -> Seq<char> {
        rule_id()
    }

    open spec fn accepts(&self, doc: DocumentView, issues: Seq<IssueView>) -> bool {
        exists|toks: Seq<Vec<Token>>|
            morph::analysed(&self.tokenizer, doc, morph::sentence_units(doc), toks) && issues == #[trigger] morph::units_issues(
                self,
                doc,
                morph::sentence_units(doc),
                toks,
            )
    }

    fn id(&self) -> (r: &str) {
        "max-ten"
    }

    fn check(&self, doc: &Document) -> (issues: Vec<Issue>) {
        let us = morph::sentence_units_exec(doc);
        let toks = morph::tokenize_units(&self.tokenizer, doc, &us);
        morph::check_units(self, doc, &us, &toks)
    }
}

} // verus!

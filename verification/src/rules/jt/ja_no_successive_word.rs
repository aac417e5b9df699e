//! preset-ja-technical-writing/ja-no-successive-word
//!
//! Reports the same word twice in a row (but for particles, auxiliaries,
//! symbols and the like, and one-char words).

use vstd::prelude::*;
use crate::document::{self, Document, DocumentView};
use crate::morph::{self, Token, Tokenizer, Unit, UnitRule};
use crate::rule::{self, Issue, IssueView, Rule, Severity};
use crate::rules as rules;
use crate::text;

verus! {

pub open spec fn rule_id() -> Seq<char> {
    "ja-no-successive-word"@
}

pub open spec fn message(surface: Seq<char>) -> Seq<char> {
    "\""@ + surface + "\" が連続して2回使われています。"@
}

/// Parts of speech that may repeat.
pub open spec fn skippable(pos: Seq<char>) -> bool {
    pos == "助詞"@ || pos == "助動詞"@ || pos == "記号"@ || pos == "接頭詞"@ || pos == "フィラー"@ || pos == "その他"@
}

pub fn skippable_pos(pos: &str) -> (r: bool)
    ensures
        r == skippable(pos@),
{
    text::str_eq(pos, "助詞") || text::str_eq(pos, "助動詞") || text::str_eq(pos, "記号") || text::str_eq(pos, "接頭詞")
        || text::str_eq(pos, "フィラー") || text::str_eq(pos, "その他")
}

/// The issue for tokens `k` and `k + 1`.
pub open spec fn pair_issue(doc: DocumentView, u: Unit, toks: Seq<Token>, k: int) -> Seq<IssueView> {
    let a = toks[k];
    let b = toks[k + 1];
    if a.surface@ == b.surface@ && !skippable(a.pos@) && !skippable(b.pos@) && a.surface@.len() != 1
        && morph::unit_at(doc, u, b.byte_start as int) {
        let seg = doc.segments[u.seg as int];
        seq![
            rule::issue_spec(
                rule_id(),
                message(a.surface@),
                document::seg_pos(doc, seg, u.start + b.byte_start),
                Severity::Error,
            ),
        ]
    } else {
        seq![]
    }
}

pub open spec fn unit_issues(doc: DocumentView, u: Unit, toks: Seq<Token>) -> Seq<IssueView> {
    if toks.len() >= 2 {
        rules::per_index((toks.len() - 1) as nat, |k: int| pair_issue(doc, u, toks, k))
    } else {
        seq![]
    }
}

/// The rule, with the analyser that cuts segments into tokens.
pub struct JaNoSuccessiveWord<T> {
    pub tokenizer: T,
}

impl<T> UnitRule for JaNoSuccessiveWord<T> {
    open spec fn unit_spec(&self, doc: DocumentView, u: Unit, toks: Seq<Token>) -> Seq<IssueView> {
        unit_issues(doc, u, toks)
    }

    fn check_unit(&self, doc: &Document, u: Unit, toks: &Vec<Token>, out: &mut Vec<Issue>) {
        if toks.len() < 2 {
            assert(rule::issues_view(out@) =~= rule::issues_view(old(out)@) + unit_issues(doc@, u, toks@));
            return;
        }
        let n = toks.len() - 1;
        let ghost f = |k: int| pair_issue(doc@, u, toks@, k);
        let mut k: usize = 0;
        assert(rule::issues_view(out@) =~= rule::issues_view(old(out)@) + rules::per_index(0, f));
        while k < n
            invariant
                doc.wf(),
                morph::unit_in(doc@, u),
                n + 1 == toks@.len(),
                f == (|j: int| pair_issue(doc@, u, toks@, j)),
                k <= n,
                rule::issues_view(out@) == rule::issues_view(old(out)@) + rules::per_index(k as nat, f),
                rule::fixes_fit(doc@.source, rule::issues_view(out@)),
            decreases n - k,
        {
            let a = &toks[k];
            let b = &toks[k + 1];
            let mut pushed = false;
            if text::str_eq(a.surface.as_str(), b.surface.as_str()) && !skippable_pos(a.pos.as_str())
                && !skippable_pos(b.pos.as_str()) && text::chars_of(a.surface.as_str()).len() != 1 {
                match morph::unit_offset(doc, u, b.byte_start) {
                    Some(at) => {
                        proof {
                            doc.lemma_wf();
                            rules::lemma_seg_byte(doc@, u.seg as int, at as int);
                        }
                        let seg = doc.segment(u.seg);
                        let (line, column) = doc.pos_at(seg, at);
                        let mut msg = String::new();
                        text::push_str(&mut msg, "\"");
                        text::push_str(&mut msg, a.surface.as_str());
                        text::push_str(&mut msg, "\" が連続して2回使われています。");
                        assert(msg@ =~= message(a.surface@));
                        let issue = Issue::new("ja-no-successive-word", msg.as_str(), line, column, Severity::Error);
                        let ghost prev = out@;
                        out.push(issue);
                        assert(rule::issues_view(out@) =~= rule::issues_view(prev).push(issue@));
                        assert(seq![issue@] =~= f(k as int));
                        pushed = true;
                    },
                    None => {},
                }
            }
            if !pushed {
                assert(f(k as int) =~= Seq::<IssueView>::empty());
            }
            assert(rule::issues_view(out@) =~= rule::issues_view(old(out)@) + rules::per_index(k as nat + 1, f));
            k += 1;
        }
    }
}

impl<T: Tokenizer> Rule for JaNoSuccessiveWord<T> {
    open spec fn spec_id(&self) -> Seq<char> {
        rule_id()
    }

    open spec fn accepts(&self, doc: DocumentView, issues: Seq<IssueView>) -> bool {
        exists|toks: Seq<Vec<Token>>|
            morph::analysed(&self.tokenizer, doc, morph::segment_units(doc), toks) && issues == #[trigger] morph::units_issues(
                self,
                doc,
                morph::segment_units(doc),
                toks,
            )
    }

    fn id(&self) -> (r: &str) {
        "ja-no-successive-word"
    }

    fn check(&self, doc: &Document) -> (issues: Vec<Issue>) {
        let us = morph::segment_units_exec(doc);
        let toks = morph::tokenize_units(&self.tokenizer, doc, &us);
        morph::check_units(self, doc, &us, &toks)
    }
}

} // verus!

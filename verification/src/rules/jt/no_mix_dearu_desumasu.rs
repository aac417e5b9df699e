//! preset-ja-technical-writing/no-mix-dearu-desumasu
//!
//! Classifies each sentence of the paragraphs by its last word as polite
//! (ですます) or plain (である); where both occur, reports each sentence of
//! the minority style (the polite style wins a tie).

use vstd::prelude::*;
use crate::document::{self, Document, DocumentView};
use crate::morph::{self, Token, Tokenizer, Unit};
use crate::rule::{self, Issue, IssueView, Rule, Severity};
use crate::rules as rules;
use crate::text;

verus! {

pub open spec fn rule_id() -> Seq<char> {
    "no-mix-dearu-desumasu"@
}

#[derive(Debug, Clone, Copy, PartialEq, Eq, Structural)]
pub enum Style {
    Desumasu,
    Dearu,
}

pub open spec fn label(s: Style) -> Seq<char> {
    match s {
        Style::Desumasu => "ですます"@,
        Style::Dearu => "である"@,
    }
}

pub open spec fn message(s: Style) -> Seq<char> {
    "本文: \""@ + label(s) + "\"調 が混在しています。本文全体で統一してください。"@
}

/// The index of the last token among the first `n` that is not a symbol, or -1.
pub open spec fn last_word(toks: Seq<Token>, n: int) -> int
    decreases n,
{
    if n <= 0 {
        -1
    } else if toks[n - 1].pos@ != "記号"@ {
        n - 1
    } else {
        last_word(toks, n - 1)
    }
}

pub open spec fn ends_with(s: Seq<char>, suffix: Seq<char>) -> bool {
    suffix.len() <= s.len() && s.subrange(s.len() - suffix.len(), s.len() as int) == suffix
}

/// The style of a sentence, read from its last word.
pub open spec fn classify_spec(toks: Seq<Token>) -> Option<Style> {
    let i = last_word(toks, toks.len() as int);
    if i < 0 {
        None
    } else {
        let surface = toks[i].surface@;
        let base = toks[i].base_form@;
        if surface == "です"@ || surface == "ます"@ || base == "です"@ || base == "ます"@ {
            Some(Style::Desumasu)
        } else if surface == "だ"@ || base == "だ"@ || surface == "である"@ || base == "である"@ {
            Some(Style::Dearu)
        } else if toks[i].pos@ == "助動詞"@ && (ends_with(surface, "です"@) || ends_with(surface, "ます"@)) {
            Some(Style::Desumasu)
        } else if toks[i].pos@ == "助動詞"@ && (ends_with(surface, "だ"@) || ends_with(surface, "である"@)) {
            Some(Style::Dearu)
        } else {
            None
        }
    }
}

fn ends_with_exec(s: &str, suffix: &str) -> (r: bool)
    ensures
        r == ends_with(s@, suffix@),
{
    let a = text::chars_of(s);
    let b = text::chars_of(suffix);
    if b.len() > a.len() {
        return false;
    }
    let r = text::starts_with_at(&a, a.len() - b.len(), &b);
    proof {
        if r {
            assert(a@.subrange(a@.len() - b@.len(), a@.len() as int) == b@);
        }
    }
    r
}

/// The style of a sentence cut into `toks` (see `classify_spec`).
pub fn classify(toks: &Vec<Token>) -> (r: Option<Style>)
    ensures
        r == classify_spec(toks@),
{
    let mut n: usize = toks.len();
    while n > 0
        invariant
            n <= toks@.len(),
            last_word(toks@, toks@.len() as int) == last_word(toks@, n as int),
        ensures
            n <= toks@.len(),
            last_word(toks@, toks@.len() as int) == n - 1,
        decreases n,
    {
        if !text::str_eq(toks[n - 1].pos.as_str(), "記号") {
            break;
        }
        n -= 1;
    }
    if n == 0 {
        return None;
    }
    let last = &toks[n - 1];
    let surface = last.surface.as_str();
    let base = last.base_form.as_str();
    if text::str_eq(surface, "です") || text::str_eq(surface, "ます") || text::str_eq(base, "です") || text::str_eq(base, "ます") {
        return Some(Style::Desumasu);
    }
    if text::str_eq(surface, "だ") || text::str_eq(base, "だ") || text::str_eq(surface, "である") || text::str_eq(base, "である") {
        return Some(Style::Dearu);
    }
    if text::str_eq(last.pos.as_str(), "助動詞") {
        if ends_with_exec(surface, "です") || ends_with_exec(surface, "ます") {
            return Some(Style::Desumasu);
        }
        if ends_with_exec(surface, "だ") || ends_with_exec(surface, "である") {
            return Some(Style::Dearu);
        }
    }
    None
}

/// How many of the first `n` units are of style `s`.
pub open spec fn style_count(toks: Seq<Vec<Token>>, s: Style, n: int) -> nat
    decreases n,
{
    if n <= 0 {
        0
    } else {
        style_count(toks, s, n - 1) + (if classify_spec(toks[n - 1]@) == Some(s) {
            1nat
        } else {
            0nat
        })
    }
}

pub open spec fn unit_issue(doc: DocumentView, u: Unit, ts: Seq<Token>, majority: Style) -> Seq<IssueView> {
    match classify_spec(ts) {
        Some(s) => if s != majority {
            seq![
                rule::issue_spec(
                    rule_id(),
                    message(s),
                    document::seg_pos(doc, doc.segments[u.seg as int], u.start as int),
                    Severity::Error,
                ),
            ]
        } else {
            seq![]
        },
        None => seq![],
    }
}

/// The issues for the units `us`, cut into `toks`.
pub open spec fn doc_issues(doc: DocumentView, us: Seq<Unit>, toks: Seq<Vec<Token>>) -> Seq<IssueView> {
    let d = style_count(toks, Style::Desumasu, us.len() as int);
    let a = style_count(toks, Style::Dearu, us.len() as int);
    if d == 0 || a == 0 {
        seq![]
    } else {
        let majority = if d >= a {
            Style::Desumasu
        } else {
            Style::Dearu
        };
        rules::per_index(us.len(), |k: int| unit_issue(doc, us[k], toks[k]@, majority))
    }
}

/// The number of the token lists in `toks` whose sentence has style `s`.
pub open spec fn sentences_of(toks: Seq<Vec<Token>>, s: Style) -> nat {
    Seq::new(toks.len(), |k: int| classify_spec(toks[k]@)).filter(|x: Option<Style>| x == Some(s)).len()
}

proof fn lemma_style_count(toks: Seq<Vec<Token>>, s: Style, n: int)
    requires
        0 <= n <= toks.len(),
    ensures
        style_count(toks, s, n) == Seq::new(n as nat, |k: int| classify_spec(toks[k]@)).filter(
            |x: Option<Style>| x == Some(s),
        ).len(),
    decreases n,
{
    reveal(Seq::filter);
    let c = Seq::new(n as nat, |k: int| classify_spec(toks[k]@));
    if n > 0 {
        lemma_style_count(toks, s, n - 1);
        assert(c.drop_last() =~= Seq::new((n - 1) as nat, |k: int| classify_spec(toks[k]@)));
    } else {
        assert(c =~= Seq::<Option<Style>>::empty());
    }
}

/// Law: only sentences of the minority style are reported: a plain (である)
/// sentence when there are at least as many polite (ですます) ones, a polite
/// one when there are strictly more plain ones.
pub proof fn lemma_minority_reported(doc: DocumentView, us: Seq<Unit>, toks: Seq<Vec<Token>>)
    requires
        toks.len() == us.len(),
    ensures
        forall|i: int|
            0 <= i < doc_issues(doc, us, toks).len() ==> {
                let iv = #[trigger] doc_issues(doc, us, toks)[i];
                ||| iv.message == message(Style::Dearu) && 0 < sentences_of(toks, Style::Dearu) <= sentences_of(
                    toks,
                    Style::Desumasu,
                )
                ||| iv.message == message(Style::Desumasu) && 0 < sentences_of(toks, Style::Desumasu)
                    < sentences_of(toks, Style::Dearu)
            },
{
    let n = us.len() as int;
    lemma_style_count(toks, Style::Desumasu, n);
    lemma_style_count(toks, Style::Dearu, n);
    let d = style_count(toks, Style::Desumasu, n);
    let a = style_count(toks, Style::Dearu, n);
    assert(d == sentences_of(toks, Style::Desumasu));
    assert(a == sentences_of(toks, Style::Dearu));
    if d != 0 && a != 0 {
        let majority = if d >= a {
            Style::Desumasu
        } else {
            Style::Dearu
        };
        let f = |k: int| unit_issue(doc, us[k], toks[k]@, majority);
        let p = |iv: IssueView|
            (iv.message == message(Style::Dearu) && 0 < a <= d) || (iv.message == message(Style::Desumasu) && 0
                < d < a);
        assert forall|k: int, j: int| 0 <= k < n && 0 <= j < f(k).len() implies #[trigger] p(f(k)[j]) by {
            match classify_spec(toks[k]@) {
                Some(st) => {
                    assert(st != majority);
                },
                None => {},
            }
        }
        rules::lemma_per_index_all(n as nat, f, p);
        assert(doc_issues(doc, us, toks) == rules::per_index(n as nat, f));
        assert forall|i: int| 0 <= i < doc_issues(doc, us, toks).len() implies {
            let iv = #[trigger] doc_issues(doc, us, toks)[i];
            ||| iv.message == message(Style::Dearu) && 0 < sentences_of(toks, Style::Dearu) <= sentences_of(
                toks,
                Style::Desumasu,
            )
            ||| iv.message == message(Style::Desumasu) && 0 < sentences_of(toks, Style::Desumasu)
                < sentences_of(toks, Style::Dearu)
        } by {
            assert(p(rules::per_index(n as nat, f)[i]));
        }
    }
}

proof fn lemma_issue_count(doc: DocumentView, us: Seq<Unit>, toks: Seq<Vec<Token>>, majority: Style, minority: Style, m: int)
    requires
        0 <= m <= us.len(),
        us.len() <= toks.len(),
        minority != majority,
    ensures
        rules::per_index(m as nat, |k: int| unit_issue(doc, us[k], toks[k]@, majority)).len() == style_count(
            toks,
            minority,
            m,
        ),
    decreases m,
{
    if m > 0 {
        lemma_issue_count(doc, us, toks, majority, minority, m - 1);
        match classify_spec(toks[m - 1]@) {
            Some(st) => {
                if st != majority {
                    assert(st == minority) by {
                        match st {
                            Style::Desumasu => {
                                match majority {
                                    Style::Desumasu => {},
                                    Style::Dearu => {
                                        match minority {
                                            Style::Desumasu => {},
                                            Style::Dearu => {},
                                        }
                                    },
                                }
                            },
                            Style::Dearu => {
                                match majority {
                                    Style::Dearu => {},
                                    Style::Desumasu => {
                                        match minority {
                                            Style::Desumasu => {},
                                            Style::Dearu => {},
                                        }
                                    },
                                }
                            },
                        }
                    }
                }
            },
            None => {},
        }
    }
}

/// Law: where both styles occur, one issue is reported per sentence of the
/// minority style (plain where there are at least as many polite sentences,
/// else polite); where only one style occurs, none.
pub proof fn lemma_minority_count(doc: DocumentView, us: Seq<Unit>, toks: Seq<Vec<Token>>)
    requires
        toks.len() == us.len(),
    ensures
        doc_issues(doc, us, toks).len() == (if sentences_of(toks, Style::Desumasu) == 0 || sentences_of(
            toks,
            Style::Dearu,
        ) == 0 {
            0
        } else if sentences_of(toks, Style::Dearu) <= sentences_of(toks, Style::Desumasu) {
            sentences_of(toks, Style::Dearu)
        } else {
            sentences_of(toks, Style::Desumasu)
        }),
{
    let n = us.len() as int;
    lemma_style_count(toks, Style::Desumasu, n);
    lemma_style_count(toks, Style::Dearu, n);
    assert(Seq::new(toks.len(), |k: int| classify_spec(toks[k]@)) =~= Seq::new(n as nat, |k: int| classify_spec(toks[k]@)));
    let d = style_count(toks, Style::Desumasu, n);
    let a = style_count(toks, Style::Dearu, n);
    if d != 0 && a != 0 {
        if d >= a {
            lemma_issue_count(doc, us, toks, Style::Desumasu, Style::Dearu, n);
        } else {
            lemma_issue_count(doc, us, toks, Style::Dearu, Style::Desumasu, n);
        }
    }
}

/// The issues for the units `us`, cut into `toks`.
pub fn check_tokens(doc: &Document, us: &Vec<Unit>, toks: &Vec<Vec<Token>>) -> (out: Vec<Issue>)
    requires
        doc.wf(),
        toks@.len() == us@.len(),
        forall|k: int| 0 <= k < us@.len() ==> morph::unit_in(doc@, #[trigger] us@[k]),
    ensures
        rule::issues_view(out@) == doc_issues(doc@, us@, toks@),
        rule::fixes_fit(doc@.source, rule::issues_view(out@)),
{
    let mut styles: Vec<Option<Style>> = Vec::new();
    let mut d: usize = 0;
    let mut a: usize = 0;
    let mut k: usize = 0;
    while k < toks.len()
        invariant
            k <= toks@.len(),
            styles@.len() == k,
            forall|j: int| 0 <= j < k ==> #[trigger] styles@[j] == classify_spec(toks@[j]@),
            d == style_count(toks@, Style::Desumasu, k as int),
            a == style_count(toks@, Style::Dearu, k as int),
            d + a <= k,
        decreases toks@.len() - k,
    {
        let s = classify(&toks[k]);
        match s {
            Some(Style::Desumasu) => d += 1,
            Some(Style::Dearu) => a += 1,
            None => {},
        }
        styles.push(s);
        k += 1;
    }
    let mut out: Vec<Issue> = Vec::new();
    if d == 0 || a == 0 {
        assert(rule::issues_view(out@) =~= doc_issues(doc@, us@, toks@));
        return out;
    }
    let majority = if d >= a {
        Style::Desumasu
    } else {
        Style::Dearu
    };
    let ghost f = |j: int| unit_issue(doc@, us@[j], toks@[j]@, majority);
    let mut j: usize = 0;
    assert(rule::issues_view(out@) =~= rules::per_index(0, f));
    while j < us.len()
        invariant
            doc.wf(),
            toks@.len() == us@.len(),
            styles@.len() == us@.len(),
            forall|q: int| 0 <= q < us@.len() ==> #[trigger] styles@[q] == classify_spec(toks@[q]@),
            forall|q: int| 0 <= q < us@.len() ==> morph::unit_in(doc@, #[trigger] us@[q]),
            f == (|q: int| unit_issue(doc@, us@[q], toks@[q]@, majority)),
            j <= us@.len(),
            rule::issues_view(out@) == rules::per_index(j as nat, f),
            rule::fixes_fit(doc@.source, rule::issues_view(out@)),
        decreases us@.len() - j,
    {
        let mut pushed = false;
        match styles[j] {
            Some(s) => {
                if s != majority {
                    let u = us[j];
                    proof {
                        doc.lemma_wf();
                        rules::lemma_seg_byte(doc@, u.seg as int, u.start as int);
                    }
                    let seg = doc.segment(u.seg);
                    let (line, column) = doc.pos_at(seg, u.start);
                    let mut msg = String::new();
                    text::push_str(&mut msg, "本文: \"");
                    match s {
                        Style::Desumasu => text::push_str(&mut msg, "ですます"),
                        Style::Dearu => text::push_str(&mut msg, "である"),
                    }
                    text::push_str(&mut msg, "\"調 が混在しています。本文全体で統一してください。");
                    assert(msg@ =~= message(s));
                    let issue = Issue::new("no-mix-dearu-desumasu", msg.as_str(), line, column, Severity::Error);
                    let ghost p0 = out@;
                    out.push(issue);
                    assert(rule::issues_view(out@) =~= rule::issues_view(p0).push(issue@));
                    assert(seq![issue@] =~= f(j as int));
                    pushed = true;
                }
            },
            None => {},
        }
        if !pushed {
            assert(f(j as int) =~= Seq::<IssueView>::empty());
        }
        assert(rule::issues_view(out@) =~= rules::per_index(j as nat + 1, f));
        j += 1;
    }
    out
}

/// The rule, with the analyser that cuts sentences into tokens.
pub struct NoMixDearuDesumasu<T> {
    pub tokenizer: T,
}

impl<T: Tokenizer> Rule for NoMixDearuDesumasu<T> {
    open spec fn spec_id(&self) -> Seq<char> {
        rule_id()
    }

    open spec fn accepts(&self, doc: DocumentView, issues: Seq<IssueView>) -> bool {
        exists|toks: Seq<Vec<Token>>|
            morph::analysed(&self.tokenizer, doc, morph::sentence_units(doc), toks) && issues == #[trigger] doc_issues(
                doc,
                morph::sentence_units(doc),
                toks,
            )
    }

    fn id(&self) -> (r: &str) {
        "no-mix-dearu-desumasu"
    }

    fn check(&self, doc: &Document) -> (issues: Vec<Issue>) {
        let us = morph::sentence_units_exec(doc);
        let toks = morph::tokenize_units(&self.tokenizer, doc, &us);
        check_tokens(doc, &us, &toks)
    }
}

} // verus!

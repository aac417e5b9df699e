//! preset-ja-technical-writing/no-doubled-joshi
//!
//! Groups the particles of each sentence of a paragraph by surface and kind,
//! in ascending order of (surface, kind), and reports each group of two or
//! more (but for the usual exceptions) at its second member.

use vstd::prelude::*;
use crate::document::{self, Document, DocumentView};
use crate::morph::{self, Token, Tokenizer, Unit, UnitRule};
use crate::rule::{self, Issue, IssueView, Rule, Severity};
use crate::rules as rules;
use crate::text;

verus! {

pub open spec fn rule_id() -> Seq<char> {
    "no-doubled-joshi"@
}

pub open spec fn message(surface: Seq<char>) -> Seq<char> {
    "一文に二回以上利用されている助詞 \""@ + surface + "\" がみつかりました。"@
}

/// A particle's key: its surface and kind.
pub open spec fn key_of(t: Token) -> (Seq<char>, Seq<char>) {
    (t.surface@, t.pos_detail_1@)
}

pub open spec fn key_lt(a: (Seq<char>, Seq<char>), b: (Seq<char>, Seq<char>)) -> bool {
    text::seq_lt(a.0, b.0) || (a.0 == b.0 && text::seq_lt(a.1, b.1))
}

pub open spec fn is_particle(t: Token) -> bool {
    t.pos@ == "助詞"@
}

/// The index of the first key of `ks` at or after `i` that `k` does not follow.
pub open spec fn insert_pos(ks: Seq<(Seq<char>, Seq<char>)>, k: (Seq<char>, Seq<char>), i: int) -> int
    decreases ks.len() - i,
{
    if i < 0 || i >= ks.len() {
        ks.len() as int
    } else if key_lt(ks[i], k) {
        insert_pos(ks, k, i + 1)
    } else {
        i
    }
}

/// `ks` with `k` put in order, where it is not there yet.
pub open spec fn insert_key(ks: Seq<(Seq<char>, Seq<char>)>, k: (Seq<char>, Seq<char>)) -> Seq<(Seq<char>, Seq<char>)> {
    let p = insert_pos(ks, k, 0);
    if p < ks.len() && ks[p] == k {
        ks
    } else {
        ks.insert(p, k)
    }
}

/// The keys of the particles among the first `n` tokens, in ascending order.
pub open spec fn keys_upto(toks: Seq<Token>, n: int) -> Seq<(Seq<char>, Seq<char>)>
    decreases n,
{
    if n <= 0 {
        seq![]
    } else if is_particle(toks[n - 1]) {
        insert_key(keys_upto(toks, n - 1), key_of(toks[n - 1]))
    } else {
        keys_upto(toks, n - 1)
    }
}

/// The particles with key `k` among the first `n` tokens, in order.
pub open spec fn members(toks: Seq<Token>, k: (Seq<char>, Seq<char>), n: int) -> Seq<Token>
    decreases n,
{
    if n <= 0 {
        seq![]
    } else if is_particle(toks[n - 1]) && key_of(toks[n - 1]) == k {
        members(toks, k, n - 1).push(toks[n - 1])
    } else {
        members(toks, k, n - 1)
    }
}

/// Groups that may hold a particle twice.
pub open spec fn exception(ms: Seq<Token>) -> bool {
    let first = ms[0];
    first.pos_detail_1@ == "連体化"@ || (first.pos_detail_1@ == "格助詞"@ && first.surface@ == "を"@) || (
    first.pos_detail_1@ == "接続助詞"@ && first.surface@ == "て"@) || (ms.len() == 2 && first.pos_detail_1@
        == "並立助詞"@ && ms[1].pos_detail_1@ == "並立助詞"@)
}

pub open spec fn group_issue(doc: DocumentView, u: Unit, toks: Seq<Token>, k: (Seq<char>, Seq<char>)) -> Seq<IssueView> {
    let ms = members(toks, k, toks.len() as int);
    if ms.len() >= 2 && !exception(ms) && morph::unit_at(doc, u, ms[1].byte_start as int) {
        seq![
            rule::issue_spec(
                rule_id(),
                message(k.0),
                document::seg_pos(doc, doc.segments[u.seg as int], u.start + ms[1].byte_start),
                Severity::Error,
            ),
        ]
    } else {
        seq![]
    }
}

pub open spec fn unit_issues(doc: DocumentView, u: Unit, toks: Seq<Token>) -> Seq<IssueView> {
    let ks = keys_upto(toks, toks.len() as int);
    rules::per_index(ks.len(), |q: int| group_issue(doc, u, toks, ks[q]))
}

pub open spec fn keys_view(v: Seq<(Vec<char>, Vec<char>)>) -> Seq<(Seq<char>, Seq<char>)> {
    v.map_values(|p: (Vec<char>, Vec<char>)| (p.0@, p.1@))
}

fn key_lt_exec(a: &(Vec<char>, Vec<char>), b: &(Vec<char>, Vec<char>)) -> (r: bool)
    ensures
        r == key_lt((a.0@, a.1@), (b.0@, b.1@)),
{
    if text::str_lt(&a.0, &b.0) {
        return true;
    }
    vec_eq(&a.0, &b.0) && text::str_lt(&a.1, &b.1)
}

fn key_eq_exec(a: &(Vec<char>, Vec<char>), b: &(Vec<char>, Vec<char>)) -> (r: bool)
    ensures
        r == ((a.0@, a.1@) == (b.0@, b.1@)),
{
    let x = vec_eq(&a.0, &b.0);
    let y = vec_eq(&a.1, &b.1);
    x && y
}

fn vec_eq(a: &Vec<char>, b: &Vec<char>) -> (r: bool)
    ensures
        r == (a@ == b@),
{
    if a.len() != b.len() {
        return false;
    }
    let mut i: usize = 0;
    while i < a.len()
        invariant
            a@.len() == b@.len(),
            i <= a@.len(),
            forall|j: int| 0 <= j < i ==> a@[j] == b@[j],
        decreases a@.len() - i,
    {
        if a[i] != b[i] {
            return false;
        }
        i += 1;
    }
    assert(a@ =~= b@);
    true
}

/// Puts `k` into the ordered keys `ks`, where it is not there yet.
fn insert_key_exec(ks: &mut Vec<(Vec<char>, Vec<char>)>, k: (Vec<char>, Vec<char>))
    ensures
        keys_view(final(ks)@) == insert_key(keys_view(old(ks)@), (k.0@, k.1@)),
{
    let ghost kv = (k.0@, k.1@);
    let ghost old_v = keys_view(ks@);
    let mut p: usize = 0;
    while p < ks.len()
        invariant
            p <= ks@.len(),
            old_v == keys_view(ks@),
            kv == (k.0@, k.1@),
            insert_pos(old_v, kv, 0) == insert_pos(old_v, kv, p as int),
        ensures
            p <= ks@.len(),
            old_v == keys_view(ks@),
            insert_pos(old_v, kv, 0) == insert_pos(old_v, kv, p as int),
            p == ks@.len() || !key_lt(old_v[p as int], kv),
        decreases ks@.len() - p,
    {
        if !key_lt_exec(&ks[p], &k) {
            break;
        }
        p += 1;
    }
    assert(insert_pos(old_v, kv, 0) == p as int);
    if p < ks.len() && key_eq_exec(&ks[p], &k) {
        return;
    }
    ks.insert(p, k);
    assert(keys_view(ks@) =~= old_v.insert(p as int, kv));
}

/// The particles of `toks` with key `k`, in order.
fn members_exec(toks: &Vec<Token>, k: &(Vec<char>, Vec<char>)) -> (r: Vec<usize>)
    ensures
        r@.len() == members(toks@, (k.0@, k.1@), toks@.len() as int).len(),
        forall|j: int|
            0 <= j < r@.len() ==> #[trigger] r@[j] < toks@.len() && toks@[r@[j] as int] == members(
                toks@,
                (k.0@, k.1@),
                toks@.len() as int,
            )[j],
{
    let ghost kv = (k.0@, k.1@);
    let mut out: Vec<usize> = Vec::new();
    let mut i: usize = 0;
    while i < toks.len()
        invariant
            i <= toks@.len(),
            kv == (k.0@, k.1@),
            out@.len() == members(toks@, kv, i as int).len(),
            forall|j: int|
                0 <= j < out@.len() ==> #[trigger] out@[j] < i && toks@[out@[j] as int] == members(toks@, kv, i as int)[j],
        decreases toks@.len() - i,
    {
        let t = &toks[i];
        if text::str_eq(t.pos.as_str(), "助詞") {
            let s = text::chars_of(t.surface.as_str());
            let d = text::chars_of(t.pos_detail_1.as_str());
            if vec_eq(&s, &k.0) && vec_eq(&d, &k.1) {
                let ghost prev = out@;
                out.push(i);
                assert forall|j: int| 0 <= j < out@.len() implies #[trigger] out@[j] < i + 1 && toks@[out@[j] as int]
                    == members(toks@, kv, i + 1)[j] by {
                    if j < prev.len() {
                        assert(out@[j] == prev[j]);
                    }
                }
            }
        }
        i += 1;
    }
    out
}

/// The rule, with the analyser that cuts sentences into tokens.
pub struct NoDoubledJoshi<T> {
    pub tokenizer: T,
}

impl<T> UnitRule for NoDoubledJoshi<T> {
    open spec fn unit_spec(&self, doc: DocumentView, u: Unit, toks: Seq<Token>) -> Seq<IssueView> {
        unit_issues(doc, u, toks)
    }

    fn check_unit(&self, doc: &Document, u: Unit, toks: &Vec<Token>, out: &mut Vec<Issue>) {
        let mut ks: Vec<(Vec<char>, Vec<char>)> = Vec::new();
        let mut i: usize = 0;
        assert(keys_view(ks@) =~= keys_upto(toks@, 0));
        while i < toks.len()
            invariant
                i <= toks@.len(),
                keys_view(ks@) == keys_upto(toks@, i as int),
            decreases toks@.len() - i,
        {
            let t = &toks[i];
            if text::str_eq(t.pos.as_str(), "助詞") {
                let s = text::chars_of(t.surface.as_str());
                let d = text::chars_of(t.pos_detail_1.as_str());
                insert_key_exec(&mut ks, (s, d));
            }
            i += 1;
        }
        let ghost kv = keys_view(ks@);
        let ghost f = |q: int| group_issue(doc@, u, toks@, kv[q]);
        let mut q: usize = 0;
        assert(rule::issues_view(out@) =~= rule::issues_view(old(out)@) + rules::per_index(0, f));
        while q < ks.len()
            invariant
                doc.wf(),
                morph::unit_in(doc@, u),
                kv == keys_view(ks@),
                kv == keys_upto(toks@, toks@.len() as int),
                f == (|j: int| group_issue(doc@, u, toks@, kv[j])),
                q <= ks@.len(),
                rule::issues_view(out@) == rule::issues_view(old(out)@) + rules::per_index(q as nat, f),
                rule::fixes_fit(doc@.source, rule::issues_view(out@)),
            decreases ks@.len() - q,
        {
            let key = &ks[q];
            assert(kv[q as int] == (key.0@, key.1@));
            let ms = members_exec(toks, key);
            let ghost mv = members(toks@, kv[q as int], toks@.len() as int);
            let mut pushed = false;
            if ms.len() >= 2 {
                let first = &toks[ms[0]];
                let second = &toks[ms[1]];
                assert(*first == mv[0] && *second == mv[1]);
                let d1 = first.pos_detail_1.as_str();
                let exc = text::str_eq(d1, "連体化") || (text::str_eq(d1, "格助詞") && text::str_eq(
                    first.surface.as_str(),
                    "を",
                )) || (text::str_eq(d1, "接続助詞") && text::str_eq(first.surface.as_str(), "て")) || (ms.len()
                    == 2 && text::str_eq(d1, "並立助詞") && text::str_eq(second.pos_detail_1.as_str(), "並立助詞"));
                if !exc {
                    match morph::unit_offset(doc, u, second.byte_start) {
                        Some(b) => {
                            proof {
                                doc.lemma_wf();
                                rules::lemma_seg_byte(doc@, u.seg as int, b as int);
                            }
                            let seg = doc.segment(u.seg);
                            let (line, column) = doc.pos_at(seg, b);
                            let mut msg = String::new();
                            text::push_str(&mut msg, "一文に二回以上利用されている助詞 \"");
                            text::push_chars(&mut msg, &key.0, 0, key.0.len());
                            text::push_str(&mut msg, "\" がみつかりました。");
                            assert(key.0@.subrange(0, key.0@.len() as int) =~= key.0@);
                            assert(msg@ =~= message(kv[q as int].0));
                            let issue = Issue::new("no-doubled-joshi", msg.as_str(), line, column, Severity::Error);
                            let ghost p0 = out@;
                            out.push(issue);
                            assert(rule::issues_view(out@) =~= rule::issues_view(p0).push(issue@));
                            assert(seq![issue@] =~= f(q as int));
                            pushed = true;
                        },
                        None => {},
                    }
                }
            }
            if !pushed {
                assert(f(q as int) =~= Seq::<IssueView>::empty());
            }
            assert(rule::issues_view(out@) =~= rule::issues_view(old(out)@) + rules::per_index(q as nat + 1, f));
            q += 1;
        }
    }
}

impl<T: Tokenizer> Rule for NoDoubledJoshi<T> {
    open spec fn spec_id(&self) -> Seq<char> {
        rule_id()
    }

    open spec fn accepts(&self, doc: DocumentView, issues: Seq<IssueView>) -> bool {
        exists|toks: Seq<Vec<Token>>|
            morph::analysed(&self.tokenizer, doc, morph::sentence_units(doc), toks) && issues == #[trigger] morph::units_issues(
                self,
                doc,
                morph::sentence_units(doc),
                toks,
            )
    }

    fn id(&self) -> (r: &str) {
        "no-doubled-joshi"
    }

    fn check(&self, doc: &Document) -> (issues: Vec<Issue>) {
        let us = morph::sentence_units_exec(doc);
        let toks = morph::tokenize_units(&self.tokenizer, doc, &us);
        morph::check_units(self, doc, &us, &toks)
    }
}

} // verus!

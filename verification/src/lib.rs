pub mod config;
pub mod document;
pub mod fixer;
pub mod log;
pub mod morph;
pub mod normalize;
pub mod regex;
pub mod report;
pub mod rule;
pub mod rules;
pub mod text;

use vstd::prelude::*;
use crate::document::Document;
use crate::rule::{ByteRange, Fix, FixView, Issue, IssueView, Rule};
use crate::fixer::{MAX_PASSES, apply_fixes};
use crate::config::{ConfigValue, TextlintRc};
use crate::morph::Tokenizer;
use crate::rules::prh::Prh;

verus! {

/// `a` comes no later than `b` in (line, column) order.
pub open spec fn pos_le(a: IssueView, b: IssueView) -> bool {
    a.line < b.line || (a.line == b.line && a.column <= b.column)
}

/// Inserts `x` after the last issue that is not after it.
pub open spec fn insert_by_pos(s: Seq<IssueView>, x: IssueView) -> Seq<IssueView>
    decreases s.len(),
{
    if s.len() == 0 {
        seq![x]
    } else if pos_le(s.last(), x) {
        s.push(x)
    } else {
        insert_by_pos(s.drop_last(), x).push(s.last())
    }
}

/// `s` sorted by (line, column), issues at the same position keeping their order.
pub open spec fn sort_by_pos(s: Seq<IssueView>) -> Seq<IssueView>
    decreases s.len(),
{
    if s.len() == 0 {
        seq![]
    } else {
        insert_by_pos(sort_by_pos(s.drop_last()), s.last())
    }
}

/// The document that `lint` checks.
pub open spec fn lint_document(source: Seq<char>) -> crate::document::DocumentView {
    crate::document::document_spec(
        source,
        crate::document::markdown_events(source, crate::document::document_extensions()),
    )
}

/// `issues` is what `lint` reports on `source`: the issues each rule accepts
/// on the document, in rule order, then sorted by position.
pub open spec fn lint_outcome(
    source: Seq<char>,
    rules: Seq<Box<dyn Rule>>,
    issues: Seq<IssueView>,
) -> bool {
    exists|outs: Seq<Seq<IssueView>>|
        #![trigger outs.flatten()]
        outs.len() == rules.len() && (forall|i: int|
            0 <= i < rules.len() ==> rules[i].accepts(lint_document(source), #[trigger] outs[i])
                && crate::rule::fixes_fit(source, outs[i])) && issues == sort_by_pos(outs.flatten())
}

/// Issues are in (line, column) order.
pub open spec fn sorted_by_pos(s: Seq<IssueView>) -> bool {
    forall|a: int, b: int| 0 <= a < b < s.len() ==> pos_le(#[trigger] s[a], #[trigger] s[b])
}

proof fn lemma_insert_by_pos_sorted(s: Seq<IssueView>, x: IssueView)
    requires
        sorted_by_pos(s),
    ensures
        sorted_by_pos(insert_by_pos(s, x)),
        insert_by_pos(s, x).to_multiset() == s.to_multiset().insert(x),
    decreases s.len(),
{
    broadcast use vstd::seq_lib::group_to_multiset_ensures;

    if s.len() == 0 {
        assert(seq![x] =~= Seq::<IssueView>::empty().push(x));
    } else if pos_le(s.last(), x) {
        let r = s.push(x);
        assert forall|a: int, b: int| 0 <= a < b < r.len() implies pos_le(#[trigger] r[a], #[trigger] r[b]) by {
            if b == s.len() {
                assert(r[a] == s[a]);
                if a < s.len() - 1 {
                    assert(pos_le(s[a], s[s.len() - 1]));
                }
            } else {
                assert(r[a] == s[a] && r[b] == s[b]);
            }
        }
    } else {
        let t = s.drop_last();
        assert(s =~= t.push(s.last()));
        assert forall|a: int, b: int| 0 <= a < b < t.len() implies pos_le(#[trigger] t[a], #[trigger] t[b]) by {
            assert(t[a] == s[a] && t[b] == s[b]);
        }
        lemma_insert_by_pos_sorted(t, x);
        let r = insert_by_pos(t, x);
        let r2 = r.push(s.last());
        assert forall|a: int, b: int| 0 <= a < b < r2.len() implies pos_le(#[trigger] r2[a], #[trigger] r2[b]) by {
            if b == r.len() {
                let ra = r[a];
                assert(r2[a] == ra);
                assert(r.to_multiset().count(ra) > 0) by {
                    assert(r.contains(ra));
                }
                if ra != x {
                    assert(t.to_multiset().count(ra) > 0);
                    assert(t.contains(ra));
                    let m = choose|m: int| 0 <= m < t.len() && t[m] == ra;
                    assert(s[m] == ra);
                    assert(pos_le(s[m], s[s.len() - 1]));
                }
            } else {
                assert(r2[a] == r[a] && r2[b] == r[b]);
            }
        }
        assert(s.to_multiset() == t.to_multiset().insert(s.last()));
    }
}

/// Law: sorting by position puts the issues in (line, column) order and
/// keeps every issue, each as often as it occurs.
pub proof fn lemma_sort_by_pos(s: Seq<IssueView>)
    ensures
        sorted_by_pos(sort_by_pos(s)),
        sort_by_pos(s).to_multiset() == s.to_multiset(),
    decreases s.len(),
{
    broadcast use vstd::seq_lib::group_to_multiset_ensures;

    if s.len() > 0 {
        let t = s.drop_last();
        assert(s =~= t.push(s.last()));
        lemma_sort_by_pos(t);
        lemma_insert_by_pos_sorted(sort_by_pos(t), s.last());
    } else {
        assert(sort_by_pos(s) =~= Seq::<IssueView>::empty());
        assert(s.to_multiset() =~= vstd::multiset::Multiset::<IssueView>::empty());
    }
}

/// Law: what `lint` reports is in (line, column) order, and is exactly the
/// issues that the rules report, in some order.
pub proof fn lemma_lint_outcome_sorted(source: Seq<char>, rules: Seq<Box<dyn Rule>>, issues: Seq<IssueView>)
    requires
        lint_outcome(source, rules, issues),
    ensures
        sorted_by_pos(issues),
        exists|outs: Seq<Seq<IssueView>>|
            #![trigger outs.flatten()]
            outs.len() == rules.len() && (forall|i: int|
                0 <= i < rules.len() ==> rules[i].accepts(lint_document(source), #[trigger] outs[i]))
                && issues.to_multiset() == outs.flatten().to_multiset(),
{
    let outs = choose|outs: Seq<Seq<IssueView>>|
        #![trigger outs.flatten()]
        outs.len() == rules.len() && (forall|i: int|
            0 <= i < rules.len() ==> rules[i].accepts(lint_document(source), #[trigger] outs[i])
                && crate::rule::fixes_fit(source, outs[i])) && issues == sort_by_pos(outs.flatten());
    lemma_sort_by_pos(outs.flatten());
}

proof fn lemma_insert_by_pos_at(s: Seq<IssueView>, x: IssueView, p: int)
    requires
        0 <= p <= s.len(),
        p == 0 || pos_le(s[p - 1], x),
        forall|k: int| p <= k < s.len() ==> !pos_le(#[trigger] s[k], x),
    ensures
        insert_by_pos(s, x) == s.insert(p, x),
    decreases s.len(),
{
    if s.len() == 0 {
        assert(s.insert(p, x) =~= seq![x]);
    } else if p == s.len() {
        assert(s.insert(p, x) =~= s.push(x));
    } else {
        let t = s.drop_last();
        lemma_insert_by_pos_at(t, x, p);
        assert(s.insert(p, x) =~= t.insert(p, x).push(s.last()));
    }
}

fn insert_issue(r: &mut Vec<Issue>, x: Issue, Ghost(src): Ghost<Seq<char>>)
    requires
        crate::rule::fixes_fit(src, crate::rule::issues_view(old(r)@)),
        crate::rule::fixes_fit(src, seq![x@]),
    ensures
        crate::rule::fixes_fit(src, crate::rule::issues_view(final(r)@)),
        crate::rule::issues_view(final(r)@) == insert_by_pos(crate::rule::issues_view(old(r)@), x@),
{
    let mut p = r.len();
    while p > 0 && (r[p - 1].line > x.line || (r[p - 1].line == x.line && r[p - 1].column > x.column))
        invariant
            p <= r@.len(),
            forall|k: int| p <= k < r@.len() ==> !pos_le(#[trigger] r@[k]@, x@),
        decreases p,
    {
        p -= 1;
    }
    let ghost before = crate::rule::issues_view(r@);
    proof {
        lemma_insert_by_pos_at(before, x@, p as int);
    }
    let ghost xv = x@;
    r.insert(p, x);
    assert(crate::rule::issues_view(r@) =~= before.insert(p as int, xv));
    assert forall|k: int| 0 <= k < r@.len() implies (#[trigger] crate::rule::issues_view(r@)[k].fix matches Some(f) ==> crate::fixer::fix_fits(src, f)) by {
        if k < p {
            assert(crate::rule::issues_view(r@)[k] == before[k]);
        } else if k == p {
            assert(seq![xv][0] == xv);
        } else {
            assert(crate::rule::issues_view(r@)[k] == before[k - 1]);
        }
    }
}

/// Moves the issues of `v`, in order, into the sorted `r`.
fn insert_all(r: &mut Vec<Issue>, v: Vec<Issue>, Ghost(src): Ghost<Seq<char>>)
    requires
        crate::rule::fixes_fit(src, crate::rule::issues_view(old(r)@)),
        crate::rule::fixes_fit(src, crate::rule::issues_view(v@)),
    ensures
        crate::rule::fixes_fit(src, crate::rule::issues_view(final(r)@)),
        crate::rule::issues_view(final(r)@) == sort_by_pos_onto(
            crate::rule::issues_view(old(r)@),
            crate::rule::issues_view(v@),
        ),
{
    let mut v = v;
    let ghost orig = crate::rule::issues_view(v@);
    let ghost start = crate::rule::issues_view(r@);
    let ghost mut done: int = 0;
    while v.len() > 0
        invariant
            0 <= done <= orig.len(),
            crate::rule::issues_view(v@) == orig.skip(done),
            v@.len() == orig.len() - done,
            crate::rule::issues_view(r@) == sort_by_pos_onto(start, orig.take(done)),
            crate::rule::fixes_fit(src, crate::rule::issues_view(r@)),
            crate::rule::fixes_fit(src, orig),
        decreases v@.len(),
    {
        assert(crate::rule::issues_view(v@)[0] == orig[done]);
        let ghost prev = v@;
        let x = v.remove(0);
        assert(v@ =~= prev.drop_first());
        assert(crate::rule::issues_view(v@) =~= crate::rule::issues_view(prev).drop_first());
        assert(x@ == orig[done]);
        assert(crate::rule::fixes_fit(src, seq![x@])) by {
            assert(seq![x@][0] == orig[done]);
        }
        insert_issue(r, x, Ghost(src));
        proof {
            assert(orig.take(done + 1).drop_last() =~= orig.take(done));
            assert(orig.take(done + 1).last() == orig[done]);
            done = done + 1;
        }
        assert(crate::rule::issues_view(v@) =~= orig.skip(done));
    }
    assert(orig.take(done) =~= orig);
}

/// Insertion of the issues of `v`, in order, into `r`.
pub open spec fn sort_by_pos_onto(r: Seq<IssueView>, v: Seq<IssueView>) -> Seq<IssueView>
    decreases v.len(),
{
    if v.len() == 0 {
        r
    } else {
        insert_by_pos(sort_by_pos_onto(r, v.drop_last()), v.last())
    }
}

proof fn lemma_sort_onto(a: Seq<IssueView>, b: Seq<IssueView>)
    ensures
        sort_by_pos_onto(sort_by_pos(a), b) == sort_by_pos(a + b),
    decreases b.len(),
{
    if b.len() == 0 {
        assert(a + b =~= a);
    } else {
        lemma_sort_onto(a, b.drop_last());
        assert((a + b).drop_last() =~= a + b.drop_last());
        assert((a + b).last() == b.last());
    }
}

/// Lints `source` with `rules`: every rule checks the document, and the
/// issues are sorted by (line, column), issues at one position in rule order.
pub fn lint(source: &str, rules: &[Box<dyn Rule>]) -> (r: Vec<Issue>)
    requires
        text::byte_len(source@) < usize::MAX,
    ensures
        lint_outcome(source@, rules@, crate::rule::issues_view(r@)),
        crate::rule::fixes_fit(source@, crate::rule::issues_view(r@)),
{
    let doc = Document::parse(source);
    let mut all: Vec<Issue> = Vec::new();
    let mut i: usize = 0;
    let ghost mut outs: Seq<Seq<IssueView>> = seq![];
    assert(outs.flatten() =~= Seq::<IssueView>::empty());
    while i < rules.len()
        invariant
            doc.wf(),
            doc@ == lint_document(source@),
            i <= rules@.len(),
            outs.len() == i,
            forall|j: int|
                0 <= j < i ==> rules@[j].accepts(lint_document(source@), #[trigger] outs[j])
                    && crate::rule::fixes_fit(source@, outs[j]),
            crate::rule::issues_view(all@) == sort_by_pos(outs.flatten()),
            crate::rule::fixes_fit(source@, crate::rule::issues_view(all@)),
        decreases rules@.len() - i,
    {
        let v = rules[i].check(&doc);
        let ghost vv = crate::rule::issues_view(v@);
        insert_all(&mut all, v, Ghost(source@));
        proof {
            lemma_sort_onto(outs.flatten(), vv);
            outs.lemma_flatten_push(vv);
            outs = outs.push(vv);
        }
        i += 1;
    }
    all
}


/// The (rule id, fix) of each issue that has a fix, in order.
pub open spec fn pending_of(issues: Seq<IssueView>) -> Seq<(Seq<char>, FixView)>
    decreases issues.len(),
{
    if issues.len() == 0 {
        seq![]
    } else {
        let p = pending_of(issues.drop_last());
        match issues.last().fix {
            Some(f) => p.push((issues.last().rule_id, f)),
            None => p,
        }
    }
}

pub open spec fn same_fix(a: FixView, b: FixView) -> bool {
    a.start == b.start && a.end == b.end && a.replacement == b.replacement
}

/// The rule id of the first pending fix equal to `f`, or the empty string.
pub open spec fn rule_of(pending: Seq<(Seq<char>, FixView)>, f: FixView) -> Seq<char>
    decreases pending.len(),
{
    if pending.len() == 0 {
        seq![]
    } else if same_fix(pending[0].1, f) {
        pending[0].0
    } else {
        rule_of(pending.drop_first(), f)
    }
}

pub open spec fn fixes_of(pending: Seq<(Seq<char>, FixView)>) -> Seq<FixView> {
    pending.map_values(|p: (Seq<char>, FixView)| p.1)
}

#[derive(Debug)]
pub struct AppliedFix {
    pub rule_id: String,
    pub range: ByteRange,
    pub replacement: String,
    pub pass: usize,
}

impl Clone for AppliedFix {
    fn clone(&self) -> (r: AppliedFix)
        ensures
            r@ == self@,
    {
        AppliedFix {
            rule_id: self.rule_id.clone(),
            range: self.range.start..self.range.end,
            replacement: self.replacement.clone(),
            pass: self.pass,
        }
    }
}

pub struct AppliedFixView {
    pub rule_id: Seq<char>,
    pub fix: FixView,
    pub pass: usize,
}

impl View for AppliedFix {
    type V = AppliedFixView;

    open spec fn view(&self) -> AppliedFixView {
        AppliedFixView {
            rule_id: self.rule_id@,
            fix: FixView { start: self.range.start, end: self.range.end, replacement: self.replacement@ },
            pass: self.pass,
        }
    }
}

#[derive(Debug, Clone)]
pub struct FixResult {
    pub fixed_source: String,
    pub applied_fixes: Vec<AppliedFix>,
    pub remaining_issues: Vec<Issue>,
    pub passes: usize,
    pub hit_max_passes: bool,
}

/// One pass of `fix` that changed the source.
pub struct PassRecord {
    /// The source the pass linted.
    pub source: Seq<char>,
    /// The (rule id, fix) of the issues it found.
    pub pending: Seq<(Seq<char>, FixView)>,
}

/// The fixes a pass applied.
pub open spec fn pass_applied(p: PassRecord) -> Seq<FixView> {
    crate::fixer::pass_groups(fixes_of(p.pending)).0
}

/// The source after the pass.
pub open spec fn pass_result(p: PassRecord) -> Seq<char> {
    crate::fixer::splice(p.source, pass_applied(p), 0)
}

/// `p` is a pass that lints its source with `rules` and applies some fix.
pub open spec fn valid_pass(rules: Seq<Box<dyn Rule>>, p: PassRecord) -> bool {
    &&& exists|issues: Seq<IssueView>|
        lint_outcome(p.source, rules, issues) && #[trigger] pending_of(issues) == p.pending
    &&& pass_applied(p).len() > 0
}

/// The applied fixes of pass number `n` (1-based), with their rule ids.
pub open spec fn applied_records(p: PassRecord, n: usize) -> Seq<AppliedFixView> {
    pass_applied(p).map_values(
        |f: FixView| AppliedFixView { rule_id: rule_of(p.pending, f), fix: f, pass: n },
    )
}

/// The applied fixes of the passes, in pass order.
pub open spec fn all_applied(passes: Seq<PassRecord>) -> Seq<AppliedFixView>
    decreases passes.len(),
{
    if passes.len() == 0 {
        seq![]
    } else {
        all_applied(passes.drop_last()) + applied_records(passes.last(), passes.len() as usize)
    }
}

/// Some applied fix of `a` was applied by pass `m`.
pub open spec fn has_pass(a: Seq<AppliedFixView>, m: int) -> bool {
    exists|i: int| 0 <= i < a.len() && #[trigger] a[i].pass == m
}

/// The pass numbers of `a` run from 1 to `n` without going back, and each
/// of them numbers some fix.
pub open spec fn passes_numbered(a: Seq<AppliedFixView>, n: int) -> bool {
    &&& forall|i: int| 0 <= i < a.len() ==> 1 <= #[trigger] a[i].pass <= n
    &&& forall|i: int, j: int| 0 <= i <= j < a.len() ==> #[trigger] a[i].pass <= #[trigger] a[j].pass
    &&& forall|m: int| 1 <= m <= n ==> #[trigger] has_pass(a, m)
}

/// Law: where every pass applied some fix, the applied fixes of the passes
/// are numbered 1 to the number of passes, in order, with no number left out.
pub proof fn lemma_pass_numbers(passes: Seq<PassRecord>)
    requires
        passes.len() <= usize::MAX,
        forall|k: int| 0 <= k < passes.len() ==> pass_applied(#[trigger] passes[k]).len() > 0,
    ensures
        passes_numbered(all_applied(passes), passes.len() as int),
    decreases passes.len(),
{
    if passes.len() > 0 {
        let prev = passes.drop_last();
        assert forall|k: int| 0 <= k < prev.len() implies pass_applied(#[trigger] prev[k]).len() > 0 by {
            assert(prev[k] == passes[k]);
        }
        lemma_pass_numbers(prev);
        let a0 = all_applied(prev);
        let recs = applied_records(passes.last(), passes.len() as usize);
        let a = all_applied(passes);
        assert(a == a0 + recs);
        assert(pass_applied(passes[passes.len() - 1]).len() > 0);
        assert forall|i: int| 0 <= i < a.len() implies 1 <= #[trigger] a[i].pass <= passes.len() by {
            if i < a0.len() {
                assert(a[i] == a0[i]);
            } else {
                assert(a[i] == recs[i - a0.len()]);
            }
        }
        assert forall|i: int, j: int| 0 <= i <= j < a.len() implies #[trigger] a[i].pass <= #[trigger] a[j].pass by {
            if j < a0.len() {
                assert(a[i] == a0[i]);
                assert(a[j] == a0[j]);
            } else if i < a0.len() {
                assert(a[i] == a0[i]);
                assert(a0[i].pass <= passes.len() - 1);
                assert(a[j] == recs[j - a0.len()]);
            } else {
                assert(a[i] == recs[i - a0.len()]);
                assert(a[j] == recs[j - a0.len()]);
            }
        }
        assert forall|m: int| 1 <= m <= passes.len() implies #[trigger] has_pass(a, m) by {
            if m < passes.len() {
                assert(has_pass(a0, m));
                let i = choose|i: int| 0 <= i < a0.len() && #[trigger] a0[i].pass == m;
                assert(a[i] == a0[i]);
                assert(a[i].pass == m);
            } else {
                assert(recs.len() == pass_applied(passes.last()).len());
                assert(recs.len() > 0);
                let i = a0.len() as int;
                assert(a[i] == recs[0]);
                assert(recs[0].pass == passes.len() as usize);
                assert(a[i].pass == m);
            }
        }
    }
}

/// The passes run one after the other from `source` to `result`.
pub open spec fn pass_chain(
    rules: Seq<Box<dyn Rule>>,
    source: Seq<char>,
    passes: Seq<PassRecord>,
    result: Seq<char>,
) -> bool {
    &&& forall|k: int| 0 <= k < passes.len() ==> valid_pass(rules, #[trigger] passes[k])
    &&& (if passes.len() == 0 {
        result == source
    } else {
        &&& passes[0].source == source
        &&& forall|k: int|
            0 <= k < passes.len() - 1 ==> #[trigger] passes[k + 1].source == pass_result(passes[k])
        &&& result == pass_result(passes.last())
    })
}

fn rule_id_of(pending: &Vec<(String, Fix)>, f: &Fix) -> (r: String)
    ensures
        r@ == rule_of(pending_view(pending@), f@),
{
    let mut k: usize = 0;
    assert(pending_view(pending@).skip(0) =~= pending_view(pending@));
    while k < pending.len()
        invariant
            k <= pending@.len(),
            rule_of(pending_view(pending@), f@) == rule_of(pending_view(pending@).skip(k as int), f@),
        decreases pending@.len() - k,
    {
        let ghost rest = pending_view(pending@).skip(k as int);
        assert(rest[0] == (pending@[k as int].0@, pending@[k as int].1@));
        assert(rest.drop_first() =~= pending_view(pending@).skip(k + 1));
        let p = &pending[k];
        if p.1.range.start == f.range.start && p.1.range.end == f.range.end
            && crate::text::str_eq(p.1.replacement.as_str(), f.replacement.as_str()) {
            return p.0.clone();
        }
        k += 1;
    }
    String::new()
}

pub open spec fn pending_view(p: Seq<(String, Fix)>) -> Seq<(Seq<char>, FixView)> {
    p.map_values(|x: (String, Fix)| (x.0@, x.1@))
}

fn collect_pending(issues: &Vec<Issue>) -> (r: Vec<(String, Fix)>)
    ensures
        pending_view(r@) == pending_of(crate::rule::issues_view(issues@)),
{
    let mut r: Vec<(String, Fix)> = Vec::new();
    let mut k: usize = 0;
    assert(crate::rule::issues_view(issues@).take(0) =~= Seq::<IssueView>::empty());
    while k < issues.len()
        invariant
            k <= issues@.len(),
            pending_view(r@) == pending_of(crate::rule::issues_view(issues@).take(k as int)),
        decreases issues@.len() - k,
    {
        let ghost t = crate::rule::issues_view(issues@).take(k + 1);
        assert(t.drop_last() =~= crate::rule::issues_view(issues@).take(k as int));
        assert(t.last() == issues@[k as int]@);
        match &issues[k].fix {
            Some(f) => {
                let ghost prev = r@;
                r.push((issues[k].rule_id.clone(), f.clone()));
                assert(pending_view(r@) =~= pending_view(prev).push((issues@[k as int]@.rule_id, f@)));
            },
            None => {},
        }
        k += 1;
    }
    assert(crate::rule::issues_view(issues@).take(issues@.len() as int) =~= crate::rule::issues_view(issues@));
    r
}

/// Every pending fix of a lint outcome fits the source.
proof fn lemma_pending_fit(src: Seq<char>, issues: Seq<IssueView>)
    requires
        crate::rule::fixes_fit(src, issues),
    ensures
        forall|k: int| 0 <= k < pending_of(issues).len() ==> crate::fixer::fix_fits(src, #[trigger] pending_of(issues)[k].1),
    decreases issues.len(),
{
    if issues.len() > 0 {
        let t = issues.drop_last();
        assert forall|k: int| 0 <= k < t.len() implies (#[trigger] t[k].fix matches Some(f) ==> crate::fixer::fix_fits(src, f)) by {
            assert(t[k] == issues[k]);
        }
        lemma_pending_fit(src, t);
        assert(issues.last() == issues[issues.len() - 1]);
        let p = pending_of(t);
        assert(issues.drop_last() == t);
        match issues.last().fix {
            Some(f) => {
                assert(pending_of(issues) == p.push((issues.last().rule_id, f)));
                assert(crate::fixer::fix_fits(src, f));
                assert forall|k: int| 0 <= k < pending_of(issues).len() implies crate::fixer::fix_fits(src, #[trigger] pending_of(issues)[k].1) by {
                    if k < p.len() {
                        assert(pending_of(issues)[k] == p[k]);
                    }
                }
            },
            None => {
                assert(pending_of(issues) == p);
            },
        }
    }
}

/// Every applied fix of a pass is one of the given fixes.
proof fn lemma_applied_from(fixes: Seq<FixView>, k: int)
    requires
        0 <= k < crate::fixer::pass_groups(fixes).0.len(),
    ensures
        fixes.contains(crate::fixer::pass_groups(fixes).0[k]),
{
    broadcast use vstd::seq_lib::group_to_multiset_ensures;

    crate::fixer::lemma_pass_groups(fixes);
    let g = crate::fixer::pass_groups(fixes);
    let x = g.0[k];
    assert(g.0.to_multiset().count(x) > 0);
    assert(fixes.to_multiset().count(x) > 0);
}

/// Some lint outcome of `src` leaves `fix` nothing to do: no fix of it can be
/// applied, or applying them would give a source too long to index.
pub open spec fn settled(rules: Seq<Box<dyn Rule>>, src: Seq<char>) -> bool {
    exists|issues: Seq<IssueView>|
        #![trigger pending_of(issues)]
        lint_outcome(src, rules, issues) && {
            let applied = crate::fixer::pass_groups(fixes_of(pending_of(issues))).0;
            applied.len() == 0 || crate::text::byte_len(crate::fixer::splice(src, applied, 0)) == usize::MAX
        }
}

/// No lint outcome of `src` has a fix that a pass would apply.
pub open spec fn clean(rules: Seq<Box<dyn Rule>>, src: Seq<char>) -> bool {
    forall|issues: Seq<IssueView>|
        #[trigger] lint_outcome(src, rules, issues) ==> crate::fixer::pass_groups(fixes_of(pending_of(issues))).0.len() == 0
}

/// A source that `fix` settled on needs no further pass: where the rules lint
/// it one way only, and applying the fixes of that lint would not make a
/// source too long to index, no lint outcome of it has a fix to apply (so
/// fixing it again runs one pass and changes nothing, see `fix`).
pub proof fn lemma_settled_is_clean(rules: Seq<Box<dyn Rule>>, src: Seq<char>)
    requires
        settled(rules, src),
        forall|a: Seq<IssueView>, b: Seq<IssueView>|
            lint_outcome(src, rules, a) && lint_outcome(src, rules, b) ==> a == b,
        forall|a: Seq<IssueView>|
            #[trigger] lint_outcome(src, rules, a) ==> crate::text::byte_len(
                crate::fixer::splice(src, crate::fixer::pass_groups(fixes_of(pending_of(a))).0, 0),
            ) < usize::MAX,
    ensures
        clean(rules, src),
{
    let w = choose|issues: Seq<IssueView>|
        #![trigger pending_of(issues)]
        lint_outcome(src, rules, issues) && {
            let applied = crate::fixer::pass_groups(fixes_of(pending_of(issues))).0;
            applied.len() == 0 || crate::text::byte_len(crate::fixer::splice(src, applied, 0)) == usize::MAX
        };
    assert forall|issues: Seq<IssueView>| #[trigger] lint_outcome(src, rules, issues) implies crate::fixer::pass_groups(
        fixes_of(pending_of(issues)),
    ).0.len() == 0 by {
        assert(issues == w);
    }
}

/// Lints and fixes `source` repeatedly: each pass lints the current source,
/// applies the fixes of the issues found (overlapping ones are left for the
/// next pass) and lints again, until a pass finds no fix to apply or
/// `MAX_PASSES` passes have run.
pub fn fix(source: &str, rules: &[Box<dyn Rule>]) -> (r: FixResult)
    requires
        crate::text::byte_len(source@) < usize::MAX,
    ensures
        1 <= r.passes <= MAX_PASSES,
        r.hit_max_passes ==> r.passes == MAX_PASSES,
        !r.hit_max_passes ==> settled(rules@, r.fixed_source@),
        lint_outcome(r.fixed_source@, rules@, crate::rule::issues_view(r.remaining_issues@)),
        exists|passes: Seq<PassRecord>|
            #![trigger all_applied(passes)]
            pass_chain(rules@, source@, passes, r.fixed_source@)
                && r.applied_fixes@.map_values(|a: AppliedFix| a@) == all_applied(passes)
                && (if r.hit_max_passes {
                passes.len() == r.passes
            } else {
                passes.len() + 1 == r.passes
            }),
        clean(rules@, source@) ==> r.passes == 1 && !r.hit_max_passes && r.applied_fixes@.len() == 0
            && r.fixed_source@ == source@,
        passes_numbered(
            r.applied_fixes@.map_values(|a: AppliedFix| a@),
            if r.hit_max_passes {
                r.passes as int
            } else {
                r.passes - 1
            },
        ),
{
    let mut current = source.to_owned();
    let mut applied_fixes: Vec<AppliedFix> = Vec::new();
    let mut passes: usize = 0;
    let mut hit_max = false;
    let mut done = false;
    let ghost mut records: Seq<PassRecord> = seq![];
    assert(applied_fixes@.map_values(|a: AppliedFix| a@) =~= Seq::<AppliedFixView>::empty());
    while !done
        invariant
            crate::text::byte_len(current@) < usize::MAX,
            passes <= MAX_PASSES,
            !done ==> passes < MAX_PASSES,
            done ==> passes >= 1,
            hit_max ==> passes == MAX_PASSES,
            done && !hit_max ==> settled(rules@, current@),
            records.len() <= passes,
            !done ==> records.len() == passes,
            done && hit_max ==> records.len() == passes,
            done && !hit_max ==> records.len() + 1 == passes,
            clean(rules@, source@) && passes >= 1 ==> done && !hit_max && records.len() == 0,
            pass_chain(rules@, source@, records, current@),
            applied_fixes@.map_values(|a: AppliedFix| a@) == all_applied(records),
            forall|k: int| 0 <= k < applied_fixes@.len() ==> 1 <= #[trigger] applied_fixes@[k].pass <= passes,
        decreases MAX_PASSES - passes,
    {
        passes += 1;
        let issues = lint(current.as_str(), rules);
        let pending = collect_pending(&issues);
        if pending.len() == 0 {
            proof {
                let iv = crate::rule::issues_view(issues@);
                assert(fixes_of(pending_of(iv)) =~= Seq::<FixView>::empty());
                assert(crate::fixer::pass_groups(fixes_of(pending_of(iv))).0.len() == 0);
            }
            done = true;
        } else {
            let mut fixes: Vec<Fix> = Vec::new();
            let mut k: usize = 0;
            while k < pending.len()
                invariant
                    k <= pending@.len(),
                    crate::fixer::fixes_view(fixes@) == fixes_of(pending_view(pending@)).take(k as int),
                decreases pending@.len() - k,
            {
                let ghost prev = fixes@;
                let c = pending[k].1.clone();
                assert(c@ == fixes_of(pending_view(pending@))[k as int]);
                fixes.push(c);
                assert(crate::fixer::fixes_view(fixes@) =~= crate::fixer::fixes_view(prev).push(c@));
                assert(crate::fixer::fixes_view(fixes@) =~= fixes_of(pending_view(pending@)).take(k + 1));
                k += 1;
            }
            assert(fixes_of(pending_view(pending@)).take(pending@.len() as int) =~= fixes_of(pending_view(pending@)));
            let ghost fv = crate::fixer::fixes_view(fixes@);
            proof {
                lemma_pending_fit(current@, crate::rule::issues_view(issues@));
                assert forall|k: int| 0 <= k < crate::fixer::pass_groups(fv).0.len() implies crate::fixer::fix_fits(
                    current@,
                    #[trigger] crate::fixer::pass_groups(fv).0[k],
                ) by {
                    lemma_applied_from(fv, k);
                    let m = choose|m: int| 0 <= m < fv.len() && fv[m] == crate::fixer::pass_groups(fv).0[k];
                    assert(fv[m] == pending_of(crate::rule::issues_view(issues@))[m].1);
                }
            }
            let (next, applied, _dropped) = apply_fixes(current.as_str(), fixes.as_slice());
            if applied.len() == 0 || crate::text::str_byte_len(next.as_str()) == usize::MAX {
                proof {
                    let iv = crate::rule::issues_view(issues@);
                    assert(pending_of(iv) == pending_view(pending@));
                }
                done = true;
            } else {
                let ghost rec = PassRecord { source: current@, pending: pending_view(pending@) };
                let ghost before = applied_fixes@.map_values(|a: AppliedFix| a@);
                let mut j: usize = 0;
                while j < applied.len()
                    invariant
                        j <= applied@.len(),
                        1 <= passes,
                        records.len() + 1 == passes,
                        crate::fixer::fixes_view(applied@) == pass_applied(rec),
                        rec.pending == pending_view(pending@),
                        applied_fixes@.map_values(|a: AppliedFix| a@) == before + applied_records(rec, passes).take(j as int),
                        forall|k: int| 0 <= k < applied_fixes@.len() ==> 1 <= #[trigger] applied_fixes@[k].pass <= passes,
                    decreases applied@.len() - j,
                {
                    let af = &applied[j];
                    let rid = rule_id_of(&pending, af);
                    let ghost prev = applied_fixes@;
                    let newa = AppliedFix {
                        rule_id: rid,
                        range: af.range.start..af.range.end,
                        replacement: af.replacement.clone(),
                        pass: passes,
                    };
                    assert(pass_applied(rec)[j as int] == af@);
                    assert(newa@ == applied_records(rec, passes)[j as int]);
                    applied_fixes.push(newa);
                    assert(applied_fixes@.map_values(|a: AppliedFix| a@) =~= prev.map_values(|a: AppliedFix| a@).push(newa@));
                    assert(applied_fixes@.map_values(|a: AppliedFix| a@) =~= before + applied_records(rec, passes).take(j + 1));
                    j += 1;
                }
                assert(applied_records(rec, passes).take(applied@.len() as int) =~= applied_records(rec, passes));
                proof {
                    assert(valid_pass(rules@, rec));
                    let old_records = records;
                    records = records.push(rec);
                    assert(records.drop_last() =~= old_records);
                    assert(records.last() == rec);
                    assert(all_applied(records) == all_applied(old_records) + applied_records(rec, passes));
                    assert(pass_chain(rules@, source@, records, next@)) by {
                        assert forall|k: int| 0 <= k < records.len() implies valid_pass(rules@, #[trigger] records[k]) by {
                            if k < old_records.len() {
                                assert(records[k] == old_records[k]);
                            }
                        }
                        if old_records.len() > 0 {
                            assert forall|k: int| 0 <= k < records.len() - 1 implies #[trigger] records[k + 1].source == pass_result(records[k]) by {
                                if k < old_records.len() - 1 {
                                    assert(records[k + 1] == old_records[k + 1]);
                                }
                            }
                        }
                    }
                }
                current = next;
                if passes >= MAX_PASSES {
                    hit_max = true;
                    done = true;
                }
            }
        }
    }
    proof {
        assert forall|k: int| 0 <= k < records.len() implies pass_applied(#[trigger] records[k]).len() > 0 by {
            assert(valid_pass(rules@, records[k]));
        }
        lemma_pass_numbers(records);
    }
    let remaining_issues = lint(current.as_str(), rules);
    FixResult { fixed_source: current, applied_fixes, remaining_issues, passes, hit_max_passes: hit_max }
}


/// Number of the preset rules `build_rules` knows.
pub const PRESET_RULE_COUNT: usize = 26;

/// The preset of preset rule `k`.
pub open spec fn preset_of(k: usize) -> Seq<char> {
    match k {
        0 => "@textlint-ja/preset-ai-writing"@,
        1 => "@textlint-ja/preset-ai-writing"@,
        2 => "@textlint-ja/preset-ai-writing"@,
        3 => "@textlint-ja/preset-ai-writing"@,
        4 => "@textlint-ja/preset-ai-writing"@,
        5 => "preset-ja-technical-writing"@,
        6 => "preset-ja-technical-writing"@,
        7 => "preset-ja-technical-writing"@,
        8 => "preset-ja-technical-writing"@,
        9 => "preset-ja-technical-writing"@,
        10 => "preset-ja-technical-writing"@,
        11 => "preset-ja-technical-writing"@,
        12 => "preset-ja-technical-writing"@,
        13 => "preset-ja-technical-writing"@,
        14 => "preset-ja-technical-writing"@,
        15 => "preset-ja-technical-writing"@,
        16 => "preset-ja-technical-writing"@,
        17 => "preset-ja-technical-writing"@,
        18 => "preset-ja-technical-writing"@,
        19 => "preset-ja-technical-writing"@,
        20 => "preset-ja-technical-writing"@,
        21 => "preset-ja-technical-writing"@,
        22 => "preset-ja-technical-writing"@,
        23 => "preset-ja-technical-writing"@,
        24 => "preset-ja-spacing"@,
        25 => "preset-ja-spacing"@,
        _ => ""@,
    }
}

/// The name of preset rule `k` in its preset.
pub open spec fn child_of(k: usize) -> Seq<char> {
    match k {
        0 => "no-ai-emphasis-patterns"@,
        1 => "no-ai-hype-expressions"@,
        2 => "no-ai-list-formatting"@,
        3 => "ai-tech-writing-guideline"@,
        4 => "no-ai-colon-continuation"@,
        5 => "sentence-length"@,
        6 => "max-comma"@,
        7 => "max-ten"@,
        8 => "no-zero-width-spaces"@,
        9 => "no-hankaku-kana"@,
        10 => "no-nfd"@,
        11 => "no-invalid-control-character"@,
        12 => "no-exclamation-question-mark"@,
        13 => "ja-unnatural-alphabet"@,
        14 => "no-doubled-conjunction"@,
        15 => "no-doubled-joshi"@,
        16 => "no-mix-dearu-desumasu"@,
        17 => "no-double-negative-ja"@,
        18 => "no-unmatched-pair"@,
        19 => "ja-no-mixed-period"@,
        20 => "ja-no-redundant-expression"@,
        21 => "ja-no-successive-word"@,
        22 => "no-doubled-conjunctive-particle-ga"@,
        23 => "ja-no-abusage"@,
        24 => "ja-no-space-between-full-width"@,
        25 => "ja-space-between-half-and-full-width"@,
        _ => ""@,
    }
}

/// A rule that `build_rules` makes, as its own type.
pub enum BuiltRule<T> {
    EmphasisPatterns(rules::ai_writing::no_ai_emphasis_patterns::NoAiEmphasisPatterns),
    HypeExpressions(rules::ai_writing::no_ai_hype_expressions::NoAiHypeExpressions),
    ListFormatting(rules::ai_writing::no_ai_list_formatting::NoAiListFormatting),
    TechWritingGuideline(rules::ai_writing::ai_tech_writing_guideline::AiTechWritingGuideline),
    ColonContinuation(rules::ai_writing::no_ai_colon_continuation::NoAiColonContinuation<T>),
    SentenceLength(rules::jt::sentence_length::SentenceLength),
    MaxComma(rules::jt::max_comma::MaxComma),
    MaxTen(rules::jt::max_ten::MaxTen<T>),
    ZeroWidthSpaces(rules::jt::no_zero_width_spaces::NoZeroWidthSpaces),
    HankakuKana(rules::jt::no_hankaku_kana::NoHankakuKana),
    Nfd(rules::jt::no_nfd::NoNfd),
    InvalidControlCharacter(rules::jt::no_invalid_control_character::NoInvalidControlCharacter),
    ExclamationQuestionMark(rules::jt::no_exclamation_question_mark::NoExclamationQuestionMark),
    UnnaturalAlphabet(rules::jt::ja_unnatural_alphabet::JaUnnaturalAlphabet),
    DoubledConjunction(rules::jt::no_doubled_conjunction::NoDoubledConjunction<T>),
    DoubledJoshi(rules::jt::no_doubled_joshi::NoDoubledJoshi<T>),
    MixDearuDesumasu(rules::jt::no_mix_dearu_desumasu::NoMixDearuDesumasu<T>),
    DoubleNegative(rules::jt::no_double_negative_ja::NoDoubleNegativeJa<T>),
    UnmatchedPair(rules::jt::no_unmatched_pair::NoUnmatchedPair),
    MixedPeriod(rules::jt::ja_no_mixed_period::JaNoMixedPeriod),
    RedundantExpression(rules::jt::ja_no_redundant_expression::JaNoRedundantExpression),
    SuccessiveWord(rules::jt::ja_no_successive_word::JaNoSuccessiveWord<T>),
    ConjunctiveParticleGa(rules::jt::no_doubled_conjunctive_particle_ga::NoDoubledConjunctiveParticleGa<T>),
    Abusage(rules::jt::ja_no_abusage::JaNoAbusage),
    NoSpaceBetweenFullWidth(rules::ja_spacing::ja_no_space_between_full_width::JaNoSpaceBetweenFullWidth),
    SpaceBetweenHalfAndFullWidth(rules::ja_spacing::ja_space_between_half_and_full_width::JaSpaceBetweenHalfAndFullWidth),
    MidSentenceBreak(rules::unslop::no_mid_sentence_break::NoMidSentenceBreak),
    Prh(Prh),
}

impl<T: Tokenizer> Rule for BuiltRule<T> {
    open spec fn spec_id(&self) -> Seq<char> {
        match self {
            BuiltRule::EmphasisPatterns(x) => x.spec_id(),
            BuiltRule::HypeExpressions(x) => x.spec_id(),
            BuiltRule::ListFormatting(x) => x.spec_id(),
            BuiltRule::TechWritingGuideline(x) => x.spec_id(),
            BuiltRule::ColonContinuation(x) => x.spec_id(),
            BuiltRule::SentenceLength(x) => x.spec_id(),
            BuiltRule::MaxComma(x) => x.spec_id(),
            BuiltRule::MaxTen(x) => x.spec_id(),
            BuiltRule::ZeroWidthSpaces(x) => x.spec_id(),
            BuiltRule::HankakuKana(x) => x.spec_id(),
            BuiltRule::Nfd(x) => x.spec_id(),
            BuiltRule::InvalidControlCharacter(x) => x.spec_id(),
            BuiltRule::ExclamationQuestionMark(x) => x.spec_id(),
            BuiltRule::UnnaturalAlphabet(x) => x.spec_id(),
            BuiltRule::DoubledConjunction(x) => x.spec_id(),
            BuiltRule::DoubledJoshi(x) => x.spec_id(),
            BuiltRule::MixDearuDesumasu(x) => x.spec_id(),
            BuiltRule::DoubleNegative(x) => x.spec_id(),
            BuiltRule::UnmatchedPair(x) => x.spec_id(),
            BuiltRule::MixedPeriod(x) => x.spec_id(),
            BuiltRule::RedundantExpression(x) => x.spec_id(),
            BuiltRule::SuccessiveWord(x) => x.spec_id(),
            BuiltRule::ConjunctiveParticleGa(x) => x.spec_id(),
            BuiltRule::Abusage(x) => x.spec_id(),
            BuiltRule::NoSpaceBetweenFullWidth(x) => x.spec_id(),
            BuiltRule::SpaceBetweenHalfAndFullWidth(x) => x.spec_id(),
            BuiltRule::MidSentenceBreak(x) => x.spec_id(),
            BuiltRule::Prh(x) => x.spec_id(),
        }
    }

    open spec fn accepts(&self, doc: crate::document::DocumentView, issues: Seq<IssueView>) -> bool {
        match self {
            BuiltRule::EmphasisPatterns(x) => x.accepts(doc, issues),
            BuiltRule::HypeExpressions(x) => x.accepts(doc, issues),
            BuiltRule::ListFormatting(x) => x.accepts(doc, issues),
            BuiltRule::TechWritingGuideline(x) => x.accepts(doc, issues),
            BuiltRule::ColonContinuation(x) => x.accepts(doc, issues),
            BuiltRule::SentenceLength(x) => x.accepts(doc, issues),
            BuiltRule::MaxComma(x) => x.accepts(doc, issues),
            BuiltRule::MaxTen(x) => x.accepts(doc, issues),
            BuiltRule::ZeroWidthSpaces(x) => x.accepts(doc, issues),
            BuiltRule::HankakuKana(x) => x.accepts(doc, issues),
            BuiltRule::Nfd(x) => x.accepts(doc, issues),
            BuiltRule::InvalidControlCharacter(x) => x.accepts(doc, issues),
            BuiltRule::ExclamationQuestionMark(x) => x.accepts(doc, issues),
            BuiltRule::UnnaturalAlphabet(x) => x.accepts(doc, issues),
            BuiltRule::DoubledConjunction(x) => x.accepts(doc, issues),
            BuiltRule::DoubledJoshi(x) => x.accepts(doc, issues),
            BuiltRule::MixDearuDesumasu(x) => x.accepts(doc, issues),
            BuiltRule::DoubleNegative(x) => x.accepts(doc, issues),
            BuiltRule::UnmatchedPair(x) => x.accepts(doc, issues),
            BuiltRule::MixedPeriod(x) => x.accepts(doc, issues),
            BuiltRule::RedundantExpression(x) => x.accepts(doc, issues),
            BuiltRule::SuccessiveWord(x) => x.accepts(doc, issues),
            BuiltRule::ConjunctiveParticleGa(x) => x.accepts(doc, issues),
            BuiltRule::Abusage(x) => x.accepts(doc, issues),
            BuiltRule::NoSpaceBetweenFullWidth(x) => x.accepts(doc, issues),
            BuiltRule::SpaceBetweenHalfAndFullWidth(x) => x.accepts(doc, issues),
            BuiltRule::MidSentenceBreak(x) => x.accepts(doc, issues),
            BuiltRule::Prh(x) => x.accepts(doc, issues),
        }
    }

    fn id(&self) -> (r: &str) {
        match self {
            BuiltRule::EmphasisPatterns(x) => x.id(),
            BuiltRule::HypeExpressions(x) => x.id(),
            BuiltRule::ListFormatting(x) => x.id(),
            BuiltRule::TechWritingGuideline(x) => x.id(),
            BuiltRule::ColonContinuation(x) => x.id(),
            BuiltRule::SentenceLength(x) => x.id(),
            BuiltRule::MaxComma(x) => x.id(),
            BuiltRule::MaxTen(x) => x.id(),
            BuiltRule::ZeroWidthSpaces(x) => x.id(),
            BuiltRule::HankakuKana(x) => x.id(),
            BuiltRule::Nfd(x) => x.id(),
            BuiltRule::InvalidControlCharacter(x) => x.id(),
            BuiltRule::ExclamationQuestionMark(x) => x.id(),
            BuiltRule::UnnaturalAlphabet(x) => x.id(),
            BuiltRule::DoubledConjunction(x) => x.id(),
            BuiltRule::DoubledJoshi(x) => x.id(),
            BuiltRule::MixDearuDesumasu(x) => x.id(),
            BuiltRule::DoubleNegative(x) => x.id(),
            BuiltRule::UnmatchedPair(x) => x.id(),
            BuiltRule::MixedPeriod(x) => x.id(),
            BuiltRule::RedundantExpression(x) => x.id(),
            BuiltRule::SuccessiveWord(x) => x.id(),
            BuiltRule::ConjunctiveParticleGa(x) => x.id(),
            BuiltRule::Abusage(x) => x.id(),
            BuiltRule::NoSpaceBetweenFullWidth(x) => x.id(),
            BuiltRule::SpaceBetweenHalfAndFullWidth(x) => x.id(),
            BuiltRule::MidSentenceBreak(x) => x.id(),
            BuiltRule::Prh(x) => x.id(),
        }
    }

    fn check(&self, doc: &Document) -> (issues: Vec<Issue>) {
        match self {
            BuiltRule::EmphasisPatterns(x) => x.check(doc),
            BuiltRule::HypeExpressions(x) => x.check(doc),
            BuiltRule::ListFormatting(x) => x.check(doc),
            BuiltRule::TechWritingGuideline(x) => x.check(doc),
            BuiltRule::ColonContinuation(x) => x.check(doc),
            BuiltRule::SentenceLength(x) => x.check(doc),
            BuiltRule::MaxComma(x) => x.check(doc),
            BuiltRule::MaxTen(x) => x.check(doc),
            BuiltRule::ZeroWidthSpaces(x) => x.check(doc),
            BuiltRule::HankakuKana(x) => x.check(doc),
            BuiltRule::Nfd(x) => x.check(doc),
            BuiltRule::InvalidControlCharacter(x) => x.check(doc),
            BuiltRule::ExclamationQuestionMark(x) => x.check(doc),
            BuiltRule::UnnaturalAlphabet(x) => x.check(doc),
            BuiltRule::DoubledConjunction(x) => x.check(doc),
            BuiltRule::DoubledJoshi(x) => x.check(doc),
            BuiltRule::MixDearuDesumasu(x) => x.check(doc),
            BuiltRule::DoubleNegative(x) => x.check(doc),
            BuiltRule::UnmatchedPair(x) => x.check(doc),
            BuiltRule::MixedPeriod(x) => x.check(doc),
            BuiltRule::RedundantExpression(x) => x.check(doc),
            BuiltRule::SuccessiveWord(x) => x.check(doc),
            BuiltRule::ConjunctiveParticleGa(x) => x.check(doc),
            BuiltRule::Abusage(x) => x.check(doc),
            BuiltRule::NoSpaceBetweenFullWidth(x) => x.check(doc),
            BuiltRule::SpaceBetweenHalfAndFullWidth(x) => x.check(doc),
            BuiltRule::MidSentenceBreak(x) => x.check(doc),
            BuiltRule::Prh(x) => x.check(doc),
        }
    }
}

/// The id that preset rule `k` reports under.
pub open spec fn id_of(k: usize) -> Seq<char> {
    match k {
        0 => "@textlint-ja/preset-ai-writing/no-ai-emphasis-patterns"@,
        1 => "@textlint-ja/preset-ai-writing/no-ai-hype-expressions"@,
        2 => "@textlint-ja/preset-ai-writing/no-ai-list-formatting"@,
        3 => "@textlint-ja/preset-ai-writing/ai-tech-writing-guideline"@,
        4 => "@textlint-ja/preset-ai-writing/no-ai-colon-continuation"@,
        5 => "sentence-length"@,
        6 => "max-comma"@,
        7 => "max-ten"@,
        8 => "no-zero-width-spaces"@,
        9 => "no-hankaku-kana"@,
        10 => "no-nfd"@,
        11 => "no-invalid-control-character"@,
        12 => "no-exclamation-question-mark"@,
        13 => "ja-unnatural-alphabet"@,
        14 => "no-doubled-conjunction"@,
        15 => "no-doubled-joshi"@,
        16 => "no-mix-dearu-desumasu"@,
        17 => "no-double-negative-ja"@,
        18 => "no-unmatched-pair"@,
        19 => "ja-no-mixed-period"@,
        20 => "ja-no-redundant-expression"@,
        21 => "ja-no-successive-word"@,
        22 => "no-doubled-conjunctive-particle-ga"@,
        23 => "ja-no-abusage"@,
        24 => "ja-no-space-between-full-width"@,
        25 => "ja-space-between-half-and-full-width"@,
        _ => ""@,
    }
}

/// `r` is preset rule `k`, with the `max` option that `rules` gives it.
pub open spec fn preset_built<T>(r: BuiltRule<T>, k: usize, rules: Seq<(String, ConfigValue)>) -> bool {
    match k {
        0 => r is EmphasisPatterns,
        1 => r is HypeExpressions,
        2 => r is ListFormatting,
        3 => r is TechWritingGuideline,
        4 => r is ColonContinuation,
        5 => r matches BuiltRule::SentenceLength(x) && x.max == option_max_spec(rules, "sentence-length"@, 100),
        6 => r matches BuiltRule::MaxComma(x) && x.max == option_max_spec(rules, "max-comma"@, 3),
        7 => r matches BuiltRule::MaxTen(x) && x.max == option_max_spec(rules, "max-ten"@, 3),
        8 => r is ZeroWidthSpaces,
        9 => r is HankakuKana,
        10 => r is Nfd,
        11 => r is InvalidControlCharacter,
        12 => r is ExclamationQuestionMark,
        13 => r is UnnaturalAlphabet,
        14 => r is DoubledConjunction,
        15 => r is DoubledJoshi,
        16 => r is MixDearuDesumasu,
        17 => r is DoubleNegative,
        18 => r is UnmatchedPair,
        19 => r is MixedPeriod,
        20 => r is RedundantExpression,
        21 => r is SuccessiveWord,
        22 => r is ConjunctiveParticleGa,
        23 => r is Abusage,
        24 => r is NoSpaceBetweenFullWidth,
        25 => r is SpaceBetweenHalfAndFullWidth,
        _ => false,
    }
}

/// `r` is the rule of choice `c`: preset rule `k` with its options, the
/// mid-sentence break rule, or the prh rule of dictionary `i` of `prh`.
pub open spec fn built_as<T>(r: BuiltRule<T>, c: RuleChoice, rules: Seq<(String, ConfigValue)>, prh: Seq<Prh>) -> bool {
    match c {
        RuleChoice::Preset(k) => preset_built(r, k, rules),
        RuleChoice::MidSentenceBreak => r is MidSentenceBreak,
        RuleChoice::Prh(i) => r matches BuiltRule::Prh(p) && p == prh[i as int],
    }
}

/// The id of the rule of choice `c`.
pub open spec fn choice_id(c: RuleChoice) -> Seq<char> {
    match c {
        RuleChoice::Preset(k) => id_of(k),
        RuleChoice::MidSentenceBreak => "no-mid-sentence-break"@,
        RuleChoice::Prh(_) => "prh"@,
    }
}

/// The rule of a choice reports under the id of the choice.
pub proof fn lemma_built_id<T: Tokenizer>(r: BuiltRule<T>, c: RuleChoice, rules: Seq<(String, ConfigValue)>, prh: Seq<Prh>)
    requires
        built_as(r, c, rules, prh),
    ensures
        r.spec_id() == choice_id(c),
{
}

fn preset_names(k: usize) -> (r: (&'static str, &'static str))
    requires
        k < PRESET_RULE_COUNT,
    ensures
        r.0@ == preset_of(k),
        r.1@ == child_of(k),
{
    match k {
        0 => ("@textlint-ja/preset-ai-writing", "no-ai-emphasis-patterns"),
        1 => ("@textlint-ja/preset-ai-writing", "no-ai-hype-expressions"),
        2 => ("@textlint-ja/preset-ai-writing", "no-ai-list-formatting"),
        3 => ("@textlint-ja/preset-ai-writing", "ai-tech-writing-guideline"),
        4 => ("@textlint-ja/preset-ai-writing", "no-ai-colon-continuation"),
        5 => ("preset-ja-technical-writing", "sentence-length"),
        6 => ("preset-ja-technical-writing", "max-comma"),
        7 => ("preset-ja-technical-writing", "max-ten"),
        8 => ("preset-ja-technical-writing", "no-zero-width-spaces"),
        9 => ("preset-ja-technical-writing", "no-hankaku-kana"),
        10 => ("preset-ja-technical-writing", "no-nfd"),
        11 => ("preset-ja-technical-writing", "no-invalid-control-character"),
        12 => ("preset-ja-technical-writing", "no-exclamation-question-mark"),
        13 => ("preset-ja-technical-writing", "ja-unnatural-alphabet"),
        14 => ("preset-ja-technical-writing", "no-doubled-conjunction"),
        15 => ("preset-ja-technical-writing", "no-doubled-joshi"),
        16 => ("preset-ja-technical-writing", "no-mix-dearu-desumasu"),
        17 => ("preset-ja-technical-writing", "no-double-negative-ja"),
        18 => ("preset-ja-technical-writing", "no-unmatched-pair"),
        19 => ("preset-ja-technical-writing", "ja-no-mixed-period"),
        20 => ("preset-ja-technical-writing", "ja-no-redundant-expression"),
        21 => ("preset-ja-technical-writing", "ja-no-successive-word"),
        22 => ("preset-ja-technical-writing", "no-doubled-conjunctive-particle-ga"),
        23 => ("preset-ja-technical-writing", "ja-no-abusage"),
        24 => ("preset-ja-spacing", "ja-no-space-between-full-width"),
        25 => ("preset-ja-spacing", "ja-space-between-half-and-full-width"),
        _ => ("", ""),
    }
}

/// The `max` option of a rule of the technical-writing preset, or `default`.
pub open spec fn option_max_spec(rules: Seq<(String, ConfigValue)>, child: Seq<char>, default: usize) -> usize {
    match crate::config::preset_child_option_spec(rules, "preset-ja-technical-writing"@, child, "max"@) {
        Some(ConfigValue::Number(Some(v))) => v as usize,
        _ => default,
    }
}

/// The `max` option of a rule of the technical-writing preset, or `default`.
pub fn option_max(rc: &TextlintRc, child: &str, default: usize) -> (r: usize)
    requires
        rc.wf(),
    ensures
        r == option_max_spec(rc.rules@, child@, default),
{
    match rc.preset_child_option("preset-ja-technical-writing", child, "max") {
        Some(v) => match v.as_u64() {
            Some(n) => n as usize,
            None => default,
        },
        None => default,
    }
}

/// Appends preset rule `k`, made with the options of `rc`.
fn push_rule<T: Tokenizer + Clone>(out: &mut Vec<BuiltRule<T>>, k: usize, rc: &TextlintRc, tokenizer: &T)
    requires
        k < PRESET_RULE_COUNT,
        rc.wf(),
    ensures
        final(out)@.len() == old(out)@.len() + 1,
        final(out)@.subrange(0, old(out)@.len() as int) == old(out)@,
        preset_built(final(out)@[old(out)@.len() as int], k, rc.rules@),
{
    match k {
        0 => out.push(BuiltRule::EmphasisPatterns(rules::ai_writing::no_ai_emphasis_patterns::NoAiEmphasisPatterns)),
        1 => out.push(BuiltRule::HypeExpressions(rules::ai_writing::no_ai_hype_expressions::NoAiHypeExpressions)),
        2 => out.push(BuiltRule::ListFormatting(rules::ai_writing::no_ai_list_formatting::NoAiListFormatting)),
        3 => out.push(BuiltRule::TechWritingGuideline(rules::ai_writing::ai_tech_writing_guideline::AiTechWritingGuideline)),
        4 => out.push(BuiltRule::ColonContinuation(rules::ai_writing::no_ai_colon_continuation::NoAiColonContinuation { tokenizer: tokenizer.clone() })),
        5 => out.push(BuiltRule::SentenceLength(rules::jt::sentence_length::SentenceLength { max: option_max(rc, "sentence-length", 100) })),
        6 => out.push(BuiltRule::MaxComma(rules::jt::max_comma::MaxComma { max: option_max(rc, "max-comma", 3) })),
        7 => out.push(BuiltRule::MaxTen(rules::jt::max_ten::MaxTen { max: option_max(rc, "max-ten", 3), tokenizer: tokenizer.clone() })),
        8 => out.push(BuiltRule::ZeroWidthSpaces(rules::jt::no_zero_width_spaces::NoZeroWidthSpaces)),
        9 => out.push(BuiltRule::HankakuKana(rules::jt::no_hankaku_kana::NoHankakuKana)),
        10 => out.push(BuiltRule::Nfd(rules::jt::no_nfd::NoNfd)),
        11 => out.push(BuiltRule::InvalidControlCharacter(rules::jt::no_invalid_control_character::NoInvalidControlCharacter)),
        12 => out.push(BuiltRule::ExclamationQuestionMark(rules::jt::no_exclamation_question_mark::NoExclamationQuestionMark)),
        13 => out.push(BuiltRule::UnnaturalAlphabet(rules::jt::ja_unnatural_alphabet::JaUnnaturalAlphabet)),
        14 => out.push(BuiltRule::DoubledConjunction(rules::jt::no_doubled_conjunction::NoDoubledConjunction { tokenizer: tokenizer.clone() })),
        15 => out.push(BuiltRule::DoubledJoshi(rules::jt::no_doubled_joshi::NoDoubledJoshi { tokenizer: tokenizer.clone() })),
        16 => out.push(BuiltRule::MixDearuDesumasu(rules::jt::no_mix_dearu_desumasu::NoMixDearuDesumasu { tokenizer: tokenizer.clone() })),
        17 => out.push(BuiltRule::DoubleNegative(rules::jt::no_double_negative_ja::NoDoubleNegativeJa { tokenizer: tokenizer.clone() })),
        18 => out.push(BuiltRule::UnmatchedPair(rules::jt::no_unmatched_pair::NoUnmatchedPair)),
        19 => out.push(BuiltRule::MixedPeriod(rules::jt::ja_no_mixed_period::JaNoMixedPeriod)),
        20 => out.push(BuiltRule::RedundantExpression(rules::jt::ja_no_redundant_expression::JaNoRedundantExpression)),
        21 => out.push(BuiltRule::SuccessiveWord(rules::jt::ja_no_successive_word::JaNoSuccessiveWord { tokenizer: tokenizer.clone() })),
        22 => out.push(BuiltRule::ConjunctiveParticleGa(rules::jt::no_doubled_conjunctive_particle_ga::NoDoubledConjunctiveParticleGa { tokenizer: tokenizer.clone() })),
        23 => out.push(BuiltRule::Abusage(rules::jt::ja_no_abusage::JaNoAbusage)),
        24 => out.push(BuiltRule::NoSpaceBetweenFullWidth(rules::ja_spacing::ja_no_space_between_full_width::JaNoSpaceBetweenFullWidth)),
        25 => out.push(BuiltRule::SpaceBetweenHalfAndFullWidth(rules::ja_spacing::ja_space_between_half_and_full_width::JaSpaceBetweenHalfAndFullWidth)),
        _ => out.push(BuiltRule::ZeroWidthSpaces(rules::jt::no_zero_width_spaces::NoZeroWidthSpaces)),
    }
}

/// A rule that `build_rules` makes: preset rule `k`, the mid-sentence break
/// rule, or the prh rule of dictionary `k`.
#[derive(Debug, Clone, Copy, PartialEq, Eq, Structural)]
pub enum RuleChoice {
    Preset(usize),
    MidSentenceBreak,
    Prh(usize),
}

/// The enabled preset rules among the first `n`, in order.
pub open spec fn preset_choices(rules: Seq<(String, ConfigValue)>, n: int) -> Seq<RuleChoice>
    decreases n,
{
    if n <= 0 {
        seq![]
    } else if crate::config::preset_child_enabled_spec(rules, preset_of((n - 1) as usize), child_of((n - 1) as usize)) {
        preset_choices(rules, n - 1).push(RuleChoice::Preset((n - 1) as usize))
    } else {
        preset_choices(rules, n - 1)
    }
}

/// The rules `build_rules` makes: the enabled preset rules in order, then the
/// mid-sentence break rule where it is on, then one prh rule per dictionary
/// where prh is on.
pub open spec fn chosen(rules: Seq<(String, ConfigValue)>, prh_count: nat) -> Seq<RuleChoice> {
    preset_choices(rules, PRESET_RULE_COUNT as int) + (if crate::config::rule_enabled_spec(rules, "no-mid-sentence-break"@) {
        seq![RuleChoice::MidSentenceBreak]
    } else {
        seq![]
    }) + (if crate::config::rule_enabled_spec(rules, "prh"@) {
        Seq::new(prh_count, |i: int| RuleChoice::Prh(i as usize))
    } else {
        seq![]
    })
}

/// Which rules `rc` enables (see `chosen`).
pub fn choose_rules(rc: &TextlintRc, prh_count: usize) -> (r: Vec<RuleChoice>)
    requires
        rc.wf(),
    ensures
        r@ == chosen(rc.rules@, prh_count as nat),
{
    let mut out: Vec<RuleChoice> = Vec::new();
    let mut k: usize = 0;
    assert(out@ =~= preset_choices(rc.rules@, 0));
    while k < PRESET_RULE_COUNT
        invariant
            k <= PRESET_RULE_COUNT,
            rc.wf(),
            out@ == preset_choices(rc.rules@, k as int),
        decreases PRESET_RULE_COUNT - k,
    {
        let (preset, child) = preset_names(k);
        if rc.preset_child_enabled(preset, child) {
            out.push(RuleChoice::Preset(k));
        }
        k += 1;
    }
    let ghost after_presets = out@;
    if rc.rule_enabled("no-mid-sentence-break") {
        out.push(RuleChoice::MidSentenceBreak);
    }
    let ghost after_mid = out@;
    assert(after_mid =~= after_presets + (if crate::config::rule_enabled_spec(rc.rules@, "no-mid-sentence-break"@) {
        seq![RuleChoice::MidSentenceBreak]
    } else {
        seq![]
    }));
    if rc.rule_enabled("prh") {
        let mut i: usize = 0;
        while i < prh_count
            invariant
                i <= prh_count,
                out@ == after_mid + Seq::new(i as nat, |j: int| RuleChoice::Prh(j as usize)),
            decreases prh_count - i,
        {
            out.push(RuleChoice::Prh(i));
            assert(out@ =~= after_mid + Seq::new(i as nat + 1, |j: int| RuleChoice::Prh(j as usize)));
            i += 1;
        }
    } else {
        assert(out@ =~= after_mid + seq![]);
    }
    out
}


/// The rules that `rc` enables, one per choice of `choose_rules` and in its
/// order: the enabled preset rules with their options (the token rules cut
/// text with `tokenizer`), the mid-sentence break rule where it is on, and
/// one prh rule per dictionary of `prh` (those that `rc.prh_rule_paths`
/// names, loaded) where prh is on.
pub fn build_rules<T: Tokenizer + Clone>(rc: &TextlintRc, tokenizer: &T, prh: Vec<Prh>) -> (r: Vec<BuiltRule<T>>)
    requires
        rc.wf(),
    ensures
        r@.len() == chosen(rc.rules@, prh@.len() as nat).len(),
        forall|q: int|
            0 <= q < r@.len() ==> built_as(#[trigger] r@[q], chosen(rc.rules@, prh@.len() as nat)[q], rc.rules@, prh@),
        forall|q: int|
            0 <= q < r@.len() ==> (#[trigger] r@[q]).spec_id() == choice_id(chosen(rc.rules@, prh@.len() as nat)[q]),
{
    let ghost rules = rc.rules@;
    let ghost ps = prh@;
    let mut out: Vec<BuiltRule<T>> = Vec::new();
    let mut k: usize = 0;
    while k < PRESET_RULE_COUNT
        invariant
            k <= PRESET_RULE_COUNT,
            rc.wf(),
            rules == rc.rules@,
            out@.len() == preset_choices(rules, k as int).len(),
            forall|q: int| 0 <= q < out@.len() ==> built_as(#[trigger] out@[q], preset_choices(rules, k as int)[q], rules, ps),
        decreases PRESET_RULE_COUNT - k,
    {
        let (preset, child) = preset_names(k);
        let ghost before = out@;
        if rc.preset_child_enabled(preset, child) {
            push_rule(&mut out, k, rc, tokenizer);
            assert forall|q: int| 0 <= q < out@.len() implies built_as(#[trigger] out@[q], preset_choices(rules, k + 1)[q], rules, ps) by {
                if q < before.len() {
                    assert(out@[q] == out@.subrange(0, before.len() as int)[q]);
                }
            }
        }
        k += 1;
    }
    let ghost base = preset_choices(rules, PRESET_RULE_COUNT as int) + (if crate::config::rule_enabled_spec(rules, "no-mid-sentence-break"@) {
        seq![RuleChoice::MidSentenceBreak]
    } else {
        seq![]
    });
    let ghost before = out@;
    if rc.rule_enabled("no-mid-sentence-break") {
        out.push(BuiltRule::MidSentenceBreak(rules::unslop::no_mid_sentence_break::NoMidSentenceBreak));
    }
    assert(out@.len() == base.len());
    assert forall|q: int| 0 <= q < out@.len() implies built_as(#[trigger] out@[q], base[q], rules, ps) by {
        if q < before.len() {
            assert(out@[q] == before[q]);
        }
    }
    if rc.rule_enabled("prh") {
        let n = prh.len();
        let mut rest = prh;
        let mut j: usize = 0;
        while rest.len() > 0
            invariant
                rules == rc.rules@,
                ps.len() == n,
                j + rest@.len() == ps.len(),
                rest@ == ps.skip(j as int),
                out@.len() == base.len() + j,
                forall|q: int| 0 <= q < out@.len() ==> built_as(#[trigger] out@[q], (base + Seq::new(j as nat, |i: int| RuleChoice::Prh(i as usize)))[q], rules, ps),
            decreases rest@.len(),
        {
            let ghost b2 = out@;
            let d = rest.remove(0);
            assert(d == ps[j as int]);
            out.push(BuiltRule::Prh(d));
            assert(rest@ =~= ps.skip(j + 1));
            assert forall|q: int| 0 <= q < out@.len() implies built_as(#[trigger] out@[q], (base + Seq::new(j as nat + 1, |i: int| RuleChoice::Prh(i as usize)))[q], rules, ps) by {
                if q < b2.len() {
                    assert(out@[q] == b2[q]);
                    assert((base + Seq::new(j as nat + 1, |i: int| RuleChoice::Prh(i as usize)))[q] == (base + Seq::new(j as nat, |i: int| RuleChoice::Prh(i as usize)))[q]);
                }
            }
            j += 1;
        }
        assert(chosen(rules, ps.len()) =~= base + Seq::new(j as nat, |i: int| RuleChoice::Prh(i as usize)));
    } else {
        assert(chosen(rules, ps.len()) =~= base);
    }
    assert forall|q: int| 0 <= q < out@.len() implies (#[trigger] out@[q]).spec_id() == choice_id(chosen(rules, ps.len())[q]) by {
        lemma_built_id(out@[q], chosen(rules, ps.len())[q], rules, ps);
    }
    out
}

/// The exit status of a run: 2 where a file could not be read or written,
/// else 1 where issues remain, else 0.
pub fn exit_code(io_error: bool, issues_left: bool) -> (r: u8)
    ensures
        r == (if io_error {
            2u8
        } else if issues_left {
            1u8
        } else {
            0u8
        }),
{
    if io_error {
        2
    } else if issues_left {
        1
    } else {
        0
    }
}

} // verus!

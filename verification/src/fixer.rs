//! Applies the fixes of one lint pass.
//!
//! Within a pass the fixes are sorted by their start (stably); a run of fixes
//! whose ranges overlap is dropped as a whole and left to the next pass, and
//! the remaining fixes replace their ranges of the source.

use vstd::prelude::*;
use crate::rule::{Fix, FixView};
use crate::text;
use crate::document::char_index;
use crate::text::char_index_at;

verus! {

/// The most lint/fix passes that `fix` runs.
pub const MAX_PASSES: usize = 10;

pub open spec fn fixes_view(s: Seq<Fix>) -> Seq<FixView> {
    s.map_values(|f: Fix| f@)
}

/// Inserts `x` after the last element whose start is not greater than its own.
pub open spec fn insert_by_start(s: Seq<FixView>, x: FixView) -> Seq<FixView>
    decreases s.len(),
{
    if s.len() == 0 {
        seq![x]
    } else if s.last().start <= x.start {
        s.push(x)
    } else {
        insert_by_start(s.drop_last(), x).push(s.last())
    }
}

/// `s` sorted by start, fixes with equal starts keeping their order.
pub open spec fn sort_by_start(s: Seq<FixView>) -> Seq<FixView>
    decreases s.len(),
{
    if s.len() == 0 {
        seq![]
    } else {
        insert_by_start(sort_by_start(s.drop_last()), s.last())
    }
}

pub open spec fn max_int(a: int, b: int) -> int {
    if a >= b {
        a
    } else {
        b
    }
}

/// The end (exclusive index) of the run of overlapping fixes that continues at
/// `j` while the run covers bytes up to `ge`.
pub open spec fn group_stop(s: Seq<FixView>, j: int, ge: int) -> int
    decreases s.len() - j,
{
    if 0 <= j < s.len() && s[j].start < ge {
        group_stop(s, j + 1, max_int(ge, s[j].end as int))
    } else {
        j
    }
}

pub proof fn lemma_group_stop(s: Seq<FixView>, j: int, ge: int)
    requires
        0 <= j,
    ensures
        j <= group_stop(s, j, ge),
        group_stop(s, j, ge) <= max_int(j, s.len() as int),
    decreases s.len() - j,
{
    if 0 <= j < s.len() && s[j].start < ge {
        lemma_group_stop(s, j + 1, max_int(ge, s[j].end as int));
    }
}

/// Splits sorted fixes from index `i` into (applied, dropped): a fix that
/// overlaps no neighbour is applied, a run of overlapping fixes is dropped.
pub open spec fn split_groups(s: Seq<FixView>, i: int) -> (Seq<FixView>, Seq<FixView>)
    decreases s.len() - i,
{
    if i < 0 || i >= s.len() {
        (seq![], seq![])
    } else {
        let j = group_stop(s, i + 1, s[i].end as int);
        proof {
            lemma_group_stop(s, i + 1, s[i].end as int);
        }
        let rest = split_groups(s, j);
        if j == i + 1 {
            (seq![s[i]] + rest.0, rest.1)
        } else {
            (rest.0, s.subrange(i, j) + rest.1)
        }
    }
}

/// The applied and dropped fixes of a pass.
pub open spec fn pass_groups(fixes: Seq<FixView>) -> (Seq<FixView>, Seq<FixView>) {
    split_groups(sort_by_start(fixes), 0)
}

/// A fix whose range runs forward between two chars of `src`.
pub open spec fn fix_fits(src: Seq<char>, f: FixView) -> bool {
    f.start <= f.end && text::is_boundary(src, f.start as int) && text::is_boundary(src, f.end as int)
}

/// Every fix of `fs` lies within `src`, between chars (see `fix_fits`).
pub open spec fn all_fit(src: Seq<char>, fs: Seq<FixView>) -> bool {
    forall|k: int| 0 <= k < fs.len() ==> fix_fits(src, #[trigger] fs[k])
}

/// The range of `f` clamped to `buf`: the end to the length of `buf`, the
/// start to the end.
pub open spec fn clamped(buf: Seq<char>, f: FixView) -> (int, int) {
    let e = if f.end <= text::byte_len(buf) {
        f.end as int
    } else {
        text::byte_len(buf) as int
    };
    let s = if f.start <= e {
        f.start as int
    } else {
        e
    };
    (s, e)
}

/// Both ends of the clamped range of `f` lie between chars of `buf`.
pub open spec fn clamp_ok(buf: Seq<char>, f: FixView) -> bool {
    text::is_boundary(buf, clamped(buf, f).0) && text::is_boundary(buf, clamped(buf, f).1)
}

/// `buf` with the clamped range of `f` replaced.
pub open spec fn clamp_apply(buf: Seq<char>, f: FixView) -> Seq<char> {
    let (s, e) = clamped(buf, f);
    buf.subrange(0, char_index(buf, s)) + f.replacement + buf.subrange(char_index(buf, e), buf.len() as int)
}

/// `fs` applied to `buf` from the last to the first, each clamped to the text
/// it is applied to.
pub open spec fn apply_back(buf: Seq<char>, fs: Seq<FixView>) -> Seq<char>
    decreases fs.len(),
{
    if fs.len() == 0 {
        buf
    } else {
        apply_back(clamp_apply(buf, fs.last()), fs.drop_last())
    }
}

/// Each fix of `fs`, applied from the last to the first, has its clamped range
/// between chars of the text it is applied to.
pub open spec fn back_ok(buf: Seq<char>, fs: Seq<FixView>) -> bool
    decreases fs.len(),
{
    fs.len() == 0 || (clamp_ok(buf, fs.last()) && back_ok(clamp_apply(buf, fs.last()), fs.drop_last()))
}

/// `src` with the ranges of `fs` (sorted, not overlapping) replaced, from char `from` on.
pub open spec fn splice(src: Seq<char>, fs: Seq<FixView>, from: int) -> Seq<char>
    decreases fs.len(),
{
    if fs.len() == 0 {
        src.subrange(from, src.len() as int)
    } else {
        let f = fs[0];
        src.subrange(from, char_index(src, f.start as int)) + f.replacement + splice(
            src,
            fs.drop_first(),
            char_index(src, f.end as int),
        )
    }
}

/// The fixes follow one another: each ends at or before the next starts.
pub open spec fn chained(fs: Seq<FixView>) -> bool {
    forall|k: int| 0 <= k < fs.len() - 1 ==> #[trigger] fs[k].end <= fs[k + 1].start
}

pub open spec fn sorted_by_start(s: Seq<FixView>) -> bool {
    forall|a: int, b: int| 0 <= a < b < s.len() ==> s[a].start <= s[b].start
}

proof fn lemma_insert_at(s: Seq<FixView>, x: FixView, p: int)
    requires
        0 <= p <= s.len(),
        p == 0 || s[p - 1].start <= x.start,
        forall|k: int| p <= k < s.len() ==> s[k].start > x.start,
    ensures
        insert_by_start(s, x) == s.insert(p, x),
    decreases s.len(),
{
    if s.len() == 0 {
        assert(s.insert(p, x) =~= seq![x]);
    } else if p == s.len() {
        assert(s.insert(p, x) =~= s.push(x));
    } else {
        let t = s.drop_last();
        lemma_insert_at(t, x, p);
        assert(s.insert(p, x) =~= t.insert(p, x).push(s.last()));
    }
}

proof fn lemma_insert_sorted(s: Seq<FixView>, x: FixView)
    requires
        sorted_by_start(s),
    ensures
        sorted_by_start(insert_by_start(s, x)),
        insert_by_start(s, x).to_multiset() == s.to_multiset().insert(x),
    decreases s.len(),
{
    broadcast use vstd::seq_lib::group_to_multiset_ensures;

    if s.len() == 0 {
        assert(seq![x] =~= Seq::<FixView>::empty().push(x));
    } else if s.last().start <= x.start {
    } else {
        let t = s.drop_last();
        assert(s =~= t.push(s.last()));
        lemma_insert_sorted(t, x);
        let r = insert_by_start(t, x);
        assert forall|a: int, b: int| 0 <= a < b < r.push(s.last()).len() implies r.push(
            s.last(),
        )[a].start <= r.push(s.last())[b].start by {
            if b == r.len() {
                let ra = r[a];
                assert(r.to_multiset().count(ra) > 0);
                assert(t.to_multiset().insert(x).count(ra) > 0);
                if ra != x {
                    assert(t.to_multiset().count(ra) > 0);
                    assert(t.contains(ra));
                    let m = choose|m: int| 0 <= m < t.len() && t[m] == ra;
                    assert(s[m] == ra);
                }
            }
        }
        assert(s.to_multiset() == t.to_multiset().insert(s.last()));
    }
}

pub proof fn lemma_sort_by_start(s: Seq<FixView>)
    ensures
        sorted_by_start(sort_by_start(s)),
        sort_by_start(s).to_multiset() == s.to_multiset(),
        sort_by_start(s).len() == s.len(),
    decreases s.len(),
{
    broadcast use vstd::seq_lib::group_to_multiset_ensures;

    if s.len() > 0 {
        let t = s.drop_last();
        assert(s =~= t.push(s.last()));
        lemma_sort_by_start(t);
        lemma_insert_sorted(sort_by_start(t), s.last());
        assert(sort_by_start(s).to_multiset().len() == s.to_multiset().len());
    } else {
        assert(sort_by_start(s) =~= Seq::<FixView>::empty());
    }
}

/// In sorted fixes, what `split_groups` returns from `i` on starts no earlier than fix `i`,
/// and its applied fixes follow one another.
pub proof fn lemma_split_groups(s: Seq<FixView>, i: int)
    requires
        sorted_by_start(s),
        0 <= i,
    ensures
        chained(split_groups(s, i).0),
        sorted_by_start(split_groups(s, i).0),
        i < s.len() ==> forall|k: int|
            0 <= k < split_groups(s, i).0.len() ==> s[i].start <= #[trigger] split_groups(s, i).0[k].start,
        split_groups(s, i).0.to_multiset().add(split_groups(s, i).1.to_multiset()) == (if i < s.len() {
            s.subrange(i, s.len() as int).to_multiset()
        } else {
            vstd::multiset::Multiset::<FixView>::empty()
        }),
    decreases s.len() - i,
{
    broadcast use vstd::seq_lib::group_to_multiset_ensures;

    if i < s.len() {
        let j = group_stop(s, i + 1, s[i].end as int);
        lemma_group_stop(s, i + 1, s[i].end as int);
        lemma_split_groups(s, j);
        let rest = split_groups(s, j);
        if j == i + 1 {
            let a = seq![s[i]] + rest.0;
            assert forall|k: int| 0 <= k < a.len() - 1 implies #[trigger] a[k].end <= a[k + 1].start by {
                if k == 0 {
                    assert(a[1] == rest.0[0]);
                    assert(j < s.len());
                    if s[j].start < s[i].end {
                        lemma_group_stop(s, j + 1, max_int(s[i].end as int, s[j].end as int));
                    }
                    assert(s[j].start >= s[i].end);
                } else {
                    assert(a[k] == rest.0[k - 1]);
                    assert(a[k + 1] == rest.0[k]);
                }
            }
            assert forall|k: int| 0 <= k < a.len() implies s[i].start <= #[trigger] a[k].start by {
                if k > 0 {
                    assert(a[k] == rest.0[k - 1]);
                }
            }
            assert forall|x: int, y: int| 0 <= x < y < a.len() implies a[x].start <= a[y].start by {
                if x > 0 {
                    assert(a[x] == rest.0[x - 1]);
                    assert(a[y] == rest.0[y - 1]);
                }
            }
        } else {
            assert forall|k: int| 0 <= k < rest.0.len() implies s[i].start <= #[trigger] rest.0[k].start by {
            }
        }
        lemma_multiset_split(s, i, j);
        vstd::seq_lib::lemma_multiset_commutative(seq![s[i]], rest.0);
        vstd::seq_lib::lemma_multiset_commutative(s.subrange(i, j), rest.1);
        if j == i + 1 {
            assert(s.subrange(i, j) =~= seq![s[i]]);
        }
    } else {
        assert(split_groups(s, i).0 =~= Seq::<FixView>::empty());
        assert(split_groups(s, i).1 =~= Seq::<FixView>::empty());
    }
}

proof fn lemma_multiset_split(s: Seq<FixView>, i: int, j: int)
    requires
        0 <= i <= j <= s.len(),
    ensures
        s.subrange(i, s.len() as int).to_multiset() == s.subrange(i, j).to_multiset().add(
            if j < s.len() {
                s.subrange(j, s.len() as int).to_multiset()
            } else {
                vstd::multiset::Multiset::<FixView>::empty()
            },
        ),
{
    broadcast use vstd::seq_lib::group_to_multiset_ensures;

    assert(s.subrange(i, s.len() as int) =~= s.subrange(i, j) + s.subrange(j, s.len() as int));
    vstd::seq_lib::lemma_multiset_commutative(s.subrange(i, j), s.subrange(j, s.len() as int));
    if j == s.len() {
        assert(s.subrange(j, s.len() as int) =~= Seq::<FixView>::empty());
    }
}

/// Law: the applied fixes of a pass are sorted and do not overlap, and
/// together with the dropped ones they are exactly the given fixes.
pub proof fn lemma_pass_groups(fixes: Seq<FixView>)
    ensures
        chained(pass_groups(fixes).0),
        sorted_by_start(pass_groups(fixes).0),
        pass_groups(fixes).0.to_multiset().add(pass_groups(fixes).1.to_multiset())
            == fixes.to_multiset(),
{
    broadcast use vstd::seq_lib::group_to_multiset_ensures;

    let s = sort_by_start(fixes);
    lemma_sort_by_start(fixes);
    lemma_split_groups(s, 0);
    if s.len() == 0 {
        assert(fixes.to_multiset().len() == 0);
        assert(fixes.to_multiset() =~= vstd::multiset::Multiset::<FixView>::empty());
    } else {
        assert(s.subrange(0, s.len() as int) =~= s);
    }
}


/// Two fixes overlap: their ranges share a byte.
pub open spec fn overlap(f: FixView, g: FixView) -> bool {
    f.start < g.end && g.start < f.end
}

/// Every fix of `fs` covers at least one byte.
pub open spec fn nonempty(fs: Seq<FixView>) -> bool {
    forall|k: int| 0 <= k < fs.len() ==> #[trigger] fs[k].start < fs[k].end
}

/// `x` occurs once among `fs` and overlaps no other fix of `fs`.
pub open spec fn lone(fs: Seq<FixView>, x: FixView) -> bool {
    &&& fs.to_multiset().count(x) == 1
    &&& forall|y: FixView| #[trigger] fs.to_multiset().count(y) > 0 && y != x ==> !overlap(x, y)
}

/// Fix `k` of `s` overlaps no other fix of `s`.
pub open spec fn isolated(s: Seq<FixView>, k: int) -> bool {
    forall|l: int| 0 <= l < s.len() && l != k ==> !overlap(s[k], #[trigger] s[l])
}

/// Where the run of overlapping fixes that continues at `j` ends: the largest
/// end it covers (see `group_stop`).
pub open spec fn group_end(s: Seq<FixView>, j: int, ge: int) -> int
    decreases s.len() - j,
{
    if 0 <= j < s.len() && s[j].start < ge {
        group_end(s, j + 1, max_int(ge, s[j].end as int))
    } else {
        ge
    }
}

/// Fix `m` of `s` overlaps some fix from `i` on before it.
pub open spec fn overlaps_before(s: Seq<FixView>, i: int, m: int) -> bool {
    exists|q: int| i <= q < m && #[trigger] overlap(s[q], s[m])
}

/// The run of overlapping fixes that starts at `i`: each fix after `i` in it
/// overlaps an earlier one, every fix in it ends by the run's end, and the
/// next fix starts at or after that end.
proof fn lemma_group_facts(s: Seq<FixView>, i: int, j: int, ge: int, p: int)
    requires
        sorted_by_start(s),
        nonempty(s),
        0 <= i <= p < j <= s.len(),
        s[p].end == ge,
        forall|q: int| i <= q < j ==> s[q].end <= ge,
        forall|m: int| i < m < j ==> #[trigger] overlaps_before(s, i, m),
    ensures
        j <= group_stop(s, j, ge) <= s.len(),
        forall|q: int| i <= q < group_stop(s, j, ge) ==> s[q].end <= group_end(s, j, ge),
        group_stop(s, j, ge) < s.len() ==> s[group_stop(s, j, ge)].start >= group_end(s, j, ge),
        forall|m: int| i < m < group_stop(s, j, ge) ==> #[trigger] overlaps_before(s, i, m),
    decreases s.len() - j,
{
    if j < s.len() && s[j].start < ge {
        assert(s[p].start <= s[j].start);
        assert(s[j].start < s[j].end);
        assert(overlap(s[p], s[j]));
        let ge2 = max_int(ge, s[j].end as int);
        let p2 = if ge >= s[j].end {
            p
        } else {
            j
        };
        assert forall|m: int| i < m < j + 1 implies #[trigger] overlaps_before(s, i, m) by {
            if m == j {
                assert(i <= p < m && overlap(s[p], s[m]));
            }
        }
        lemma_group_facts(s, i, j + 1, ge2, p2);
    }
}

proof fn lemma_count_two(s: Seq<FixView>, k: int, l: int)
    requires
        0 <= k < l < s.len(),
        s[k] == s[l],
    ensures
        s.to_multiset().count(s[k]) >= 2,
{
    broadcast use vstd::seq_lib::group_to_multiset_ensures;

    let a = s.take(l);
    let b = s.skip(l);
    assert(s =~= a + b);
    vstd::seq_lib::lemma_multiset_commutative(a, b);
    assert(a[k] == s[k]);
    assert(a.contains(s[k]));
    assert(b[0] == s[k]);
    assert(b.contains(s[k]));
}

proof fn lemma_count_one(s: Seq<FixView>, k: int)
    requires
        0 <= k < s.len(),
        forall|l: int| 0 <= l < s.len() && l != k ==> #[trigger] s[l] != s[k],
    ensures
        s.to_multiset().count(s[k]) == 1,
{
    broadcast use vstd::seq_lib::group_to_multiset_ensures;
    broadcast use vstd::multiset::group_multiset_axioms;

    let a = s.take(k);
    let b = s.skip(k + 1);
    let x = s[k];
    assert(s =~= a + seq![x] + b);
    vstd::seq_lib::lemma_multiset_commutative(a + seq![x], b);
    vstd::seq_lib::lemma_multiset_commutative(a, seq![x]);
    assert(!a.contains(x)) by {
        if a.contains(x) {
            let l = choose|l: int| 0 <= l < a.len() && a[l] == x;
            assert(s[l] == x);
        }
    }
    assert(!b.contains(x)) by {
        if b.contains(x) {
            let l = choose|l: int| 0 <= l < b.len() && b[l] == x;
            assert(s[k + 1 + l] == x);
        }
    }
    assert(seq![x] =~= Seq::<FixView>::empty().push(x));
}

/// In a sorted list of nonempty fixes, a fix occurs once and overlaps no other
/// exactly when it is isolated at its place.
proof fn lemma_isolated_lone(s: Seq<FixView>, k: int)
    requires
        nonempty(s),
        0 <= k < s.len(),
    ensures
        isolated(s, k) <==> lone(s, s[k]),
{
    broadcast use vstd::seq_lib::group_to_multiset_ensures;

    if isolated(s, k) {
        assert forall|l: int| 0 <= l < s.len() && l != k implies #[trigger] s[l] != s[k] by {
            assert(!overlap(s[k], s[l]));
            assert(s[k].start < s[k].end);
        }
        lemma_count_one(s, k);
        assert forall|y: FixView| #[trigger] s.to_multiset().count(y) > 0 && y != s[k] implies !overlap(s[k], y) by {
            assert(s.contains(y));
            let l = choose|l: int| 0 <= l < s.len() && s[l] == y;
            assert(l != k);
        }
    }
    if lone(s, s[k]) {
        assert forall|l: int| 0 <= l < s.len() && l != k implies !overlap(s[k], #[trigger] s[l]) by {
            if s[l] == s[k] {
                if l < k {
                    lemma_count_two(s, l, k);
                } else {
                    lemma_count_two(s, k, l);
                }
            } else {
                assert(s.contains(s[l]));
                assert(s.to_multiset().count(s[l]) > 0);
            }
        }
    }
}

/// From a run start `i` on, the fixes `split_groups` applies are those that
/// are isolated.
proof fn lemma_split_isolated(s: Seq<FixView>, i: int)
    requires
        sorted_by_start(s),
        nonempty(s),
        0 <= i <= s.len(),
        i < s.len() ==> forall|l: int| 0 <= l < i ==> #[trigger] s[l].end <= s[i].start,
    ensures
        forall|x: FixView|
            #[trigger] split_groups(s, i).0.contains(x) ==> exists|k: int| i <= k < s.len() && s[k] == x && isolated(s, k),
        forall|k: int| i <= k < s.len() && isolated(s, k) ==> split_groups(s, i).0.contains(#[trigger] s[k]),
    decreases s.len() - i,
{
    if i < s.len() {
        let j = group_stop(s, i + 1, s[i].end as int);
        let g = group_end(s, i + 1, s[i].end as int);
        lemma_group_facts(s, i, i + 1, s[i].end as int, i);
        if j < s.len() {
            assert forall|l: int| 0 <= l < j implies #[trigger] s[l].end <= s[j].start by {
                if l < i {
                    assert(s[l].end <= s[i].start);
                    assert(s[i].start <= s[j].start);
                }
            }
        }
        lemma_split_isolated(s, j);
        let rest = split_groups(s, j);
        if j == i + 1 {
            assert(isolated(s, i)) by {
                assert forall|l: int| 0 <= l < s.len() && l != i implies !overlap(s[i], #[trigger] s[l]) by {
                    if l < i {
                        assert(s[l].end <= s[i].start);
                    } else {
                        assert(s[j].start <= s[l].start);
                    }
                }
            }
            let r = seq![s[i]] + rest.0;
            assert(split_groups(s, i).0 == r);
            assert forall|x: FixView| #[trigger] r.contains(x) implies exists|k: int|
                i <= k < s.len() && s[k] == x && isolated(s, k) by {
                let m = choose|m: int| 0 <= m < r.len() && r[m] == x;
                if m > 0 {
                    assert(rest.0[m - 1] == x);
                    assert(rest.0.contains(x));
                }
            }
            assert forall|k: int| i <= k < s.len() && isolated(s, k) implies r.contains(#[trigger] s[k]) by {
                if k == i {
                    assert(r[0] == s[k]);
                } else {
                    assert(rest.0.contains(s[k]));
                    let m = choose|m: int| 0 <= m < rest.0.len() && rest.0[m] == s[k];
                    assert(r[m + 1] == s[k]);
                }
            }
        } else {
            assert(split_groups(s, i).0 == rest.0);
            assert forall|k: int| i <= k < s.len() && isolated(s, k) implies rest.0.contains(#[trigger] s[k]) by {
                if k < j {
                    if k == i {
                        assert(overlaps_before(s, i, i + 1));
                        let q = choose|q: int| i <= q < i + 1 && #[trigger] overlap(s[q], s[i + 1]);
                        assert(q == i);
                        assert(!overlap(s[i], s[i + 1]));
                    } else {
                        assert(overlaps_before(s, i, k));
                        let q = choose|q: int| i <= q < k && #[trigger] overlap(s[q], s[k]);
                        assert(!overlap(s[k], s[q]));
                    }
                }
            }
        }
    } else {
        assert(split_groups(s, i).0 =~= Seq::<FixView>::empty());
    }
}

/// Law: of nonempty fixes, a pass applies exactly those that occur once and
/// overlap no other fix; it drops every fix that overlaps another.
pub proof fn lemma_applied_iff_lone(fixes: Seq<FixView>)
    requires
        nonempty(fixes),
    ensures
        forall|x: FixView| #[trigger] pass_groups(fixes).0.contains(x) <==> lone(fixes, x),
{
    broadcast use vstd::seq_lib::group_to_multiset_ensures;

    let s = sort_by_start(fixes);
    lemma_sort_by_start(fixes);
    assert(nonempty(s)) by {
        assert forall|k: int| 0 <= k < s.len() implies #[trigger] s[k].start < s[k].end by {
            assert(s.contains(s[k]));
            assert(s.to_multiset().count(s[k]) > 0);
            assert(fixes.contains(s[k]));
            let m = choose|m: int| 0 <= m < fixes.len() && fixes[m] == s[k];
            assert(fixes[m].start < fixes[m].end);
        }
    }
    lemma_split_isolated(s, 0);
    assert forall|x: FixView| #[trigger] pass_groups(fixes).0.contains(x) <==> lone(fixes, x) by {
        assert(lone(fixes, x) == lone(s, x));
        if pass_groups(fixes).0.contains(x) {
            let k = choose|k: int| 0 <= k < s.len() && s[k] == x && isolated(s, k);
            lemma_isolated_lone(s, k);
        }
        if lone(s, x) {
            assert(s.to_multiset().count(x) > 0);
            assert(s.contains(x));
            let k = choose|k: int| 0 <= k < s.len() && s[k] == x;
            lemma_isolated_lone(s, k);
        }
    }
}

/// Starts grow strictly along `a`.
pub open spec fn strictly_by_start(a: Seq<FixView>) -> bool {
    forall|i: int, j: int| 0 <= i < j < a.len() ==> #[trigger] a[i].start < #[trigger] a[j].start
}

proof fn lemma_strict_same(a: Seq<FixView>, b: Seq<FixView>)
    requires
        strictly_by_start(a),
        strictly_by_start(b),
        forall|x: FixView| #![trigger a.contains(x)] #![trigger b.contains(x)] a.contains(x) <==> b.contains(x),
    ensures
        a == b,
    decreases a.len(),
{
    if a.len() == 0 {
        if b.len() > 0 {
            assert(b.contains(b[0]));
        }
        assert(b =~= a);
    } else if b.len() == 0 {
        assert(a.contains(a[0]));
    } else {
        assert(a.contains(a[0]));
        assert(b.contains(b[0]));
        let m = choose|m: int| 0 <= m < b.len() && b[m] == a[0];
        let n = choose|n: int| 0 <= n < a.len() && a[n] == b[0];
        if m > 0 {
            assert(b[0].start < b[m].start);
            if n > 0 {
                assert(a[0].start < a[n].start);
            }
        }
        assert(m == 0);
        let a2 = a.drop_first();
        let b2 = b.drop_first();
        assert forall|x: FixView| #![trigger a2.contains(x)] #![trigger b2.contains(x)] a2.contains(x) <==> b2.contains(x) by {
            if a2.contains(x) {
                let i = choose|i: int| 0 <= i < a2.len() && a2[i] == x;
                assert(a[i + 1] == x);
                assert(a[0].start < a[i + 1].start);
                assert(a.contains(x));
                assert(b.contains(x));
                let k = choose|k: int| 0 <= k < b.len() && b[k] == x;
                assert(k != 0);
                assert(b2[k - 1] == x);
            }
            if b2.contains(x) {
                let i = choose|i: int| 0 <= i < b2.len() && b2[i] == x;
                assert(b[i + 1] == x);
                assert(b[0].start < b[i + 1].start);
                assert(b.contains(x));
                assert(a.contains(x));
                let k = choose|k: int| 0 <= k < a.len() && a[k] == x;
                assert(k != 0);
                assert(a2[k - 1] == x);
            }
        }
        lemma_strict_same(a2, b2);
        assert(a =~= seq![a[0]] + a2);
        assert(b =~= seq![b[0]] + b2);
    }
}

/// The applied fixes of a pass, where the fixes are nonempty, have starts
/// that grow strictly.
proof fn lemma_applied_strict(fixes: Seq<FixView>)
    requires
        nonempty(fixes),
    ensures
        strictly_by_start(pass_groups(fixes).0),
{
    broadcast use vstd::seq_lib::group_to_multiset_ensures;
    broadcast use vstd::multiset::group_multiset_axioms;

    let a = pass_groups(fixes).0;
    lemma_pass_groups(fixes);
    assert forall|k: int| 0 <= k < a.len() implies #[trigger] a[k].start < a[k].end by {
        assert(a.contains(a[k]));
        assert(a.to_multiset().count(a[k]) > 0);
        assert(fixes.to_multiset().count(a[k]) > 0);
        assert(fixes.contains(a[k]));
        let m = choose|m: int| 0 <= m < fixes.len() && fixes[m] == a[k];
        assert(fixes[m].start < fixes[m].end);
    }
    assert forall|i: int, j: int| 0 <= i < j < a.len() implies #[trigger] a[i].start < #[trigger] a[j].start by {
        assert(a[i].start < a[i].end);
        assert(a[i].end <= a[i + 1].start);
        assert(a[i + 1].start <= a[j].start);
    }
}

/// Law: for nonempty fixes, the order in which they are given does not
/// matter: a pass applies the same fixes in the same order, and drops the
/// same ones.
pub proof fn lemma_pass_order_free(fixes: Seq<FixView>, other: Seq<FixView>)
    requires
        nonempty(fixes),
        other.to_multiset() == fixes.to_multiset(),
    ensures
        pass_groups(other).0 == pass_groups(fixes).0,
        pass_groups(other).1.to_multiset() == pass_groups(fixes).1.to_multiset(),
{
    broadcast use vstd::seq_lib::group_to_multiset_ensures;
    broadcast use vstd::multiset::group_multiset_axioms;

    assert(nonempty(other)) by {
        assert forall|k: int| 0 <= k < other.len() implies #[trigger] other[k].start < other[k].end by {
            assert(other.contains(other[k]));
            assert(other.to_multiset().count(other[k]) > 0);
            assert(fixes.contains(other[k]));
            let m = choose|m: int| 0 <= m < fixes.len() && fixes[m] == other[k];
            assert(fixes[m].start < fixes[m].end);
        }
    }
    lemma_applied_iff_lone(fixes);
    lemma_applied_iff_lone(other);
    lemma_applied_strict(fixes);
    lemma_applied_strict(other);
    let a = pass_groups(fixes).0;
    let b = pass_groups(other).0;
    assert forall|x: FixView| #![trigger a.contains(x)] #![trigger b.contains(x)] a.contains(x) <==> b.contains(x) by {
        assert(lone(fixes, x) == lone(other, x));
    }
    lemma_strict_same(a, b);
    lemma_pass_groups(fixes);
    lemma_pass_groups(other);
    assert(pass_groups(other).1.to_multiset() =~= pass_groups(fixes).1.to_multiset()) by {
        assert forall|x: FixView| #[trigger] pass_groups(other).1.to_multiset().count(x)
            == pass_groups(fixes).1.to_multiset().count(x) by {
            assert(b.to_multiset().add(pass_groups(other).1.to_multiset()).count(x) == other.to_multiset().count(x));
            assert(a.to_multiset().add(pass_groups(fixes).1.to_multiset()).count(x) == fixes.to_multiset().count(x));
        }
    }
}

fn insert_position(r: &Vec<Fix>, start: usize) -> (p: usize)
    ensures
        p <= r@.len(),
        p == 0 || r@[p - 1]@.start <= start,
        forall|k: int| p <= k < r@.len() ==> r@[k]@.start > start,
{
    let mut p = r.len();
    while p > 0 && r[p - 1].range.start > start
        invariant
            p <= r@.len(),
            forall|k: int| p <= k < r@.len() ==> r@[k]@.start > start,
        decreases p,
    {
        p -= 1;
    }
    p
}

/// The fixes sorted by start, keeping the order of fixes with equal starts.
fn sorted_by_start_exec(fixes: &[Fix]) -> (r: Vec<Fix>)
    ensures
        fixes_view(r@) == sort_by_start(fixes_view(fixes@)),
{
    let mut r: Vec<Fix> = Vec::new();
    let mut i: usize = 0;
    assert(fixes_view(fixes@).take(0) =~= Seq::<FixView>::empty());
    while i < fixes.len()
        invariant
            i <= fixes@.len(),
            fixes_view(r@) == sort_by_start(fixes_view(fixes@).take(i as int)),
        decreases fixes@.len() - i,
    {
        let x = fixes[i].clone();
        let p = insert_position(&r, x.range.start);
        let ghost before = fixes_view(r@);
        proof {
            lemma_insert_at(before, x@, p as int);
        }
        r.insert(p, x);
        assert(fixes_view(r@) =~= before.insert(p as int, x@));
        let ghost t = fixes_view(fixes@).take(i as int + 1);
        assert(t.drop_last() =~= fixes_view(fixes@).take(i as int));
        i += 1;
    }
    assert(fixes_view(fixes@).take(fixes@.len() as int) =~= fixes_view(fixes@));
    r
}

/// Applies the fixes of one pass to `source`: returns the fixed source, the
/// applied fixes and the dropped ones. Overlapping fixes are all dropped, to be
/// retried after the next lint. The applied fixes go in from the last to the
/// first, each range clamped to the text it is applied to (its end to the
/// length, its start to its end); where they all lie within `source` this is
/// `splice`.
pub fn apply_fixes(source: &str, fixes: &[Fix]) -> (r: (String, Vec<Fix>, Vec<Fix>))
    requires
        all_fit(source@, pass_groups(fixes_view(fixes@)).0) || back_ok(source@, pass_groups(fixes_view(fixes@)).0),
    ensures
        fixes_view(r.1@) == pass_groups(fixes_view(fixes@)).0,
        fixes_view(r.2@) == pass_groups(fixes_view(fixes@)).1,
        r.0@ == (if all_fit(source@, pass_groups(fixes_view(fixes@)).0) {
            splice(source@, pass_groups(fixes_view(fixes@)).0, 0)
        } else {
            apply_back(source@, pass_groups(fixes_view(fixes@)).0)
        }),
{
    let sorted = sorted_by_start_exec(fixes);
    let ghost s = fixes_view(sorted@);
    let mut applied: Vec<Fix> = Vec::new();
    let mut dropped: Vec<Fix> = Vec::new();
    let mut i: usize = 0;
    assert(fixes_view(applied@) + split_groups(s, 0).0 =~= split_groups(s, 0).0);
    assert(fixes_view(dropped@) + split_groups(s, 0).1 =~= split_groups(s, 0).1);
    while i < sorted.len()
        invariant
            i <= sorted@.len(),
            s == fixes_view(sorted@),
            fixes_view(applied@) + split_groups(s, i as int).0 == split_groups(s, 0).0,
            fixes_view(dropped@) + split_groups(s, i as int).1 == split_groups(s, 0).1,
        decreases sorted@.len() - i,
    {
        let mut group_end = sorted[i].range.end;
        let mut j = i + 1;
        while j < sorted.len() && sorted[j].range.start < group_end
            invariant
                i < j <= sorted@.len(),
                s == fixes_view(sorted@),
                group_stop(s, j as int, group_end as int) == group_stop(
                    s,
                    i + 1,
                    s[i as int].end as int,
                ),
            decreases sorted@.len() - j,
        {
            group_end = if group_end >= sorted[j].range.end {
                group_end
            } else {
                sorted[j].range.end
            };
            j += 1;
        }
        let ghost rest = split_groups(s, j as int);
        proof {
            lemma_group_stop(s, i + 1, s[i as int].end as int);
        }
        assert(split_groups(s, i as int) == (if j == i + 1 {
            (seq![s[i as int]] + rest.0, rest.1)
        } else {
            (rest.0, s.subrange(i as int, j as int) + rest.1)
        }));
        if j == i + 1 {
            applied.push(sorted[i].clone());
            assert(fixes_view(applied@) + rest.0 =~= split_groups(s, 0).0);
        } else {
            let ghost d0 = fixes_view(dropped@);
            let mut k = i;
            while k < j
                invariant
                    i <= k <= j <= sorted@.len(),
                    s == fixes_view(sorted@),
                    fixes_view(dropped@) == d0 + s.subrange(i as int, k as int),
                decreases j - k,
            {
                let c = sorted[k].clone();
                assert(c@ == s[k as int]);
                let ghost prev = dropped@;
                dropped.push(c);
                assert(fixes_view(dropped@) =~= fixes_view(prev).push(c@));
                assert(fixes_view(dropped@) =~= d0 + s.subrange(i as int, k + 1));
                k += 1;
            }
            assert(fixes_view(dropped@) + rest.1 =~= split_groups(s, 0).1);
        }
        i = j;
    }
    assert(split_groups(s, i as int).0 =~= Seq::<FixView>::empty());
    assert(split_groups(s, i as int).1 =~= Seq::<FixView>::empty());
    assert(fixes_view(applied@) =~= split_groups(s, 0).0);
    assert(fixes_view(dropped@) =~= split_groups(s, 0).1);
    proof {
        lemma_pass_groups(fixes_view(fixes@));
    }
    let out = if fits_exec(source, &applied) {
        splice_exec(source, &applied)
    } else {
        apply_back_exec(source, &applied)
    };
    (out, applied, dropped)
}

/// Whether every fix of `applied` lies within `source`, between chars.
fn fits_exec(source: &str, applied: &Vec<Fix>) -> (r: bool)
    ensures
        r == all_fit(source@, fixes_view(applied@)),
{
    let (chars, offsets) = text::char_table(source);
    let ghost src = source@;
    let ghost fs = fixes_view(applied@);
    proof {
        assert forall|i: int, j: int| 0 <= i < j < offsets@.len() implies offsets@[i] < offsets@[j] by {
            text::lemma_byte_pos_mono(src, i, j);
        }
    }
    let mut k: usize = 0;
    while k < applied.len()
        invariant
            chars@ == src,
            offsets@.len() == chars@.len() + 1,
            forall|i: int| 0 <= i <= chars@.len() ==> #[trigger] offsets@[i] == text::byte_pos(chars@, i),
            forall|i: int, j: int| 0 <= i < j < offsets@.len() ==> offsets@[i] < offsets@[j],
            src == source@,
            fs == fixes_view(applied@),
            k <= applied@.len(),
            forall|j: int| 0 <= j < k ==> fix_fits(src, #[trigger] fs[j]),
        decreases applied@.len() - k,
    {
        let f = &applied[k];
        assert(f@ == fs[k as int]);
        let a = text::char_index_at(&offsets, f.range.start);
        let b = text::char_index_at(&offsets, f.range.end);
        if f.range.start > f.range.end || a.is_none() || b.is_none() {
            proof {
                if a is None {
                    assert forall|i: int| 0 <= i <= src.len() implies text::byte_pos(src, i) != f.range.start by {
                        assert(offsets@[i] != f.range.start);
                    }
                }
                if b is None {
                    assert forall|i: int| 0 <= i <= src.len() implies text::byte_pos(src, i) != f.range.end by {
                        assert(offsets@[i] != f.range.end);
                    }
                }
                assert(!fix_fits(src, fs[k as int]));
            }
            return false;
        }
        proof {
            let ia = a->0 as int;
            let ib = b->0 as int;
            assert(text::byte_pos(src, ia) == f.range.start);
            assert(text::byte_pos(src, ib) == f.range.end);
        }
        k += 1;
    }
    true
}

/// `clamp_apply(buf, f)`.
fn clamp_apply_exec(buf: &String, f: &Fix) -> (r: String)
    requires
        clamp_ok(buf@, f@),
    ensures
        r@ == clamp_apply(buf@, f@),
{
    let (chars, offsets) = text::char_table(buf.as_str());
    let ghost src = buf@;
    proof {
        assert forall|i: int, j: int| 0 <= i < j < offsets@.len() implies offsets@[i] < offsets@[j] by {
            text::lemma_byte_pos_mono(src, i, j);
        }
        text::lemma_byte_pos_full(src);
    }
    let n = offsets[chars.len()];
    let e = if f.range.end <= n {
        f.range.end
    } else {
        n
    };
    let s = if f.range.start <= e {
        f.range.start
    } else {
        e
    };
    assert(clamped(src, f@) == (s as int, e as int));
    let ghost gs = crate::document::char_index(src, s as int);
    let ghost ge = crate::document::char_index(src, e as int);
    proof {
        crate::document::lemma_char_index(src, s as int);
        crate::document::lemma_char_index(src, e as int);
    }
    let cs = match text::char_index_at(&offsets, s) {
        Some(c) => c,
        None => {
            assert(offsets@[gs] == s);
            0
        },
    };
    let ce = match text::char_index_at(&offsets, e) {
        Some(c) => c,
        None => {
            assert(offsets@[ge] == e);
            0
        },
    };
    proof {
        text::lemma_byte_pos_injective(src, cs as int, gs);
        text::lemma_byte_pos_injective(src, ce as int, ge);
        if ce < cs {
            text::lemma_byte_pos_mono(src, ce as int, cs as int);
        }
    }
    let mut out = String::new();
    text::push_chars(&mut out, &chars, 0, cs);
    text::push_str(&mut out, f.replacement.as_str());
    text::push_chars(&mut out, &chars, ce, chars.len());
    assert(out@ =~= clamp_apply(src, f@));
    out
}

/// `apply_back(source, applied)`.
fn apply_back_exec(source: &str, applied: &Vec<Fix>) -> (out: String)
    requires
        back_ok(source@, fixes_view(applied@)),
    ensures
        out@ == apply_back(source@, fixes_view(applied@)),
{
    let ghost fs = fixes_view(applied@);
    let mut buf = source.to_owned();
    let mut k = applied.len();
    assert(fs.take(k as int) =~= fs);
    while k > 0
        invariant
            k <= applied@.len(),
            fs == fixes_view(applied@),
            back_ok(buf@, fs.take(k as int)),
            apply_back(buf@, fs.take(k as int)) == apply_back(source@, fs),
        decreases k,
    {
        let ghost t = fs.take(k as int);
        assert(t.last() == fs[k - 1]);
        assert(t.drop_last() =~= fs.take(k - 1));
        assert(applied@[k - 1]@ == fs[k - 1]);
        buf = clamp_apply_exec(&buf, &applied[k - 1]);
        k -= 1;
    }
    assert(fs.take(0) =~= Seq::<FixView>::empty());
    buf
}

/// Builds `splice(source, applied, 0)`.
#[verifier::spinoff_prover]
#[verifier::rlimit(30)]
fn splice_exec(source: &str, applied: &Vec<Fix>) -> (out: String)
    requires
        chained(fixes_view(applied@)),
        forall|k: int| 0 <= k < applied@.len() ==> fix_fits(source@, #[trigger] fixes_view(applied@)[k]),
    ensures
        out@ == splice(source@, fixes_view(applied@), 0),
{
    let (chars, offsets) = text::char_table(source);
    let ghost src = source@;
    let ghost fs = fixes_view(applied@);
    proof {
        assert forall|i: int, j: int| 0 <= i < j < offsets@.len() implies offsets@[i] < offsets@[j] by {
            text::lemma_byte_pos_mono(src, i, j);
        }
        text::lemma_byte_pos_zero(src);
    }
    let mut out = String::new();
    let mut from: usize = 0;
    let mut k: usize = 0;
    assert(fs.skip(0) =~= fs);
    assert(out@ =~= Seq::<char>::empty());
    while k < applied.len()
        invariant
            chars@ == src,
            offsets@.len() == chars@.len() + 1,
            forall|i: int| 0 <= i <= chars@.len() ==> #[trigger] offsets@[i] == text::byte_pos(chars@, i),
            forall|i: int, j: int| 0 <= i < j < offsets@.len() ==> offsets@[i] < offsets@[j],
            fs == fixes_view(applied@),
            chained(fs),
            forall|k: int| 0 <= k < applied@.len() ==> fix_fits(src, #[trigger] fs[k]),
            k <= applied@.len(),
            from <= chars@.len(),
            k < applied@.len() ==> offsets@[from as int] <= fs[k as int].start,
            out@ + splice(src, fs.skip(k as int), from as int) == splice(src, fs, 0),
        decreases applied@.len() - k,
    {
        let f = &applied[k];
        assert(f@ == fs[k as int]);
        let cs = char_index_at(&offsets, f.range.start);
        let ce = char_index_at(&offsets, f.range.end);
        let ghost gs = crate::document::char_index(src, f.range.start as int);
        let ghost ge = crate::document::char_index(src, f.range.end as int);
        proof {
            crate::document::lemma_char_index(src, f.range.start as int);
            crate::document::lemma_char_index(src, f.range.end as int);
        }
        let cs = match cs {
            Some(c) => c,
            None => {
                assert(offsets@[gs] == f.range.start);
                0
            },
        };
        let ce = match ce {
            Some(c) => c,
            None => {
                assert(offsets@[ge] == f.range.end);
                0
            },
        };
        proof {
            text::lemma_byte_pos_injective(src, cs as int, gs);
            text::lemma_byte_pos_injective(src, ce as int, ge);
            if cs < from {
                text::lemma_byte_pos_mono(src, cs as int, from as int);
            }
            if ce < cs {
                text::lemma_byte_pos_mono(src, ce as int, cs as int);
            }
        }
        let ghost tail = fs.skip(k as int);
        assert(tail[0] == fs[k as int]);
        assert(tail.drop_first() =~= fs.skip(k as int + 1));
        text::push_chars(&mut out, &chars, from, cs);
        text::push_str(&mut out, f.replacement.as_str());
        from = ce;
        proof {
            if k + 1 < applied@.len() {
                assert(fs[k as int].end <= fs[k + 1].start);
            }
        }
        k += 1;
    }
    text::push_chars(&mut out, &chars, from, chars.len());
    assert(fs.skip(k as int) =~= Seq::<FixView>::empty());
    out
}

} // verus!

//! The run log: what one run did, and the UTC timestamp of its record.

use vstd::prelude::*;
use crate::rule::Issue;
use crate::text;
use crate::AppliedFix;

verus! {

#[verifier::external_type_specification]
#[verifier::external_body]
pub struct ExSystemTime(std::time::SystemTime);

/// What the run did to the files.
#[derive(Debug, Clone, Copy, PartialEq, Eq, Structural)]
pub enum Mode {
    Lint,
    Fix,
    FixDryRun,
}

pub open spec fn mode_name(m: Mode) -> Seq<char> {
    match m {
        Mode::Lint => "lint"@,
        Mode::Fix => "fix"@,
        Mode::FixDryRun => "fix-dry-run"@,
    }
}

impl Mode {
    pub fn as_str(self) -> (r: &'static str)
        ensures
            r@ == mode_name(self),
    {
        match self {
            Mode::Lint => "lint",
            Mode::Fix => "fix",
            Mode::FixDryRun => "fix-dry-run",
        }
    }
}

impl Default for Mode {
    fn default() -> (r: Self)
        ensures
            r == Mode::Lint,
    {
        Mode::Lint
    }
}

/// What one run did: the files, the mode, the fixes applied and the issues
/// left, in all and per rule id (per-rule counts ordered by rule id, each id once).
#[derive(Debug)]
pub struct RunStats {
    pub files: Vec<String>,
    pub mode: Mode,
    pub fixes_applied: u64,
    pub fixes_per_rule: Vec<(String, u64)>,
    pub remaining_issues: u64,
    pub remaining_per_rule: Vec<(String, u64)>,
}

impl RunStats {
    /// Each per-rule count list holds its rule ids once, in ascending order.
    pub open spec fn wf(&self) -> bool {
        &&& keys_sorted(counts_view(self.fixes_per_rule@))
        &&& keys_sorted(counts_view(self.remaining_per_rule@))
    }
}

impl Default for RunStats {
    fn default() -> (r: Self)
        ensures
            r.wf(),
            r.files@.len() == 0,
            r.mode == Mode::Lint,
            r.fixes_applied == 0,
            r.fixes_per_rule@.len() == 0,
            r.remaining_issues == 0,
            r.remaining_per_rule@.len() == 0,
    {
        RunStats {
            files: Vec::new(),
            mode: Mode::Lint,
            fixes_applied: 0,
            fixes_per_rule: Vec::new(),
            remaining_issues: 0,
            remaining_per_rule: Vec::new(),
        }
    }
}

pub open spec fn counts_view(c: Seq<(String, u64)>) -> Seq<(Seq<char>, u64)> {
    c.map_values(|p: (String, u64)| (p.0@, p.1))
}

/// The first index from `i` on whose key is not below `key`, or the length.
pub open spec fn lower_bound(c: Seq<(Seq<char>, u64)>, key: Seq<char>, i: int) -> int
    decreases c.len() - i,
{
    if i < 0 || i >= c.len() {
        c.len() as int
    } else if text::seq_lt(c[i].0, key) {
        lower_bound(c, key, i + 1)
    } else {
        i
    }
}

/// `c` with one more count for `key`, as a map ordered by key counts it: the
/// entry of `key` is raised (up to the largest `u64`), or `(key, 1)` is put
/// in its place in the order.
pub open spec fn tally_spec(c: Seq<(Seq<char>, u64)>, key: Seq<char>) -> Seq<(Seq<char>, u64)> {
    let i = lower_bound(c, key, 0);
    if i < c.len() && c[i].0 == key {
        c.update(i, (key, sat_add(c[i].1, 1)))
    } else {
        c.insert(i, (key, 1u64))
    }
}

/// The keys of `c` ascend strictly, so that each occurs once.
pub open spec fn keys_sorted(c: Seq<(Seq<char>, u64)>) -> bool {
    forall|a: int, b: int| 0 <= a < b < c.len() ==> text::seq_lt(#[trigger] c[a].0, #[trigger] c[b].0)
}

/// The count of `key` in `c` (that of its last entry), 0 where it has none.
pub open spec fn count_of(c: Seq<(Seq<char>, u64)>, key: Seq<char>) -> u64
    decreases c.len(),
{
    if c.len() == 0 {
        0
    } else if c.last().0 == key {
        c.last().1
    } else {
        count_of(c.drop_last(), key)
    }
}

/// How often `key` occurs in `keys`.
pub open spec fn occurrences(keys: Seq<Seq<char>>, key: Seq<char>) -> nat
    decreases keys.len(),
{
    if keys.len() == 0 {
        0
    } else {
        occurrences(keys.drop_last(), key) + if keys.last() == key {
            1nat
        } else {
            0nat
        }
    }
}

proof fn lemma_lower_bound(c: Seq<(Seq<char>, u64)>, key: Seq<char>, i: int)
    requires
        0 <= i <= c.len(),
    ensures
        i <= lower_bound(c, key, i) <= c.len(),
        forall|j: int| i <= j < lower_bound(c, key, i) ==> text::seq_lt(#[trigger] c[j].0, key),
        lower_bound(c, key, i) < c.len() ==> !text::seq_lt(c[lower_bound(c, key, i)].0, key),
    decreases c.len() - i,
{
    if i < c.len() && text::seq_lt(c[i].0, key) {
        lemma_lower_bound(c, key, i + 1);
    }
}

proof fn lemma_count_at(c: Seq<(Seq<char>, u64)>, i: int)
    requires
        keys_sorted(c),
        0 <= i < c.len(),
    ensures
        count_of(c, c[i].0) == c[i].1,
    decreases c.len(),
{
    if i < c.len() - 1 {
        text::lemma_lt_irreflexive(c[i].0);
        assert(text::seq_lt(c[i].0, c[c.len() - 1].0));
        let d = c.drop_last();
        assert(keys_sorted(d)) by {
            assert forall|a: int, b: int| 0 <= a < b < d.len() implies text::seq_lt(#[trigger] d[a].0, #[trigger] d[b].0) by {
                assert(d[a] == c[a] && d[b] == c[b]);
            }
        }
        lemma_count_at(d, i);
        assert(d[i] == c[i]);
    }
}

proof fn lemma_count_absent(c: Seq<(Seq<char>, u64)>, key: Seq<char>)
    requires
        forall|j: int| 0 <= j < c.len() ==> #[trigger] c[j].0 != key,
    ensures
        count_of(c, key) == 0,
    decreases c.len(),
{
    if c.len() > 0 {
        let d = c.drop_last();
        assert forall|j: int| 0 <= j < d.len() implies #[trigger] d[j].0 != key by {
            assert(d[j] == c[j]);
        }
        lemma_count_absent(d, key);
    }
}

/// The order of the keys survives a tally, and only the count of the key
/// tallied changes, by one (up to the largest `u64`).
pub proof fn lemma_tally(c: Seq<(Seq<char>, u64)>, key: Seq<char>, other: Seq<char>)
    requires
        keys_sorted(c),
    ensures
        keys_sorted(tally_spec(c, key)),
        count_of(tally_spec(c, key), key) == sat_add(count_of(c, key), 1),
        other != key ==> count_of(tally_spec(c, key), other) == count_of(c, other),
{
    let i = lower_bound(c, key, 0);
    lemma_lower_bound(c, key, 0);
    let t = tally_spec(c, key);
    if i < c.len() && c[i].0 == key {
        assert(keys_sorted(t)) by {
            assert forall|a: int, b: int| 0 <= a < b < t.len() implies text::seq_lt(#[trigger] t[a].0, #[trigger] t[b].0) by {
                assert(t[a].0 == c[a].0 && t[b].0 == c[b].0);
            }
        }
        lemma_count_at(c, i);
        lemma_count_at(t, i);
        if other != key {
            if exists|j: int| 0 <= j < c.len() && #[trigger] c[j].0 == other {
                let j = choose|j: int| 0 <= j < c.len() && #[trigger] c[j].0 == other;
                lemma_count_at(c, j);
                lemma_count_at(t, j);
            } else {
                assert forall|j: int| 0 <= j < t.len() implies #[trigger] t[j].0 != other by {
                    if j != i {
                        assert(t[j] == c[j]);
                    }
                }
                lemma_count_absent(c, other);
                lemma_count_absent(t, other);
            }
        }
    } else {
        assert forall|j: int| i <= j < c.len() implies text::seq_lt(key, #[trigger] c[j].0) by {
            text::lemma_lt_total(c[i].0, key);
            if j > i {
                text::lemma_lt_transitive(key, c[i].0, c[j].0);
            }
        }
        assert forall|j: int| 0 <= j < c.len() implies #[trigger] c[j].0 != key by {
            text::lemma_lt_irreflexive(key);
        }
        assert(t == c.insert(i, (key, 1u64)));
        assert forall|j: int| 0 <= j < t.len() implies #[trigger] t[j] == (if j < i {
            c[j]
        } else if j == i {
            (key, 1u64)
        } else {
            c[j - 1]
        }) by {}
        assert(keys_sorted(t)) by {
            assert forall|a: int, b: int| 0 <= a < b < t.len() implies text::seq_lt(#[trigger] t[a].0, #[trigger] t[b].0) by {
                if b < i {
                } else if b == i {
                } else if a < i {
                    text::lemma_lt_transitive(c[a].0, key, c[b - 1].0);
                } else if a == i {
                } else {
                    assert(text::seq_lt(c[a - 1].0, c[b - 1].0));
                }
            }
        }
        lemma_count_at(t, i);
        lemma_count_absent(c, key);
        if other != key {
            if exists|j: int| 0 <= j < c.len() && #[trigger] c[j].0 == other {
                let j = choose|j: int| 0 <= j < c.len() && #[trigger] c[j].0 == other;
                lemma_count_at(c, j);
                if j < i {
                    lemma_count_at(t, j);
                } else {
                    lemma_count_at(t, j + 1);
                }
            } else {
                assert forall|j: int| 0 <= j < t.len() implies #[trigger] t[j].0 != other by {
                    if j < i {
                        assert(t[j] == c[j]);
                    } else if j > i {
                        assert(t[j] == c[j - 1]);
                    }
                }
                lemma_count_absent(c, other);
                lemma_count_absent(t, other);
            }
        }
    }
}

fn lower_bound_exec(counts: &Vec<(String, u64)>, key: &Vec<char>) -> (i: usize)
    ensures
        i == lower_bound(counts_view(counts@), key@, 0),
{
    let ghost c = counts_view(counts@);
    let mut i: usize = 0;
    while i < counts.len()
        invariant
            i <= counts@.len(),
            c == counts_view(counts@),
            lower_bound(c, key@, 0) == lower_bound(c, key@, i as int),
        decreases counts@.len() - i,
    {
        let e = text::chars_of(counts[i].0.as_str());
        if !text::str_lt(&e, key) {
            return i;
        }
        i += 1;
    }
    i
}

/// Counts one more occurrence of `key` in `counts` (see `tally_spec`).
pub fn tally(counts: &mut Vec<(String, u64)>, key: &str)
    ensures
        counts_view(final(counts)@) == tally_spec(counts_view(old(counts)@), key@),
{
    let ghost c0 = counts_view(counts@);
    let kc = text::chars_of(key);
    let i = lower_bound_exec(counts, &kc);
    proof {
        lemma_lower_bound(c0, key@, 0);
    }
    if i < counts.len() && text::str_eq(counts[i].0.as_str(), key) {
        let n = counts[i].1;
        let v = if n < u64::MAX {
            n + 1
        } else {
            u64::MAX
        };
        counts.set(i, (key.to_owned(), v));
        assert(counts_view(counts@) =~= tally_spec(c0, key@));
    } else {
        counts.insert(i, (key.to_owned(), 1));
        assert(counts_view(counts@) =~= tally_spec(c0, key@));
    }
}

/// `a + b`, or the largest `u64` where that overflows.
pub open spec fn sat_add(a: u64, b: nat) -> u64 {
    if a + b <= u64::MAX {
        (a + b) as u64
    } else {
        u64::MAX
    }
}

/// The per-rule counts after `keys`, one by one.
pub open spec fn tally_all(c: Seq<(Seq<char>, u64)>, keys: Seq<Seq<char>>) -> Seq<(Seq<char>, u64)>
    decreases keys.len(),
{
    if keys.len() == 0 {
        c
    } else {
        tally_spec(tally_all(c, keys.drop_last()), keys.last())
    }
}

/// Tallying `keys` keeps the counts ordered by key, and adds to the count of
/// each key its number of occurrences in `keys` (up to the largest `u64`).
pub proof fn lemma_tally_all(c: Seq<(Seq<char>, u64)>, keys: Seq<Seq<char>>, key: Seq<char>)
    requires
        keys_sorted(c),
    ensures
        keys_sorted(tally_all(c, keys)),
        count_of(tally_all(c, keys), key) == sat_add(count_of(c, key), occurrences(keys, key)),
    decreases keys.len(),
{
    if keys.len() > 0 {
        lemma_tally_all(c, keys.drop_last(), key);
        lemma_tally(tally_all(c, keys.drop_last()), keys.last(), key);
    }
}

impl RunStats {
    /// Records the fixes applied to one file.
    pub fn add_fixes(&mut self, fixes: &Vec<AppliedFix>)
        ensures
            final(self).files == old(self).files,
            final(self).mode == old(self).mode,
            final(self).remaining_issues == old(self).remaining_issues,
            final(self).remaining_per_rule == old(self).remaining_per_rule,
            old(self).wf() ==> final(self).wf(),
            final(self).fixes_applied == sat_add(old(self).fixes_applied, fixes@.len()),
            counts_view(final(self).fixes_per_rule@) == tally_all(
                counts_view(old(self).fixes_per_rule@),
                fixes@.map_values(|f: AppliedFix| f.rule_id@),
            ),
    {
        let n = fixes.len() as u64;
        self.fixes_applied = self.fixes_applied.saturating_add(n);
        let ghost keys = fixes@.map_values(|f: AppliedFix| f.rule_id@);
        let ghost c0 = counts_view(self.fixes_per_rule@);
        let mut k: usize = 0;
        while k < fixes.len()
            invariant
                k <= fixes@.len(),
                self.files == old(self).files,
                self.mode == old(self).mode,
                self.remaining_issues == old(self).remaining_issues,
                self.remaining_per_rule == old(self).remaining_per_rule,
                self.fixes_applied == sat_add(old(self).fixes_applied, fixes@.len()),
                keys == fixes@.map_values(|f: AppliedFix| f.rule_id@),
                counts_view(self.fixes_per_rule@) == tally_all(c0, keys.take(k as int)),
            decreases fixes@.len() - k,
        {
            tally(&mut self.fixes_per_rule, fixes[k].rule_id.as_str());
            assert(keys.take(k + 1).drop_last() =~= keys.take(k as int));
            k += 1;
        }
        assert(keys.take(fixes@.len() as int) =~= keys);
        proof {
            if old(self).wf() {
                lemma_tally_all(c0, keys, seq![]);
            }
        }
    }

    /// Records the issues left in one file.
    pub fn add_remaining(&mut self, issues: &Vec<Issue>)
        ensures
            final(self).files == old(self).files,
            final(self).mode == old(self).mode,
            final(self).fixes_applied == old(self).fixes_applied,
            final(self).fixes_per_rule == old(self).fixes_per_rule,
            old(self).wf() ==> final(self).wf(),
            final(self).remaining_issues == sat_add(old(self).remaining_issues, issues@.len()),
            counts_view(final(self).remaining_per_rule@) == tally_all(
                counts_view(old(self).remaining_per_rule@),
                issues@.map_values(|i: Issue| i.rule_id@),
            ),
    {
        let n = issues.len() as u64;
        self.remaining_issues = self.remaining_issues.saturating_add(n);
        let ghost keys = issues@.map_values(|i: Issue| i.rule_id@);
        let ghost c0 = counts_view(self.remaining_per_rule@);
        let mut k: usize = 0;
        while k < issues.len()
            invariant
                k <= issues@.len(),
                self.files == old(self).files,
                self.mode == old(self).mode,
                self.fixes_applied == old(self).fixes_applied,
                self.fixes_per_rule == old(self).fixes_per_rule,
                self.remaining_issues == sat_add(old(self).remaining_issues, issues@.len()),
                keys == issues@.map_values(|i: Issue| i.rule_id@),
                counts_view(self.remaining_per_rule@) == tally_all(c0, keys.take(k as int)),
            decreases issues@.len() - k,
        {
            tally(&mut self.remaining_per_rule, issues[k].rule_id.as_str());
            assert(keys.take(k + 1).drop_last() =~= keys.take(k as int));
            k += 1;
        }
        assert(keys.take(issues@.len() as int) =~= keys);
        proof {
            if old(self).wf() {
                lemma_tally_all(c0, keys, seq![]);
            }
        }
    }
}

/// A leap year of the proleptic Gregorian calendar.
pub open spec fn is_leap_year(y: int) -> bool {
    y % 4 == 0 && (y % 100 != 0 || y % 400 == 0)
}

/// The number of days of month `m` (1 to 12) of year `y`.
pub open spec fn month_len(y: int, m: int) -> int {
    if m == 2 {
        if is_leap_year(y) {
            29
        } else {
            28
        }
    } else if m == 4 || m == 6 || m == 9 || m == 11 {
        30
    } else {
        31
    }
}

/// (year, month, day) is a date of the calendar.
pub open spec fn valid_date(c: (int, int, int)) -> bool {
    1 <= c.1 <= 12 && 1 <= c.2 <= month_len(c.0, c.1)
}

/// The day after date `c`.
pub open spec fn next_date(c: (int, int, int)) -> (int, int, int) {
    if c.2 < month_len(c.0, c.1) {
        (c.0, c.1, c.2 + 1)
    } else if c.1 < 12 {
        (c.0, c.1 + 1, 1)
    } else {
        (c.0 + 1, 1, 1)
    }
}

/// The date of day `doe` of era `era`, the 400 years from March 1 of year
/// 400 × `era` on.
pub open spec fn era_date(era: int, doe: int) -> (int, int, int) {
    let yoe = era_year(doe);
    let doy = doe - era_year_start(yoe);
    let mp = march_month(doy);
    let d = march_day(doy);
    let m = if mp < 10 {
        mp + 3
    } else {
        mp - 9
    };
    let y = yoe + era * 400;
    (if m <= 2 {
        y + 1
    } else {
        y
    }, m, d)
}

/// The civil date (year, month, day) of day `z` counted from 1970-01-01, by
/// the proleptic Gregorian calendar, computed in eras of 400 years that start
/// on March 1 (H. Hinnant's algorithm, in integers). `lemma_civil_epoch` and
/// `lemma_civil_next` show that it is the date `z` days after 1970-01-01.
pub open spec fn civil_spec(z: int) -> (int, int, int) {
    let zz = z + 719_468;
    let era = zz / 146_097;
    era_date(era, zz - era * 146_097)
}

/// `t` divided by `d` rounding down, and the remainder, for `d > 0`, without
/// leaving the `i64` range.
fn floor_div_rem(t: i64, d: i64) -> (r: (i64, i64))
    requires
        d > 0,
    ensures
        r.0 == t as int / d as int,
        r.1 == t as int % d as int,
{
    if t >= 0 {
        (t / d, t % d)
    } else {
        let u = -(t + 1);
        let q = u / d;
        let m = u % d;
        let r = (-q - 1, (d - 1) - m);
        assert(r.0 == t as int / d as int && r.1 == t as int % d as int) by (nonlinear_arith)
            requires
                t < 0,
                d > 0,
                u == -(t + 1),
                q == u / d,
                m == u % d,
                r.0 == -q - 1,
                r.1 == (d - 1) - m,
        {
            assert(u == d * q + m);
            assert(0 <= m < d);
            assert(t == d * (-q - 1) + ((d - 1) - m));
            assert(0 <= (d - 1) - m < d);
            vstd::arithmetic::div_mod::lemma_fundamental_div_mod_converse(t as int, d as int, -q - 1, (d - 1) - m);
        }
        r
    }
}


/// The civil date of day `z` counted from 1970-01-01 (see `civil_spec`); the
/// year is cut to an `i32`.
pub fn civil_from_days(z: i64) -> (r: (i32, u32, u32))
    requires
        z <= i64::MAX - 719_468,
    ensures
        r.0 == (civil_spec(z as int).0 as i32),
        r.1 == civil_spec(z as int).1,
        r.2 == civil_spec(z as int).2,
{
    let zp = z + 719_468;
    let (era, doe_i) = floor_div_rem(zp, 146_097);
    assert(doe_i == zp - era * 146_097) by {
        vstd::arithmetic::div_mod::lemma_fundamental_div_mod(zp as int, 146_097);
    }
    let doe = doe_i as u64;
    proof {
        lemma_era_year(doe as u32);
    }
    let yoe = (doe - doe / 1460 + doe / 36524 - doe / 146096) / 365;
    assert(yoe == era_year(doe as int));
    let y = yoe as i64 + era * 400;
    let doy = doe - (365 * yoe + yoe / 4 - yoe / 100);
    assert(doy == doe - era_year_start(yoe as int));
    proof {
        lemma_march_day(doy as u32);
    }
    let mp = (5 * doy + 2) / 153;
    assert(mp == march_month(doy as int));
    let d = (doy - (153 * mp + 2) / 5 + 1) as u32;
    assert(d == march_day(doy as int));
    let m_raw = if mp < 10 {
        mp + 3
    } else {
        mp - 9
    };
    let m = m_raw as u32;
    let year = if m <= 2 {
        y + 1
    } else {
        y
    };
    (year as i32, m, d)
}

/// `n` in decimal, padded with `'0'` on the left to at least `w` digits; a
/// negative number puts its `-` first and pads to `w` chars in all.
pub open spec fn padded(n: int, w: nat) -> Seq<char> {
    if n >= 0 {
        text::zero_pad(text::decimal(n as nat), w)
    } else {
        seq!['-'] + text::zero_pad(text::decimal((-n) as nat), if w >= 1 {
            (w - 1) as nat
        } else {
            0
        })
    }
}

/// Appends `n` padded (see `padded`).
fn push_padded(out: &mut String, n: i64, w: usize)
    requires
        n > i64::MIN,
        w <= 8,
    ensures
        final(out)@ == old(out)@ + padded(n as int, w as nat),
{
    let mut w = w;
    let mut v = n;
    let ghost w0 = w;
    if n < 0 {
        text::push_char(out, '-');
        v = -n;
        w = if w >= 1 {
            w - 1
        } else {
            0
        };
    }
    let ghost start = out@;
    let mut digits = String::new();
    text::push_decimal_u64(&mut digits, v as u64);
    assert(digits@ =~= text::decimal(v as nat));
    let dv = text::chars_of(digits.as_str());
    let len = dv.len();
    let mut k = len;
    while k < w
        invariant
            len == dv@.len(),
            len <= k,
            k <= w || k == len,
            out@ == start + Seq::new((k - len) as nat, |i: int| '0'),
        decreases w - k,
    {
        text::push_char(out, '0');
        assert(Seq::new((k + 1 - len) as nat, |i: int| '0') =~= Seq::new((k - len) as nat, |i: int| '0').push('0'));
        k += 1;
    }
    text::push_str(out, digits.as_str());
    proof {
        let z = Seq::new((k - len) as nat, |i: int| '0');
        assert(out@ == start + z + dv@);
        if len < w {
            assert(k == w);
            assert(text::zero_pad(dv@, w as nat) =~= z + dv@);
        } else {
            assert(z =~= Seq::<char>::empty());
            assert(text::zero_pad(dv@, w as nat) =~= z + dv@);
        }
        if n < 0 {
            assert(start == old(out)@.push('-'));
            assert(out@ =~= old(out)@ + padded(n as int, w0 as nat));
        } else {
            assert(out@ =~= old(out)@ + padded(n as int, w0 as nat));
        }
    }
}

/// `YYYY-MM-DDTHH:MM:SS.mmmZ` for `secs` seconds and `millis` milliseconds
/// after 1970-01-01T00:00:00Z (the seconds read as an `i64`).
pub open spec fn iso8601_spec(secs: u64, millis: u32) -> Seq<char> {
    let total = secs as i64 as int;
    let days = total / 86_400;
    let sod = total % 86_400;
    let c = civil_spec(days);
    padded((c.0 as i32) as int, 4) + "-"@ + padded(c.1, 2) + "-"@ + padded(c.2, 2) + "T"@ + padded(sod / 3600, 2)
        + ":"@ + padded((sod / 60) % 60, 2) + ":"@ + padded(sod % 60, 2) + "."@ + padded(millis as int, 3) + "Z"@
}

/// `YYYY-MM-DDTHH:MM:SS.mmmZ` for `secs` seconds and `millis` milliseconds
/// after the epoch (see `iso8601_spec`).
pub fn format_timestamp(secs: u64, millis: u32) -> (r: String)
    requires
        millis < 1000,
    ensures
        r@ == iso8601_spec(secs, millis),
{
    let total = secs as i64;
    let (days, sod) = floor_div_rem(total, 86_400);
    let h = sod / 3600;
    let m = (sod / 60) % 60;
    let s = sod % 60;
    let (year, month, day) = civil_from_days(days);
    let mut out = String::new();
    push_padded(&mut out, year as i64, 4);
    text::push_str(&mut out, "-");
    push_padded(&mut out, month as i64, 2);
    text::push_str(&mut out, "-");
    push_padded(&mut out, day as i64, 2);
    text::push_str(&mut out, "T");
    push_padded(&mut out, h, 2);
    text::push_str(&mut out, ":");
    push_padded(&mut out, m, 2);
    text::push_str(&mut out, ":");
    push_padded(&mut out, s, 2);
    text::push_str(&mut out, ".");
    push_padded(&mut out, millis as i64, 3);
    text::push_str(&mut out, "Z");
    assert(out@ =~= iso8601_spec(secs, millis));
    out
}

/// The whole seconds and the milliseconds past them from the Unix epoch to
/// `t`, as `SystemTime::duration_since(UNIX_EPOCH)` gives them (zero for a
/// time before the epoch). It depends on `t` alone.
pub uninterp spec fn epoch_parts(t: std::time::SystemTime) -> (u64, u32);

/// `SystemTime::duration_since(UNIX_EPOCH)`, whole seconds and the
/// milliseconds past them; zero for a time before the epoch. Claimed: the
/// result is `epoch_parts(t)`, and the milliseconds are below 1000.
#[verifier::external_body]
fn since_epoch(t: std::time::SystemTime) -> (r: (u64, u32))
    ensures
        r == epoch_parts(t),
        r.1 < 1000,
{
    let d = t.duration_since(std::time::UNIX_EPOCH).unwrap_or_default();
    (d.as_secs(), d.subsec_millis())
}

/// `t` as `YYYY-MM-DDTHH:MM:SS.mmmZ` (UTC).
pub fn format_iso8601_millis(t: std::time::SystemTime) -> (r: String)
    ensures
        r@ == iso8601_spec(epoch_parts(t).0, epoch_parts(t).1),
{
    let (secs, millis) = since_epoch(t);
    format_timestamp(secs, millis)
}


/// The year of an era (400 years from March 1 of a year divisible by 400)
/// that day `doe` of the era falls in, the year counted from March.
pub open spec fn era_year(doe: int) -> int {
    (doe - doe / 1460 + doe / 36524 - doe / 146096) / 365
}

/// The day of the era on which year `yoe` of the era starts.
pub open spec fn era_year_start(yoe: int) -> int {
    365 * yoe + yoe / 4 - yoe / 100
}

/// Year `yoe` of an era ends with a February 29.
pub open spec fn era_year_leap(yoe: int) -> bool {
    (yoe + 1) % 4 == 0 && ((yoe + 1) % 100 != 0 || yoe == 399)
}

/// The month, counted from March as 0, of day `doy` of a year counted from March.
pub open spec fn march_month(doy: int) -> int {
    (5 * doy + 2) / 153
}

/// The day of the month of day `doy` of a year counted from March.
pub open spec fn march_day(doy: int) -> int {
    doy - (153 * march_month(doy) + 2) / 5 + 1
}

/// The length of month `mp` counted from March; 29 for February.
pub open spec fn march_month_len(mp: int) -> int {
    if mp == 11 {
        29
    } else if mp == 1 || mp == 3 || mp == 6 || mp == 8 {
        30
    } else {
        31
    }
}

/// Each day of an era falls in a year of the era, 365 days long but for the
/// years that end with a February 29.
proof fn lemma_era_year(doe: u32)
    requires
        doe < 146097,
    ensures
        0 <= era_year(doe as int) < 400,
        era_year_start(era_year(doe as int)) <= doe,
        doe - era_year_start(era_year(doe as int)) <= 365,
        doe - era_year_start(era_year(doe as int)) == 365 ==> era_year_leap(era_year(doe as int)),
        era_year(doe as int) < 399 ==> doe < era_year_start(era_year(doe as int) + 1),
{
    assert({
        let y = (doe - doe / 1460 + doe / 36524 - doe / 146096) / 365;
        let st = 365 * y + y / 4 - y / 100;
        &&& 0 <= y < 400
        &&& st <= doe
        &&& doe - st <= 365
        &&& doe - st == 365 ==> (y + 1) % 4 == 0 && ((y + 1) % 100 != 0 || y == 399)
        &&& y < 399 ==> doe < 365 * (y + 1) + (y + 1) / 4 - (y + 1) / 100
    }) by (bit_vector)
        requires
            doe < 146097,
    ;
}

/// Each day of a year counted from March falls in one of its twelve months,
/// February having 28 days but in a year of 366.
proof fn lemma_march_day(doy: u32)
    requires
        doy <= 365,
    ensures
        0 <= march_month(doy as int) <= 11,
        1 <= march_day(doy as int) <= march_month_len(march_month(doy as int)),
        doy < 365 && march_month(doy as int) == 11 ==> march_day(doy as int) <= 28,
{
    assert({
        let mp = (5 * doy + 2) / 153;
        let d = doy - (153 * mp + 2) / 5 + 1;
        &&& 0 <= mp <= 11
        &&& 1 <= d
        &&& d <= (if mp == 11 { 29u32 } else if mp == 1 || mp == 3 || mp == 6 || mp == 8 { 30u32 } else { 31u32 })
        &&& doy < 365 && mp == 11 ==> d <= 28
    }) by (bit_vector)
        requires
            doy <= 365,
    ;
}

/// Year `y` of an era, but the last, runs up to the start of the next one.
proof fn lemma_era_year_len(y: u32)
    requires
        y < 399,
    ensures
        era_year_start(y + 1) - era_year_start(y as int) == (if era_year_leap(y as int) {
            366int
        } else {
            365int
        }),
{
    assert(365 * (y + 1) + (y + 1) / 4 - (y + 1) / 100 - (365 * y + y / 4 - y / 100) == (if (y + 1) % 4 == 0
        && ((y + 1) % 100 != 0 || y == 399) {
        366u32
    } else {
        365u32
    })) by (bit_vector)
        requires
            y < 399,
    ;
}

proof fn lemma_era_year_step(doe: u32)
    requires
        doe < 146096,
    ensures
        era_year(doe as int) <= era_year(doe + 1) <= era_year(doe as int) + 1,
{
    assert({
        let y = (doe - doe / 1460 + doe / 36524 - doe / 146096) / 365;
        let e = (doe + 1) as u32;
        let y2 = (e - e / 1460 + e / 36524 - e / 146096) / 365;
        y <= y2 <= y + 1
    }) by (bit_vector)
        requires
            doe < 146096,
    ;
}

/// The next day of an era is the next day of its year, or the first of the
/// next year after the last day of a year.
proof fn lemma_era_next(doe: u32)
    requires
        doe < 146096,
    ensures
        ({
            let y = era_year(doe as int);
            let st = era_year_start(y);
            let y2 = era_year(doe + 1);
            let st2 = era_year_start(y2);
            ||| (y2 == y && doe + 1 - st2 == doe - st + 1)
            ||| (y2 == y + 1 && doe + 1 == st2 && doe - st == (if era_year_leap(y) {
                365int
            } else {
                364int
            }))
        }),
{
    let y = era_year(doe as int);
    lemma_era_year(doe);
    lemma_era_year((doe + 1) as u32);
    lemma_era_year_step(doe);
    if era_year(doe + 1) == y + 1 {
        lemma_era_year_len(y as u32);
    }
}

/// The next day of a year counted from March is the next day of its month, or
/// the first of the next month after the last day of a month.
proof fn lemma_march_next(doy: u32)
    requires
        doy < 365,
    ensures
        ({
            let mp = march_month(doy as int);
            let d = march_day(doy as int);
            let mp2 = march_month(doy + 1);
            let d2 = march_day(doy + 1);
            ||| (mp2 == mp && d2 == d + 1)
            ||| (mp2 == mp + 1 && d2 == 1 && d == march_month_len(mp))
        }),
{
    assert({
        let mp = (5 * doy + 2) / 153;
        let d = doy - (153 * mp + 2) / 5 + 1;
        let e = (doy + 1) as u32;
        let mp2 = (5 * e + 2) / 153;
        let d2 = e - (153 * mp2 + 2) / 5 + 1;
        ||| (mp2 == mp && d2 == d + 1)
        ||| (mp2 == mp + 1 && d2 == 1 && d == (if mp == 11 { 29u32 } else if mp == 1 || mp == 3 || mp == 6 || mp == 8 { 30u32 } else { 31u32 }))
    }) by (bit_vector)
        requires
            doy < 365,
    ;
}

proof fn lemma_leap_of_era(era: int, yoe: int)
    requires
        0 <= yoe < 400,
    ensures
        is_leap_year(yoe + 1 + era * 400) == era_year_leap(yoe),
{
    let a = yoe + 1;
    vstd::arithmetic::div_mod::lemma_mod_multiples_vanish(100 * era, a, 4);
    vstd::arithmetic::div_mod::lemma_mod_multiples_vanish(4 * era, a, 100);
    vstd::arithmetic::div_mod::lemma_mod_multiples_vanish(era, a, 400);
    assert(4 * (100 * era) + a == a + era * 400);
    assert(100 * (4 * era) + a == a + era * 400);
    assert(400 * era + a == a + era * 400);
    if a < 400 {
        vstd::arithmetic::div_mod::lemma_small_mod(a as nat, 400);
    }
}

proof fn lemma_era_date_valid(era: int, doe: int)
    requires
        0 <= doe < 146097,
    ensures
        valid_date(era_date(era, doe)),
{
    lemma_era_year(doe as u32);
    let yoe = era_year(doe);
    let doy = doe - era_year_start(yoe);
    lemma_march_day(doy as u32);
    lemma_leap_of_era(era, yoe);
}

proof fn lemma_era_date_next(era: int, doe: int)
    requires
        0 <= doe < 146096,
    ensures
        era_date(era, doe + 1) == next_date(era_date(era, doe)),
{
    lemma_era_year(doe as u32);
    lemma_era_year((doe + 1) as u32);
    lemma_era_next(doe as u32);
    let yoe = era_year(doe);
    let doy = doe - era_year_start(yoe);
    lemma_march_day(doy as u32);
    lemma_leap_of_era(era, yoe);
    if era_year(doe + 1) == yoe {
        lemma_march_next(doy as u32);
        lemma_march_day((doy + 1) as u32);
    } else {
        assert(march_month(364) == 11 && march_day(364) == 28);
        assert(march_month(365) == 11 && march_day(365) == 29);
        assert(march_month(0) == 0 && march_day(0) == 1);
    }
}

proof fn lemma_era_date_wrap(era: int)
    ensures
        era_date(era + 1, 0) == next_date(era_date(era, 146096)),
{
    assert(era_year(146096) == 399 && era_year_start(399) == 145731);
    assert(march_month(365) == 11 && march_day(365) == 29);
    assert(era_year(0) == 0 && era_year_start(0) == 0);
    assert(march_month(0) == 0 && march_day(0) == 1);
    lemma_leap_of_era(era, 399);
}

/// Law: day 0 is 1970-01-01.
pub proof fn lemma_civil_epoch()
    ensures
        civil_spec(0) == (1970int, 1int, 1int),
{
    assert(civil_spec(0) == (1970int, 1int, 1int));
}

/// Law: every day is a date of the calendar, and day `z + 1` is the date
/// after that of day `z`; with `lemma_civil_epoch`, day `z` is the date `z`
/// days after 1970-01-01.
pub proof fn lemma_civil_next(z: int)
    ensures
        valid_date(civil_spec(z)),
        civil_spec(z + 1) == next_date(civil_spec(z)),
{
    let zz = z + 719_468;
    let era = zz / 146_097;
    vstd::arithmetic::div_mod::lemma_fundamental_div_mod(zz, 146_097);
    let doe = zz - era * 146_097;
    assert(doe == zz % 146_097);
    lemma_era_date_valid(era, doe);
    if doe < 146_096 {
        vstd::arithmetic::div_mod::lemma_fundamental_div_mod_converse(zz + 1, 146_097, era, doe + 1);
        assert(zz + 1 - era * 146_097 == doe + 1);
        lemma_era_date_next(era, doe);
    } else {
        vstd::arithmetic::div_mod::lemma_fundamental_div_mod_converse(zz + 1, 146_097, era + 1, 0);
        assert(zz + 1 - (era + 1) * 146_097 == 0);
        lemma_era_date_wrap(era);
    }
}

} // verus!

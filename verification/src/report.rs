//! The report of one file: its path once, then one line per (rule, message)
//! with all the positions where it was found.

use vstd::prelude::*;
use crate::rule::{Issue, IssueView};
use crate::rules::prh::last_slash;
use crate::text;

verus! {

/// The part of a rule id after its last `/`.
pub open spec fn short_id(rule_id: Seq<char>) -> Seq<char> {
    rule_id.subrange(last_slash(rule_id, rule_id.len() as int) + 1, rule_id.len() as int)
}

/// The part of a rule id after its last `/` (a preset's rules drop the preset).
pub fn short_rule_id(rule_id: &str) -> (r: String)
    ensures
        r@ == short_id(rule_id@),
{
    let c = text::chars_of(rule_id);
    let mut n: usize = c.len();
    while n > 0
        invariant
            n <= c@.len(),
            c@ == rule_id@,
            last_slash(c@, c@.len() as int) == last_slash(c@, n as int),
        ensures
            n <= c@.len(),
            c@ == rule_id@,
            last_slash(c@, c@.len() as int) == last_slash(c@, n as int),
            n == 0 || c@[n - 1] == '/',
        decreases n,
    {
        if c[n - 1] == '/' {
            break;
        }
        n -= 1;
    }
    assert(last_slash(c@, c@.len() as int) + 1 == n) by {
        if n > 0 {
        }
    }
    text::string_of(&c, n, c.len())
}

/// A group of the report: rule id, message, positions.
pub type Group = (Seq<char>, Seq<char>, Seq<(usize, usize)>);

/// The index of the group of `gs` for (`rule`, `message`), or the length.
pub open spec fn find_group(gs: Seq<Group>, rule: Seq<char>, message: Seq<char>, i: int) -> int
    decreases gs.len() - i,
{
    if i < 0 || i >= gs.len() {
        gs.len() as int
    } else if gs[i].0 == rule && gs[i].1 == message {
        i
    } else {
        find_group(gs, rule, message, i + 1)
    }
}

/// `gs` with issue `x` added: to the group of its rule and message (unless its
/// position repeats that group's last one), or as a new group at the end.
pub open spec fn add_issue(gs: Seq<Group>, x: IssueView) -> Seq<Group> {
    let loc = (x.line, x.column);
    let g = find_group(gs, x.rule_id, x.message, 0);
    if g < gs.len() {
        let locs = gs[g].2;
        if locs.len() > 0 && locs.last() == loc {
            gs
        } else {
            gs.update(g, (gs[g].0, gs[g].1, locs.push(loc)))
        }
    } else {
        gs.push((x.rule_id, x.message, seq![loc]))
    }
}

/// The groups of the first `n` issues, in order of first occurrence.
pub open spec fn groups_upto(issues: Seq<IssueView>, n: int) -> Seq<Group>
    decreases n,
{
    if n <= 0 {
        seq![]
    } else {
        add_issue(groups_upto(issues, n - 1), issues[n - 1])
    }
}

/// No two groups share their rule id and message.
pub open spec fn keys_distinct(gs: Seq<Group>) -> bool {
    forall|a: int, b: int|
        0 <= a < b < gs.len() ==> !(#[trigger] gs[a].0 == #[trigger] gs[b].0 && gs[a].1 == gs[b].1)
}

proof fn lemma_find_group(gs: Seq<Group>, rule: Seq<char>, message: Seq<char>, i: int)
    requires
        0 <= i <= gs.len(),
    ensures
        i <= find_group(gs, rule, message, i) <= gs.len(),
        forall|j: int|
            i <= j < find_group(gs, rule, message, i) ==> !(#[trigger] gs[j].0 == rule && gs[j].1 == message),
        find_group(gs, rule, message, i) < gs.len() ==> gs[find_group(gs, rule, message, i)].0 == rule
            && gs[find_group(gs, rule, message, i)].1 == message,
    decreases gs.len() - i,
{
    if i < gs.len() && !(gs[i].0 == rule && gs[i].1 == message) {
        lemma_find_group(gs, rule, message, i + 1);
    }
}

proof fn lemma_find_group_at(gs: Seq<Group>, g: int)
    requires
        keys_distinct(gs),
        0 <= g < gs.len(),
    ensures
        find_group(gs, gs[g].0, gs[g].1, 0) == g,
{
    let f = find_group(gs, gs[g].0, gs[g].1, 0);
    lemma_find_group(gs, gs[g].0, gs[g].1, 0);
    if f < g {
        assert(gs[f].0 == gs[g].0 && gs[f].1 == gs[g].1);
    }
}

/// Law: in the report each (rule id, message) has one line, and that line
/// lists the position of every issue with that rule id and message.
pub proof fn lemma_groups(issues: Seq<IssueView>, n: int)
    requires
        0 <= n <= issues.len(),
    ensures
        keys_distinct(groups_upto(issues, n)),
        forall|k: int|
            0 <= k < n ==> {
                let gs = groups_upto(issues, n);
                let g = find_group(gs, (#[trigger] issues[k]).rule_id, issues[k].message, 0);
                &&& g < gs.len()
                &&& gs[g].2.contains((issues[k].line, issues[k].column))
            },
    decreases n,
{
    if n > 0 {
        lemma_groups(issues, n - 1);
        let gs = groups_upto(issues, n - 1);
        let x = issues[n - 1];
        let t = groups_upto(issues, n);
        assert(t == add_issue(gs, x));
        let g = find_group(gs, x.rule_id, x.message, 0);
        lemma_find_group(gs, x.rule_id, x.message, 0);
        let loc = (x.line, x.column);
        assert(t.len() >= gs.len());
        assert forall|j: int| 0 <= j < gs.len() implies #[trigger] t[j].0 == gs[j].0 && t[j].1 == gs[j].1 by {
            if g < gs.len() {
                let locs = gs[g].2;
                if !(locs.len() > 0 && locs.last() == loc) {
                    assert(t == gs.update(g, (gs[g].0, gs[g].1, locs.push(loc))));
                }
            } else {
                assert(t == gs.push((x.rule_id, x.message, seq![loc])));
            }
        }
        assert(keys_distinct(t)) by {
            assert forall|a: int, b: int| 0 <= a < b < t.len() implies !(#[trigger] t[a].0 == #[trigger] t[b].0
                && t[a].1 == t[b].1) by {
                if b < gs.len() {
                    assert(t[a].0 == gs[a].0 && t[a].1 == gs[a].1);
                    assert(t[b].0 == gs[b].0 && t[b].1 == gs[b].1);
                } else {
                    assert(t[a].0 == gs[a].0 && t[a].1 == gs[a].1);
                }
            }
        }
        assert forall|k: int| 0 <= k < n implies {
            let h = find_group(t, (#[trigger] issues[k]).rule_id, issues[k].message, 0);
            &&& h < t.len()
            &&& t[h].2.contains((issues[k].line, issues[k].column))
        } by {
            let y = issues[k];
            let yl = (y.line, y.column);
            if k == n - 1 {
                if g < gs.len() {
                    let locs = gs[g].2;
                    if locs.len() > 0 && locs.last() == loc {
                        assert(locs[locs.len() - 1] == loc);
                    } else {
                        assert(t[g].2 == locs.push(loc));
                        assert(t[g].2[locs.len() as int] == loc);
                    }
                    lemma_find_group_at(t, g);
                } else {
                    assert(t[g].2 == seq![loc]);
                    assert(t[g].2[0] == loc);
                    lemma_find_group_at(t, g);
                }
            } else {
                let h = find_group(gs, y.rule_id, y.message, 0);
                lemma_find_group(gs, y.rule_id, y.message, 0);
                assert(gs[h].2.contains(yl));
                let w = choose|w: int| 0 <= w < gs[h].2.len() && gs[h].2[w] == yl;
                if g < gs.len() && h == g {
                    let locs = gs[g].2;
                    if !(locs.len() > 0 && locs.last() == loc) {
                        assert(t[g].2 == locs.push(loc));
                        assert(t[g].2[w] == yl);
                    }
                } else if g < gs.len() {
                    assert(t[h] == gs[h]);
                } else {
                    assert(t[h] == gs[h]);
                }
                assert(t[h].2.contains(yl));
                lemma_find_group_at(t, h);
            }
        }
    }
}

/// `line:column` of each position, joined by `,`.
pub open spec fn render_locs(locs: Seq<(usize, usize)>) -> Seq<char>
    decreases locs.len(),
{
    if locs.len() == 0 {
        seq![]
    } else if locs.len() == 1 {
        text::decimal(locs[0].0 as nat) + ":"@ + text::decimal(locs[0].1 as nat)
    } else {
        render_locs(locs.drop_last()) + ","@ + text::decimal(locs.last().0 as nat) + ":"@ + text::decimal(
            locs.last().1 as nat,
        )
    }
}

/// `message` on one line: each line feed made a space.
pub open spec fn one_line(message: Seq<char>) -> Seq<char> {
    message.map_values(|c: char| if c == '\n' { ' ' } else { c })
}

pub open spec fn render_group(g: Group) -> Seq<char> {
    render_locs(g.2) + " "@ + short_id(g.0) + " "@ + one_line(g.1) + "\n"@
}

pub open spec fn render_groups(gs: Seq<Group>) -> Seq<char>
    decreases gs.len(),
{
    if gs.len() == 0 {
        seq![]
    } else {
        render_groups(gs.drop_last()) + render_group(gs.last())
    }
}

/// The report of one file: nothing where there is no issue; else its path on
/// a line, then a line per group.
pub open spec fn report_spec(path: Seq<char>, issues: Seq<IssueView>) -> Seq<char> {
    if issues.len() == 0 {
        seq![]
    } else {
        path + "\n"@ + render_groups(groups_upto(issues, issues.len() as int))
    }
}

struct GroupRec {
    rule_id: String,
    message: String,
    locs: Vec<(usize, usize)>,
}

spec fn recs_view(v: Seq<GroupRec>) -> Seq<Group> {
    v.map_values(|g: GroupRec| (g.rule_id@, g.message@, g.locs@))
}

fn add_issue_exec(gs: &mut Vec<GroupRec>, x: &Issue)
    ensures
        recs_view(final(gs)@) == add_issue(recs_view(old(gs)@), x@),
{
    let ghost g0 = recs_view(gs@);
    let loc = (x.line, x.column);
    let mut i: usize = 0;
    while i < gs.len()
        invariant
            i <= gs@.len(),
            gs@ == old(gs)@,
            g0 == recs_view(gs@),
            loc == (x.line, x.column),
            find_group(g0, x@.rule_id, x@.message, 0) == find_group(g0, x@.rule_id, x@.message, i as int),
        decreases gs@.len() - i,
    {
        if text::str_eq(gs[i].rule_id.as_str(), x.rule_id.as_str()) && text::str_eq(
            gs[i].message.as_str(),
            x.message.as_str(),
        ) {
            assert(g0[i as int] == (gs@[i as int].rule_id@, gs@[i as int].message@, gs@[i as int].locs@));
            assert(find_group(g0, x@.rule_id, x@.message, i as int) == i);
            let n = gs[i].locs.len();
            if n > 0 && gs[i].locs[n - 1].0 == loc.0 && gs[i].locs[n - 1].1 == loc.1 {
                let ghost l = gs@[i as int].locs@;
                assert(l[n - 1].0 == x@.line && l[n - 1].1 == x@.column);
                assert(l.last() == l[n - 1]);
                assert(g0[i as int].2 == l);
                assert(g0[i as int].2.last() == (x@.line, x@.column));
                return;
            }
            let mut locs: Vec<(usize, usize)> = Vec::new();
            let mut k: usize = 0;
            while k < n
                invariant
                    k <= n,
                    i < gs@.len(),
                    gs@ == old(gs)@,
                    g0 == recs_view(gs@),
                    loc == (x.line, x.column),
                    g0[i as int].2 == gs@[i as int].locs@,
                    n == gs@[i as int].locs@.len(),
                    locs@ == gs@[i as int].locs@.take(k as int),
                decreases n - k,
            {
                locs.push(gs[i].locs[k]);
                assert(gs@[i as int].locs@.take(k + 1) =~= gs@[i as int].locs@.take(k as int).push(
                    gs@[i as int].locs@[k as int],
                ));
                k += 1;
            }
            assert(gs@[i as int].locs@.take(n as int) =~= gs@[i as int].locs@);
            locs.push(loc);
            let rec = GroupRec {
                rule_id: gs[i].rule_id.as_str().to_owned(),
                message: gs[i].message.as_str().to_owned(),
                locs,
            };
            assert(locs@ == g0[i as int].2.push((x@.line, x@.column)));
            let ghost nv = (rec.rule_id@, rec.message@, rec.locs@);
            assert(nv == (g0[i as int].0, g0[i as int].1, g0[i as int].2.push((x@.line, x@.column))));
            gs.set(i, rec);
            assert(recs_view(gs@) =~= g0.update(i as int, nv));
            assert(recs_view(gs@) =~= add_issue(g0, x@));
            return;
        }
        i += 1;
    }
    let mut locs: Vec<(usize, usize)> = Vec::new();
    locs.push(loc);
    gs.push(GroupRec { rule_id: x.rule_id.as_str().to_owned(), message: x.message.as_str().to_owned(), locs });
    assert(recs_view(gs@) =~= add_issue(g0, x@));
}

fn push_locs(out: &mut String, locs: &Vec<(usize, usize)>)
    ensures
        final(out)@ == old(out)@ + render_locs(locs@),
{
    let mut k: usize = 0;
    assert(locs@.take(0) =~= Seq::<(usize, usize)>::empty());
    while k < locs.len()
        invariant
            k <= locs@.len(),
            out@ == old(out)@ + render_locs(locs@.take(k as int)),
        decreases locs@.len() - k,
    {
        let ghost before = out@;
        if k > 0 {
            text::push_str(out, ",");
        }
        text::push_decimal(out, locs[k].0);
        text::push_str(out, ":");
        text::push_decimal(out, locs[k].1);
        let ghost t = locs@.take(k + 1);
        assert(t.drop_last() =~= locs@.take(k as int));
        assert(t.last() == locs@[k as int]);
        assert(out@ =~= old(out)@ + render_locs(t));
        k += 1;
    }
    assert(locs@.take(locs@.len() as int) =~= locs@);
}

/// The report of one file (see `report_spec`).
pub fn format_file_issues(display_path: &str, issues: &[Issue]) -> (r: String)
    ensures
        r@ == report_spec(display_path@, issues@.map_values(|i: Issue| i@)),
{
    let ghost iv = issues@.map_values(|i: Issue| i@);
    if issues.len() == 0 {
        return String::new();
    }
    let mut gs: Vec<GroupRec> = Vec::new();
    let mut k: usize = 0;
    assert(recs_view(gs@) =~= groups_upto(iv, 0));
    while k < issues.len()
        invariant
            k <= issues@.len(),
            iv == issues@.map_values(|i: Issue| i@),
            recs_view(gs@) == groups_upto(iv, k as int),
        decreases issues@.len() - k,
    {
        add_issue_exec(&mut gs, &issues[k]);
        k += 1;
    }
    let mut out = String::new();
    text::push_str(&mut out, display_path);
    text::push_str(&mut out, "\n");
    let ghost head = out@;
    let ghost gv = recs_view(gs@);
    let mut q: usize = 0;
    assert(gv.take(0) =~= Seq::<Group>::empty());
    while q < gs.len()
        invariant
            q <= gs@.len(),
            gv == recs_view(gs@),
            out@ == head + render_groups(gv.take(q as int)),
        decreases gs@.len() - q,
    {
        let g = &gs[q];
        push_locs(&mut out, &g.locs);
        text::push_str(&mut out, " ");
        let short = short_rule_id(g.rule_id.as_str());
        text::push_str(&mut out, short.as_str());
        text::push_str(&mut out, " ");
        let mc = text::chars_of(g.message.as_str());
        let mut j: usize = 0;
        let ghost before_msg = out@;
        while j < mc.len()
            invariant
                j <= mc@.len(),
                out@ == before_msg + one_line(mc@.take(j as int)),
            decreases mc@.len() - j,
        {
            let c = mc[j];
            text::push_char(&mut out, if c == '\n' {
                ' '
            } else {
                c
            });
            assert(one_line(mc@.take(j + 1)) =~= one_line(mc@.take(j as int)).push(if c == '\n' {
                ' '
            } else {
                c
            }));
            j += 1;
        }
        assert(mc@.take(mc@.len() as int) =~= mc@);
        text::push_str(&mut out, "\n");
        let ghost t = gv.take(q + 1);
        assert(t.drop_last() =~= gv.take(q as int));
        assert(t.last() == gv[q as int]);
        assert(out@ =~= head + render_groups(t));
        q += 1;
    }
    assert(gv.take(gs@.len() as int) =~= gv);
    out
}

/// What `Path::strip_prefix` leaves of `path` under `base`, read as a string;
/// `None` where `base` is not a prefix of it.
pub uninterp spec fn path_stripped(path: Seq<char>, base: Seq<char>) -> Option<Seq<char>>;

/// `std::path::Path::strip_prefix`, the rest displayed as a string.
#[verifier::external_body]
fn strip_prefix(path: &str, base: &str) -> (r: Option<String>)
    ensures
        match r {
            Some(s) => path_stripped(path@, base@) == Some(s@),
            None => path_stripped(path@, base@) is None,
        },
{
    match std::path::Path::new(path).strip_prefix(base) {
        Ok(rel) => Some(rel.display().to_string()),
        Err(_) => None,
    }
}

/// The path of a file as the report shows it: relative to `cwd` where it lies
/// under it (and is not `cwd` itself), else as given.
pub open spec fn display_spec(path: Seq<char>, cwd: Option<Seq<char>>) -> Seq<char> {
    match cwd {
        Some(c) => match path_stripped(path, c) {
            Some(rel) => if rel.len() > 0 {
                rel
            } else {
                path
            },
            None => path,
        },
        None => path,
    }
}

/// The path of a file as the report shows it (see `display_spec`).
pub fn display_path(path: &str, cwd: Option<&str>) -> (r: String)
    ensures
        r@ == display_spec(path@, match cwd {
            Some(c) => Some(c@),
            None => None,
        }),
{
    match cwd {
        Some(c) => match strip_prefix(path, c) {
            Some(rel) => {
                if text::str_byte_len(rel.as_str()) > 0 {
                    proof {
                        if rel@.len() == 0 {
                            assert(text::byte_len(rel@) == 0) by {
                                text::lemma_byte_pos_zero(rel@);
                                assert(rel@.take(0) =~= rel@);
                            }
                        }
                    }
                    rel
                } else {
                    proof {
                        crate::document::lemma_chars_le_bytes(rel@);
                    }
                    path.to_owned()
                }
            },
            None => path.to_owned(),
        },
        None => path.to_owned(),
    }
}

} // verus!

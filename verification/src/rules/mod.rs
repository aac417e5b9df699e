//! The rules, and what they share.

pub mod ai_writing;
pub mod ja_spacing;
pub mod jt;
pub mod prh;
pub mod unslop;

use vstd::prelude::*;
use crate::document::{self, Document, DocumentView, SegmentKind, SegmentView};
use crate::text;
use crate::rule::{self, Issue, IssueView};

verus! {

/// Kinds of blocks that hold running text.
pub open spec fn str_bearing(kind: SegmentKind) -> bool {
    kind == SegmentKind::Paragraph || kind == SegmentKind::Heading || kind == SegmentKind::ListItem
        || kind == SegmentKind::TableCell
}

pub fn is_str_bearing(kind: SegmentKind) -> (r: bool)
    ensures
        r == str_bearing(kind),
{
    match kind {
        SegmentKind::Paragraph | SegmentKind::Heading | SegmentKind::ListItem | SegmentKind::TableCell => true,
        _ => false,
    }
}

/// The issues `f` finds at indices `0..n` (of chars, matches, ...), in order.
pub open spec fn per_index(n: nat, f: spec_fn(int) -> Seq<IssueView>) -> Seq<IssueView>
    decreases n,
{
    if n == 0 {
        seq![]
    } else {
        per_index((n - 1) as nat, f) + f(n - 1)
    }
}

/// `per_index` reads `f` on `0..n` only.
pub proof fn lemma_per_index_ext(n: nat, f: spec_fn(int) -> Seq<IssueView>, g: spec_fn(int) -> Seq<IssueView>)
    requires
        forall|k: int| 0 <= k < n ==> #[trigger] f(k) == g(k),
    ensures
        per_index(n, f) == per_index(n, g),
    decreases n,
{
    if n > 0 {
        lemma_per_index_ext((n - 1) as nat, f, g);
    }
}

/// How many times `c` occurs among chars `a..b` of `t`.
pub open spec fn count_in(t: Seq<char>, a: int, b: int, c: char) -> nat
    decreases b - a,
{
    if b <= a {
        0
    } else {
        count_in(t, a, b - 1, c) + (if t[b - 1] == c {
            1nat
        } else {
            0nat
        })
    }
}

/// The index of the last `c` among chars `a..b` of `t`, or `a` where there is none.
pub open spec fn last_in(t: Seq<char>, a: int, b: int, c: char) -> int
    decreases b - a,
{
    if b <= a {
        a
    } else if t[b - 1] == c {
        b - 1
    } else {
        last_in(t, a, b - 1, c)
    }
}

/// How many times `c` occurs among chars `a..b`, and the index of the last one
/// (`a` where there is none).
pub fn count_and_last(chars: &Vec<char>, a: usize, b: usize, c: char) -> (r: (usize, usize))
    requires
        a <= b <= chars@.len(),
    ensures
        r.0 == count_in(chars@, a as int, b as int, c),
        r.1 == last_in(chars@, a as int, b as int, c),
        a <= r.1 <= b,
        r.1 < b || r.1 == a,
{
    let mut n: usize = 0;
    let mut last: usize = a;
    let mut k: usize = a;
    while k < b
        invariant
            a <= k <= b <= chars@.len(),
            n == count_in(chars@, a as int, k as int, c),
            n <= k - a,
            last == last_in(chars@, a as int, k as int, c),
            a <= last <= k,
            last < k || last == a,
        decreases b - k,
    {
        if chars[k] == c {
            n += 1;
            last = k;
        }
        k += 1;
    }
    (n, last)
}

/// Whether `c` has the Unicode White_Space property, as `char::is_whitespace`
/// documents it.
pub open spec fn white_space(c: char) -> bool {
    let v = c as u32;
    (0x9 <= v <= 0xD) || v == 0x20 || v == 0x85 || v == 0xA0 || v == 0x1680 || (0x2000 <= v <= 0x200A)
        || v == 0x2028 || v == 0x2029 || v == 0x202F || v == 0x205F || v == 0x3000
}

pub fn is_white_space(c: char) -> (r: bool)
    ensures
        r == white_space(c),
{
    let v = c as u32;
    (0x9 <= v && v <= 0xD) || v == 0x20 || v == 0x85 || v == 0xA0 || v == 0x1680 || (0x2000 <= v && v
        <= 0x200A) || v == 0x2028 || v == 0x2029 || v == 0x202F || v == 0x205F || v == 0x3000
}

/// The first index in `a..b` whose char is not white space, or `b`.
pub open spec fn trim_start(t: Seq<char>, a: int, b: int) -> int
    decreases b - a,
{
    if a >= b {
        b
    } else if white_space(t[a]) {
        trim_start(t, a + 1, b)
    } else {
        a
    }
}

/// One past the last index in `a..b` whose char is not white space, or `a`.
pub open spec fn trim_end(t: Seq<char>, a: int, b: int) -> int
    decreases b - a,
{
    if b <= a {
        a
    } else if white_space(t[b - 1]) {
        trim_end(t, a, b - 1)
    } else {
        b
    }
}

pub fn trim_start_exec(chars: &Vec<char>, a: usize, b: usize) -> (r: usize)
    requires
        a <= b <= chars@.len(),
    ensures
        r == trim_start(chars@, a as int, b as int),
        a <= r <= b,
    decreases b - a,
{
    if a >= b {
        b
    } else if is_white_space(chars[a]) {
        trim_start_exec(chars, a + 1, b)
    } else {
        a
    }
}

pub fn trim_end_exec(chars: &Vec<char>, a: usize, b: usize) -> (r: usize)
    requires
        a <= b <= chars@.len(),
    ensures
        r == trim_end(chars@, a as int, b as int),
        a <= r <= b,
    decreases b - a,
{
    if b <= a {
        a
    } else if is_white_space(chars[b - 1]) {
        trim_end_exec(chars, a, b - 1)
    } else {
        b
    }
}


/// Some range of `ranges` overlaps the byte range `[s, e)`.
pub open spec fn overlaps_any(ranges: Seq<(usize, usize)>, s: int, e: int) -> bool {
    exists|q: int| 0 <= q < ranges.len() && s < (#[trigger] ranges[q]).1 && ranges[q].0 < e
}

pub fn overlaps_any_exec(ranges: &Vec<(usize, usize)>, s: usize, e: usize) -> (r: bool)
    ensures
        r == overlaps_any(ranges@, s as int, e as int),
{
    let mut q: usize = 0;
    while q < ranges.len()
        invariant
            q <= ranges@.len(),
            forall|p: int| 0 <= p < q ==> !(s < (#[trigger] ranges@[p]).1 && ranges@[p].0 < e),
        decreases ranges@.len() - q,
    {
        let (cs, ce) = ranges[q];
        if s < ce && cs < e {
            return true;
        }
        q += 1;
    }
    false
}

/// Which chars end a sentence.
#[derive(Clone, Copy, PartialEq, Eq, Structural)]
pub enum Terminators {
    /// `。`, `！`, `？` and line feed.
    Japanese,
    /// Those, and `!`, `?` and `．`.
    Mixed,
}

pub open spec fn ends_sentence(set: Terminators, c: char) -> bool {
    c == '。' || c == '！' || c == '？' || c == '\n' || (set == Terminators::Mixed && (c == '!' || c == '?'
        || c == '．'))
}

pub fn is_terminator(set: Terminators, c: char) -> (r: bool)
    ensures
        r == ends_sentence(set, c),
{
    c == '。' || c == '！' || c == '？' || c == '\n' || (set == Terminators::Mixed && (c == '!' || c == '?'
        || c == '．'))
}

/// The sentences ended among the first `k` chars of `t`, as char ranges, and
/// where the next one starts.
pub open spec fn sentences_upto(t: Seq<char>, set: Terminators, k: nat) -> (Seq<(int, int)>, int)
    decreases k,
{
    if k == 0 {
        (seq![], 0)
    } else {
        let (l, st) = sentences_upto(t, set, (k - 1) as nat);
        if ends_sentence(set, t[k - 1]) {
            (l.push((st, k as int)), k as int)
        } else {
            (l, st)
        }
    }
}

/// The sentences of `t` as char ranges: each runs through its terminator, and
/// a last one without a terminator runs to the end, where it is not empty.
pub open spec fn sentences(t: Seq<char>, set: Terminators) -> Seq<(int, int)> {
    let (l, st) = sentences_upto(t, set, t.len());
    if st < t.len() {
        l.push((st, t.len() as int))
    } else {
        l
    }
}

pub proof fn lemma_sentences_upto(t: Seq<char>, set: Terminators, k: nat)
    requires
        k <= t.len(),
    ensures
        0 <= sentences_upto(t, set, k).1 <= k,
        forall|q: int|
            0 <= q < sentences_upto(t, set, k).0.len() ==> {
                let r = #[trigger] sentences_upto(t, set, k).0[q];
                0 <= r.0 < r.1 <= sentences_upto(t, set, k).1
            },
    decreases k,
{
    if k > 0 {
        lemma_sentences_upto(t, set, (k - 1) as nat);
    }
}

/// Char ranges held as `usize` pairs, read as `int` pairs.
pub open spec fn ranges_view(v: Seq<(usize, usize)>) -> Seq<(int, int)> {
    v.map_values(|p: (usize, usize)| (p.0 as int, p.1 as int))
}

/// The sentences of the chars `chars`, as char ranges.
pub fn split_sentences(chars: &Vec<char>, set: Terminators) -> (r: Vec<(usize, usize)>)
    ensures
        ranges_view(r@) == sentences(chars@, set),
        forall|q: int| 0 <= q < r@.len() ==> #[trigger] r@[q].0 < r@[q].1 <= chars@.len(),
{
    let mut out: Vec<(usize, usize)> = Vec::new();
    let mut start: usize = 0;
    let mut k: usize = 0;
    assert(ranges_view(out@) =~= seq![]);
    while k < chars.len()
        invariant
            k <= chars@.len(),
            start <= k,
            sentences_upto(chars@, set, k as nat).1 == start,
            ranges_view(out@) == sentences_upto(chars@, set, k as nat).0,
            forall|q: int| 0 <= q < out@.len() ==> #[trigger] out@[q].0 < out@[q].1 <= k,
        decreases chars@.len() - k,
    {
        if is_terminator(set, chars[k]) {
            let ghost prev = out@;
            out.push((start, k + 1));
            assert(ranges_view(out@) =~= ranges_view(prev).push((start as int, k + 1)));
            assert forall|q: int| 0 <= q < out@.len() implies #[trigger] out@[q].0 < out@[q].1 <= k + 1 by {
                if q < prev.len() {
                    assert(out@[q] == prev[q]);
                }
            }
            start = k + 1;
        }
        k += 1;
    }
    if start < chars.len() {
        let ghost prev = out@;
        out.push((start, chars.len()));
        assert(ranges_view(out@) =~= ranges_view(prev).push((start as int, chars@.len() as int)));
        assert forall|q: int| 0 <= q < out@.len() implies #[trigger] out@[q].0 < out@[q].1 <= chars@.len() by {
            if q < prev.len() {
                assert(out@[q] == prev[q]);
            }
        }
    }
    out
}

/// A rule that looks at one segment at a time.
pub trait SegmentRule {
    /// The issues the rule reports on segment `seg` of `doc`.
    spec fn segment_spec(&self, doc: DocumentView, seg: SegmentView) -> Seq<IssueView>;

    /// Appends the issues of segment `i` to `out`.
    fn check_segment(&self, doc: &Document, i: usize, out: &mut Vec<Issue>)
        requires
            doc.wf(),
            i < doc@.segments.len(),
            rule::fixes_fit(doc@.source, rule::issues_view(old(out)@)),
        ensures
            rule::issues_view(final(out)@) == rule::issues_view(old(out)@) + self.segment_spec(
                doc@,
                doc@.segments[i as int],
            ),
            rule::fixes_fit(doc@.source, rule::issues_view(final(out)@)),
    ;
}

/// The issues `r` reports on the first `n` segments of `doc`, in segment order.
pub open spec fn segments_upto<R: SegmentRule>(r: &R, doc: DocumentView, n: nat) -> Seq<IssueView>
    decreases n,
{
    if n == 0 {
        seq![]
    } else {
        segments_upto(r, doc, (n - 1) as nat) + r.segment_spec(doc, doc.segments[n - 1])
    }
}

/// The issues `r` reports on `doc`: those of each segment, in segment order.
pub open spec fn all_segments<R: SegmentRule>(r: &R, doc: DocumentView) -> Seq<IssueView> {
    segments_upto(r, doc, doc.segments.len())
}

/// Runs a segment rule over every segment of `doc`.
pub fn check_segments<R: SegmentRule>(r: &R, doc: &Document) -> (out: Vec<Issue>)
    requires
        doc.wf(),
    ensures
        rule::issues_view(out@) == all_segments(r, doc@),
        rule::fixes_fit(doc@.source, rule::issues_view(out@)),
{
    let mut out: Vec<Issue> = Vec::new();
    let n = doc.segment_count();
    let mut i: usize = 0;
    assert(rule::issues_view(out@) =~= segments_upto(r, doc@, 0));
    while i < n
        invariant
            doc.wf(),
            n == doc@.segments.len(),
            i <= n,
            rule::issues_view(out@) == segments_upto(r, doc@, i as nat),
            rule::fixes_fit(doc@.source, rule::issues_view(out@)),
        decreases n - i,
    {
        r.check_segment(doc, i, &mut out);
        i += 1;
    }
    out
}

/// A byte offset between chars of a segment resolves to a position of the source.
pub proof fn lemma_seg_byte(doc: DocumentView, i: int, b: int)
    requires
        document::view_wf(doc),
        0 <= i < doc.segments.len(),
        text::is_boundary(doc.segments[i].text, b),
    ensures
        ({
            let seg = doc.segments[i];
            &&& document::locatable(doc.source, seg.start_byte + b)
            &&& document::locatable(
                doc.source,
                seg.start_byte + document::min_int(b, text::byte_len(seg.text) as int),
            )
            &&& seg.start_byte + text::byte_len(seg.text) <= text::byte_len(doc.source)
            &&& b <= text::byte_len(seg.text)
            &&& document::min_int(b, text::byte_len(seg.text) as int) == b
            &&& seg.start_byte + text::byte_len(seg.text) < usize::MAX
        }),
{
    let t = doc.segments[i].text;
    document::lemma_char_index(t, b);
    document::lemma_seg_offset(doc, i, document::char_index(t, b));
}

/// The chars of `t` between the byte offsets `s` and `e`.
pub open spec fn byte_slice(t: Seq<char>, s: int, e: int) -> Seq<char> {
    t.subrange(document::char_index(t, s), document::char_index(t, e))
}

/// `offs` lists the byte offset of each char of `chars`, then the byte length.
pub open spec fn offsets_of(chars: Seq<char>, offs: Seq<usize>) -> bool {
    &&& offs.len() == chars.len() + 1
    &&& forall|j: int| 0 <= j <= chars.len() ==> #[trigger] offs[j] == text::byte_pos(chars, j)
}

/// The index of the char that starts at byte `b` (the length for the end).
pub fn char_at_byte(chars: &Vec<char>, offs: &Vec<usize>, b: usize) -> (k: usize)
    requires
        offsets_of(chars@, offs@),
        text::is_boundary(chars@, b as int),
    ensures
        k <= chars@.len(),
        offs@[k as int] == b,
        k == document::char_index(chars@, b as int),
{
    proof {
        document::lemma_char_index(chars@, b as int);
        assert forall|i: int, j: int| 0 <= i < j < offs@.len() implies offs@[i] < offs@[j] by {
            text::lemma_byte_pos_mono(chars@, i, j);
        }
    }
    let ghost g = document::char_index(chars@, b as int);
    match text::char_index_at(offs, b) {
        Some(k) => {
            proof {
                text::lemma_byte_pos_injective(chars@, k as int, g);
            }
            k
        },
        None => {
            assert(offs@[g] == b);
            0
        },
    }
}

/// The text between two byte offsets that fall between chars.
pub fn slice_bytes(chars: &Vec<char>, offs: &Vec<usize>, s: usize, e: usize) -> (r: String)
    requires
        offsets_of(chars@, offs@),
        text::is_boundary(chars@, s as int),
        text::is_boundary(chars@, e as int),
        s <= e,
    ensures
        r@ == byte_slice(chars@, s as int, e as int),
        document::char_index(chars@, s as int) <= document::char_index(chars@, e as int),
{
    let a = char_at_byte(chars, offs, s);
    let b = char_at_byte(chars, offs, e);
    if b < a {
        proof {
            text::lemma_byte_pos_mono(chars@, b as int, a as int);
        }
    }
    text::string_of(chars, a, b)
}

/// Char `k` of `t` lies in the destination (or title) of an inline link:
/// after a `](` and before the `)` that closes it, on the same line.
pub open spec fn in_link_destination(t: Seq<char>, k: int) -> bool {
    exists|a: int, b: int|
        0 <= a && a + 2 <= k < b < t.len() && #[trigger] t[a] == ']' && t[a + 1] == '(' && #[trigger] t[b] == ')'
            && forall|j: int| a + 2 <= j < b ==> t[j] != ')' && t[j] != '\n'
}

/// Whether char `k` of `chars` lies in the destination of an inline link.
pub fn in_link_destination_exec(chars: &Vec<char>, k: usize) -> (r: bool)
    requires
        k < chars@.len(),
    ensures
        r == in_link_destination(chars@, k as int),
{
    let ghost t = chars@;
    if chars[k] == ')' || chars[k] == '\n' {
        assert(!in_link_destination(t, k as int));
        return false;
    }
    // The closing `)`: the first one after `k` on its line.
    let n = chars.len();
    assert(k < n);
    let mut b = k + 1;
    while b < chars.len() && chars[b] != ')' && chars[b] != '\n'
        invariant
            k < b <= t.len(),
            chars@ == t,
            forall|j: int| k <= j < b ==> t[j] != ')' && t[j] != '\n',
        decreases t.len() - b,
    {
        b += 1;
    }
    if b >= chars.len() || chars[b] != ')' {
        proof {
            assert forall|a: int, c: int|
                0 <= a && a + 2 <= k < c < t.len() && #[trigger] t[a] == ']' && t[a + 1] == '(' && #[trigger] t[c] == ')'
                implies !(forall|j: int| a + 2 <= j < c ==> t[j] != ')' && t[j] != '\n') by {
                if c < b {
                    assert(t[c] != ')');
                } else {
                    assert(a + 2 <= b < c);
                    assert(t[b as int] == '\n' || b >= t.len());
                }
            }
        }
        return false;
    }
    // The opening `](`: the nearest one before `k` on the same stretch.
    let mut j = k;
    while j >= 2 && !(chars[j - 2] == ']' && chars[j - 1] == '(')
        invariant
            j <= k < b < t.len(),
            chars@ == t,
            t[b as int] == ')',
            forall|i: int| j <= i < b ==> t[i] != ')' && t[i] != '\n',
            forall|a: int| j - 2 < a <= k - 2 ==> !(#[trigger] t[a] == ']' && t[a + 1] == '('),
        decreases j,
    {
        if chars[j - 1] == ')' || chars[j - 1] == '\n' {
            proof {
                assert forall|a: int, c: int|
                    0 <= a && a + 2 <= k < c < t.len() && #[trigger] t[a] == ']' && t[a + 1] == '(' && #[trigger] t[c] == ')'
                    implies !(forall|i: int| a + 2 <= i < c ==> t[i] != ')' && t[i] != '\n') by {
                    if a + 2 <= j - 1 {
                        if (j - 1) < c {
                        } else {
                            assert(c <= j - 1);
                        }
                    } else {
                        assert(j - 2 < a);
                    }
                }
            }
            return false;
        }
        j -= 1;
    }
    if j < 2 {
        proof {
            assert forall|a: int, c: int|
                0 <= a && a + 2 <= k < c < t.len() && #[trigger] t[a] == ']' && t[a + 1] == '(' && #[trigger] t[c] == ')'
                implies !(forall|i: int| a + 2 <= i < c ==> t[i] != ')' && t[i] != '\n') by {
                assert(j - 2 < a);
            }
        }
        return false;
    }
    proof {
        let a = j - 2;
        assert(t[a] == ']' && t[a + 1] == '(');
        assert(forall|i: int| a + 2 <= i < b ==> t[i] != ')' && t[i] != '\n');
        assert(in_link_destination(t, k as int));
    }
    true
}

/// Char `k` of segment `seg` lies in the destination (or title) of an inline
/// link of `doc`: inside the byte range of one of its links, between a `](`
/// and the `)` that closes it.
pub open spec fn in_link(doc: DocumentView, seg: SegmentView, k: int) -> bool {
    &&& in_link_destination(seg.text, k)
    &&& exists|m: int|
        0 <= m < doc.links.len() && doc.links[m].0 <= seg.start_byte + text::byte_pos(seg.text, k)
            < #[trigger] doc.links[m].1
}

/// Whether char `k` of segment `i` lies in a link destination (see `in_link`).
pub fn in_link_exec(doc: &Document, i: usize, chars: &Vec<char>, offs: &Vec<usize>, k: usize) -> (r: bool)
    requires
        doc.wf(),
        i < doc@.segments.len(),
        chars@ == doc@.segments[i as int].text,
        offsets_of(chars@, offs@),
        k < chars@.len(),
    ensures
        r == in_link(doc@, doc@.segments[i as int], k as int),
{
    if !in_link_destination_exec(chars, k) {
        return false;
    }
    let seg = doc.segment(i);
    proof {
        doc.lemma_wf();
        document::lemma_segment_end(doc@, i as int);
        text::lemma_byte_pos_mono(chars@, k as int, chars@.len() as int);
        text::lemma_byte_pos_full(chars@);
    }
    let b = seg.start_byte + offs[k];
    let n = doc.link_count();
    let mut m: usize = 0;
    while m < n
        invariant
            doc.wf(),
            n == doc@.links.len(),
            b == doc@.segments[i as int].start_byte + text::byte_pos(chars@, k as int),
            m <= n,
            i < doc@.segments.len(),
            chars@ == doc@.segments[i as int].text,
            k < chars@.len(),
            in_link_destination(chars@, k as int),
            forall|j: int| 0 <= j < m ==> !(doc@.links[j].0 <= b < #[trigger] doc@.links[j].1),
        decreases n - m,
    {
        let (ls, le) = doc.link(m);
        if ls <= b && b < le {
            assert(doc@.links[m as int].0 <= b < doc@.links[m as int].1);
            assert(in_link_destination(doc@.segments[i as int].text, k as int));
            return true;
        }
        m += 1;
    }
    false
}

/// `count_in` counts the chars equal to `c` in the range.
pub proof fn lemma_count_in_filter(t: Seq<char>, a: int, b: int, c: char)
    requires
        0 <= a <= b <= t.len(),
    ensures
        count_in(t, a, b, c) == t.subrange(a, b).filter(|x: char| x == c).len(),
    decreases b - a,
{
    reveal(Seq::filter);
    if b > a {
        lemma_count_in_filter(t, a, b - 1, c);
        let s = t.subrange(a, b);
        assert(s.drop_last() =~= t.subrange(a, b - 1));
        assert(s.last() == t[b - 1]);
    } else {
        assert(t.subrange(a, b) =~= Seq::<char>::empty());
    }
}

/// Where `c` occurs among chars `a..b`, `last_in` is the index of its last
/// occurrence.
pub proof fn lemma_last_in(t: Seq<char>, a: int, b: int, c: char)
    requires
        0 <= a <= b <= t.len(),
        count_in(t, a, b, c) > 0,
    ensures
        a <= last_in(t, a, b, c) < b,
        t[last_in(t, a, b, c)] == c,
        forall|j: int| last_in(t, a, b, c) < j < b ==> t[j] != c,
    decreases b - a,
{
    if t[b - 1] != c {
        lemma_last_in(t, a, b - 1, c);
    }
}

/// A property that every issue of each `f(k)` has, every issue of
/// `per_index(n, f)` has.
pub proof fn lemma_per_index_all(n: nat, f: spec_fn(int) -> Seq<IssueView>, p: spec_fn(IssueView) -> bool)
    requires
        forall|k: int, j: int| 0 <= k < n && 0 <= j < f(k).len() ==> #[trigger] p(f(k)[j]),
    ensures
        forall|i: int| 0 <= i < per_index(n, f).len() ==> #[trigger] p(per_index(n, f)[i]),
    decreases n,
{
    if n > 0 {
        lemma_per_index_all((n - 1) as nat, f, p);
        let a = per_index((n - 1) as nat, f);
        let r = per_index(n, f);
        assert forall|i: int| 0 <= i < r.len() implies #[trigger] p(r[i]) by {
            if i < a.len() {
                assert(r[i] == a[i]);
            } else {
                assert(r[i] == f(n - 1)[i - a.len()]);
            }
        }
    }
}

/// Where chars `x..a` are white space and char `a` (if any before `b`) is
/// not, `trim_start` gives `a`.
pub proof fn lemma_trim_start_at(t: Seq<char>, x: int, b: int, a: int)
    requires
        0 <= x <= a <= b <= t.len(),
        forall|k: int| x <= k < a ==> white_space(#[trigger] t[k]),
        a < b ==> !white_space(t[a]),
    ensures
        trim_start(t, x, b) == a,
    decreases a - x,
{
    if x < a {
        lemma_trim_start_at(t, x + 1, b, a);
    }
}

/// Where chars `e..y` are white space and char `e - 1` (if any after `a`)
/// is not, `trim_end` gives `e`.
pub proof fn lemma_trim_end_at(t: Seq<char>, a: int, y: int, e: int)
    requires
        0 <= a <= e <= y <= t.len(),
        forall|k: int| e <= k < y ==> white_space(#[trigger] t[k]),
        a < e ==> !white_space(t[e - 1]),
    ensures
        trim_end(t, a, y) == e,
    decreases y - e,
{
    if e < y {
        lemma_trim_end_at(t, a, y - 1, e);
    }
}

/// `trim_start` skips white space only, and stops at a char that is not.
pub proof fn lemma_trim_start_props(t: Seq<char>, x: int, b: int)
    requires
        0 <= x <= b <= t.len(),
    ensures
        x <= trim_start(t, x, b) <= b,
        forall|k: int| x <= k < trim_start(t, x, b) ==> white_space(#[trigger] t[k]),
        trim_start(t, x, b) < b ==> !white_space(t[trim_start(t, x, b)]),
    decreases b - x,
{
    if x < b && white_space(t[x]) {
        lemma_trim_start_props(t, x + 1, b);
    }
}

/// `trim_end` drops white space only, and stops after a char that is not.
pub proof fn lemma_trim_end_props(t: Seq<char>, a: int, y: int)
    requires
        0 <= a <= y <= t.len(),
    ensures
        a <= trim_end(t, a, y) <= y,
        forall|k: int| trim_end(t, a, y) <= k < y ==> white_space(#[trigger] t[k]),
        a < trim_end(t, a, y) ==> !white_space(t[trim_end(t, a, y) - 1]),
    decreases y - a,
{
    if a < y && white_space(t[y - 1]) {
        lemma_trim_end_props(t, a, y - 1);
    }
}

/// Each sentence is a nonempty range of chars of the text.
pub proof fn lemma_sentences_in(t: Seq<char>, set: Terminators)
    ensures
        forall|q: int|
            0 <= q < sentences(t, set).len() ==> 0 <= (#[trigger] sentences(t, set)[q]).0 < sentences(t, set)[q].1
                <= t.len(),
{
    lemma_sentences_upto(t, set, t.len());
    let (l, st) = sentences_upto(t, set, t.len());
    assert forall|q: int| 0 <= q < sentences(t, set).len() implies 0 <= (#[trigger] sentences(t, set)[q]).0
        < sentences(t, set)[q].1 <= t.len() by {
        if q < l.len() {
            assert(sentences(t, set)[q] == l[q]);
        }
    }
}

/// Where each `f(k)` holds one issue when `p(k)` and none otherwise,
/// `per_index(n, f)` holds one issue per index below `n` where `p` holds.
pub proof fn lemma_per_index_count(n: nat, f: spec_fn(int) -> Seq<IssueView>, p: spec_fn(int) -> bool)
    requires
        forall|k: int| 0 <= k < n ==> (#[trigger] f(k)).len() == (if p(k) {
            1int
        } else {
            0int
        }),
    ensures
        per_index(n, f).len() == Seq::new(n, |k: int| k).filter(p).len(),
    decreases n,
{
    reveal(Seq::filter);
    let s = Seq::new(n, |k: int| k);
    if n > 0 {
        lemma_per_index_count((n - 1) as nat, f, p);
        assert(s.drop_last() =~= Seq::new((n - 1) as nat, |k: int| k));
        assert(s.last() == n - 1);
    } else {
        assert(s =~= Seq::<int>::empty());
    }
}

} // verus!

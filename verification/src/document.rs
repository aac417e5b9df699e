//! Markdown document → text segments.
//!
//! Each segment holds the raw markdown source of one block (markup is kept,
//! as textlint's `getSource(node)` does), so that rules looking for markup
//! see it. Positions inside a segment are byte offsets relative to the
//! segment; `Document::pos_at` resolves them to an absolute (line, column).

use vstd::prelude::*;
use crate::text;
use comrak::nodes::NodeValue;
use crate::text::{char_index_at, len_utf8};

verus! {

#[derive(Debug, Clone, Copy, PartialEq, Eq, Structural)]
pub enum SegmentKind {
    Paragraph,
    Heading,
    BlockQuote,
    ListItem,
    TableCell,
    CodeBlock,
}

#[derive(Debug, Clone)]
pub struct TextSegment {
    /// The slice of the markdown source that this block covers.
    pub text: String,
    /// Byte offset of the segment in the source.
    pub start_byte: usize,
    /// Line of the segment start (1-based).
    pub start_line: usize,
    /// Column of the segment start (1-based, in chars).
    pub start_column: usize,
    pub kind: SegmentKind,
    /// Whether the segment lies inside a block quote.
    pub in_block_quote: bool,
    /// Byte ranges (relative to the segment, delimiters included) of the inline
    /// code spans inside the segment.
    pub code_ranges: Vec<(usize, usize)>,
}

pub struct SegmentView {
    pub text: Seq<char>,
    pub start_byte: usize,
    pub start_line: usize,
    pub start_column: usize,
    pub kind: SegmentKind,
    pub in_block_quote: bool,
    pub code_ranges: Seq<(usize, usize)>,
}

impl View for TextSegment {
    type V = SegmentView;

    open spec fn view(&self) -> SegmentView {
        SegmentView {
            text: self.text@,
            start_byte: self.start_byte,
            start_line: self.start_line,
            start_column: self.start_column,
            kind: self.kind,
            in_block_quote: self.in_block_quote,
            code_ranges: self.code_ranges@,
        }
    }
}

#[derive(Debug, Clone)]
pub struct Document {
    pub source: String,
    pub segments: Vec<TextSegment>,
    /// Byte offset of the start of each line.
    line_starts: Vec<usize>,
    /// The chars of the source.
    chars: Vec<char>,
    /// Byte offset of each char of the source, followed by the source length.
    offsets: Vec<usize>,
    /// Byte offset at which each fenced or indented code block starts, in
    /// document order.
    code_blocks: Vec<usize>,
    /// Byte range of each link (text and destination), in document order.
    links: Vec<(usize, usize)>,
}

pub struct DocumentView {
    pub source: Seq<char>,
    pub segments: Seq<SegmentView>,
    pub code_blocks: Seq<usize>,
    pub links: Seq<(usize, usize)>,
}

impl View for Document {
    type V = DocumentView;

    closed spec fn view(&self) -> DocumentView {
        DocumentView {
            source: self.source@,
            segments: self.segments@.map_values(|s: TextSegment| s@),
            code_blocks: self.code_blocks@,
            links: self.links@,
        }
    }
}

/// Byte offsets of the line starts of `s`: 0, then the offset just after each `'\n'`.
pub open spec fn line_starts_spec(s: Seq<char>) -> Seq<usize>
    decreases s.len(),
{
    if s.len() == 0 {
        seq![0usize]
    } else {
        let p = line_starts_spec(s.drop_last());
        if s.last() == '\n' {
            p.push(text::byte_len(s) as usize)
        } else {
            p
        }
    }
}

/// Index of the line that contains byte `b`.
pub open spec fn line_index(ls: Seq<usize>, b: int) -> int {
    choose|i: int| 0 <= i < ls.len() && #[trigger] ls[i] <= b && (i + 1 == ls.len() || b < ls[i + 1])
}

/// Index of the char of `s` that starts at byte `b` (or `s.len()` for the end).
pub open spec fn char_index(s: Seq<char>, b: int) -> int {
    choose|i: int| 0 <= i <= s.len() && text::byte_pos(s, i) == b
}

pub open spec fn min_int(a: int, b: int) -> int {
    if a <= b {
        a
    } else {
        b
    }
}

/// The (line, column) of byte `b` of `src`, both 1-based; the column counts chars.
pub open spec fn pos_spec(src: Seq<char>, b: int) -> (usize, usize) {
    let ls = line_starts_spec(src);
    let li = line_index(ls, b);
    let e = min_int(b, text::byte_len(src) as int);
    ((li + 1) as usize, (char_index(src, e) - char_index(src, ls[li] as int) + 1) as usize)
}

/// `b` is a byte of `src` at which (line, column) can be resolved.
pub open spec fn locatable(src: Seq<char>, b: int) -> bool {
    b >= text::byte_len(src) || text::is_boundary(src, b)
}

/// A segment is a slice of the source that starts at a char.
pub open spec fn segment_in(src: Seq<char>, seg: SegmentView) -> bool {
    exists|a: int, b: int|
        #![trigger src.subrange(a, b)]
        0 <= a <= b <= src.len() && seg.text == src.subrange(a, b) && seg.start_byte == text::byte_pos(
            src,
            a,
        )
}

/// A segment of a well-formed document ends within the source.
pub proof fn lemma_segment_end(d: DocumentView, i: int)
    requires
        view_wf(d),
        0 <= i < d.segments.len(),
    ensures
        d.segments[i].start_byte + text::byte_len(d.segments[i].text) <= text::byte_len(d.source),
{
    let seg = d.segments[i];
    assert(segment_in(d.source, seg));
    let (a, b) = choose|a: int, b: int|
        #![trigger d.source.subrange(a, b)]
        0 <= a <= b <= d.source.len() && seg.text == d.source.subrange(a, b) && seg.start_byte == text::byte_pos(
            d.source,
            a,
        );
    text::lemma_byte_len_subrange(d.source, a, b);
    text::lemma_byte_pos_mono(d.source, b, d.source.len() as int);
    text::lemma_byte_pos_full(d.source);
}

pub open spec fn view_wf(d: DocumentView) -> bool {
    &&& text::byte_len(d.source) < usize::MAX
    &&& forall|i: int| 0 <= i < d.segments.len() ==> segment_in(d.source, #[trigger] d.segments[i])
}

/// Properties of the line-start table.
pub proof fn lemma_line_starts(s: Seq<char>)
    requires
        text::byte_len(s) <= usize::MAX,
    ensures
        line_starts_spec(s).len() >= 1,
        line_starts_spec(s)[0] == 0,
        forall|i: int, j: int|
            0 <= i < j < line_starts_spec(s).len() ==> line_starts_spec(s)[i] < line_starts_spec(
                s,
            )[j],
        forall|i: int|
            0 <= i < line_starts_spec(s).len() ==> text::is_boundary(s, #[trigger] line_starts_spec(s)[i] as int),
        forall|i: int|
            0 <= i < line_starts_spec(s).len() ==> #[trigger] line_starts_spec(s)[i] <= text::byte_len(s),
    decreases s.len(),
{
    if s.len() == 0 {
        text::lemma_byte_pos_zero(s);
        assert(text::byte_pos(s, 0) == 0);
    } else {
        let t = s.drop_last();
        assert(s =~= t.push(s.last()));
        text::lemma_byte_len_push(t, s.last());
        text::lemma_char_width(s.last());
        lemma_line_starts(t);
        let p = line_starts_spec(t);
        assert forall|i: int| 0 <= i < p.len() implies text::is_boundary(s, #[trigger] p[i] as int) by {
            let k = choose|k: int| 0 <= k <= t.len() && #[trigger] text::byte_pos(t, k) == p[i] as int;
            assert(s.take(k) =~= t.take(k));
            assert(text::byte_pos(s, k) == p[i] as int);
        }
        if s.last() == '\n' {
            text::lemma_byte_pos_full(s);
            assert(text::byte_pos(s, s.len() as int) == text::byte_len(s));
            let q = p.push(text::byte_len(s) as usize);
            assert(line_starts_spec(s) == q);
            assert forall|i: int| 0 <= i < q.len() implies text::is_boundary(s, #[trigger] q[i] as int) by {
                if i < p.len() {
                    assert(q[i] == p[i]);
                }
            }
        }
    }
}

/// Line starts are char boundaries, so each has a char index.
pub proof fn lemma_char_index(s: Seq<char>, b: int)
    requires
        text::is_boundary(s, b),
    ensures
        0 <= char_index(s, b) <= s.len(),
        text::byte_pos(s, char_index(s, b)) == b,
{
}

fn build_line_starts(chars: &Vec<char>, offsets: &Vec<usize>) -> (r: Vec<usize>)
    requires
        offsets@.len() == chars@.len() + 1,
        forall|i: int| 0 <= i <= chars@.len() ==> #[trigger] offsets@[i] == text::byte_pos(chars@, i),
    ensures
        r@ == line_starts_spec(chars@),
{
    let mut v: Vec<usize> = Vec::new();
    v.push(0);
    let mut k: usize = 0;
    assert(chars@.take(0) =~= Seq::<char>::empty());
    while k < chars.len()
        invariant
            k <= chars@.len(),
            offsets@.len() == chars@.len() + 1,
            forall|i: int| 0 <= i <= chars@.len() ==> #[trigger] offsets@[i] == text::byte_pos(chars@, i),
            v@ == line_starts_spec(chars@.take(k as int)),
        decreases chars@.len() - k,
    {
        let ghost t = chars@.take(k as int + 1);
        assert(t.drop_last() =~= chars@.take(k as int));
        assert(t.last() == chars@[k as int]);
        assert(t =~= chars@.take(k as int + 1));
        if chars[k] == '\n' {
            assert(text::byte_len(t) == text::byte_pos(chars@, k + 1));
            v.push(offsets[k + 1]);
        }
        k += 1;
    }
    assert(chars@.take(chars@.len() as int) =~= chars@);
    v
}

/// Index of the last entry of a strictly increasing table that is `<= b`,
/// given that the first entry is.
fn last_at_or_before(v: &Vec<usize>, b: usize) -> (r: usize)
    requires
        v@.len() >= 1,
        v@[0] <= b,
        forall|i: int, j: int| 0 <= i < j < v@.len() ==> v@[i] < v@[j],
    ensures
        r < v@.len(),
        v@[r as int] <= b,
        r + 1 == v@.len() || b < v@[r + 1],
{
    let mut lo: usize = 1;
    let mut hi: usize = v.len();
    while lo < hi
        invariant
            1 <= lo <= hi <= v@.len(),
            forall|i: int, j: int| 0 <= i < j < v@.len() ==> v@[i] < v@[j],
            v@[0] <= b,
            forall|k: int| 0 <= k < lo ==> v@[k] <= b,
            forall|k: int| hi <= k < v@.len() ==> v@[k] > b,
        decreases hi - lo,
    {
        let mid = lo + (hi - lo) / 2;
        if v[mid] <= b {
            lo = mid + 1;
        } else {
            hi = mid;
        }
    }
    lo - 1
}

pub proof fn lemma_line_index(ls: Seq<usize>, b: int, r: int)
    requires
        0 <= r < ls.len(),
        ls[r] <= b,
        r + 1 == ls.len() || b < ls[r + 1],
        forall|i: int, j: int| 0 <= i < j < ls.len() ==> ls[i] < ls[j],
    ensures
        line_index(ls, b) == r,
{
    let c = line_index(ls, b);
    assert(0 <= c < ls.len() && ls[c] <= b && (c + 1 == ls.len() || b < ls[c + 1]));
    if c < r {
        assert(ls[c + 1] <= ls[r]);
    } else if r < c {
        assert(ls[r + 1] <= ls[c]);
    }
}

/// Byte `x` of `s` is the start of the line after some `'\n'`.
pub open spec fn nl_after(s: Seq<char>, x: int) -> bool {
    exists|j: int| 0 <= j < s.len() && s[j] == '\n' && #[trigger] text::byte_pos(s, j + 1) == x
}

/// `x` is listed in `ls` after its first entry.
pub open spec fn listed(ls: Seq<usize>, x: int) -> bool {
    exists|i: int| 0 < i < ls.len() && #[trigger] ls[i] as int == x
}

/// The line starts of `s` after the first are the offsets just after its
/// `'\n'`s, and each such offset is one.
proof fn lemma_line_starts_members(s: Seq<char>)
    requires
        text::byte_len(s) <= usize::MAX,
    ensures
        forall|i: int| 0 < i < line_starts_spec(s).len() ==> nl_after(s, #[trigger] line_starts_spec(s)[i] as int),
        forall|j: int| 0 <= j < s.len() && #[trigger] s[j] == '\n' ==> listed(line_starts_spec(s), text::byte_pos(s, j + 1) as int),
    decreases s.len(),
{
    if s.len() > 0 {
        let t = s.drop_last();
        assert(s =~= t.push(s.last()));
        text::lemma_byte_len_push(t, s.last());
        text::lemma_char_width(s.last());
        lemma_line_starts_members(t);
        lemma_line_starts(t);
        let p = line_starts_spec(t);
        let q = line_starts_spec(s);
        assert forall|m: int| 0 <= m <= t.len() implies #[trigger] text::byte_pos(s, m) == text::byte_pos(t, m) by {
            assert(s.take(m) =~= t.take(m));
        }
        text::lemma_byte_pos_full(s);
        assert forall|i: int| 0 < i < q.len() implies nl_after(s, #[trigger] q[i] as int) by {
            if i < p.len() {
                assert(q[i] == p[i]);
                assert(nl_after(t, p[i] as int));
                let j = choose|j: int| 0 <= j < t.len() && t[j] == '\n' && #[trigger] text::byte_pos(t, j + 1) == p[i] as int;
                assert(s[j] == t[j]);
                assert(text::byte_pos(s, j + 1) == text::byte_pos(t, j + 1));
            } else {
                assert(s.last() == '\n');
                assert(q[i] == text::byte_len(s) as usize);
                assert(text::byte_pos(s, s.len() - 1 + 1) == text::byte_len(s));
            }
        }
        assert forall|j: int| 0 <= j < s.len() && #[trigger] s[j] == '\n' implies listed(q, text::byte_pos(s, j + 1) as int) by {
            if j < t.len() {
                assert(t[j] == s[j]);
                assert(listed(p, text::byte_pos(t, j + 1) as int));
                let i = choose|i: int| 0 < i < p.len() && #[trigger] p[i] as int == text::byte_pos(t, j + 1);
                assert(q[i] == p[i]);
            } else {
                assert(q == p.push(text::byte_len(s) as usize));
                assert(q[p.len() as int] as int == text::byte_len(s));
            }
        }
    }
}

/// There is a line that holds byte `b`.
proof fn lemma_line_of(ls: Seq<usize>, b: int) -> (r: int)
    requires
        ls.len() >= 1,
        ls[0] <= b,
        forall|i: int, j: int| 0 <= i < j < ls.len() ==> ls[i] < ls[j],
    ensures
        0 <= r < ls.len(),
        ls[r] <= b,
        r + 1 == ls.len() || b < ls[r + 1],
        line_index(ls, b) == r,
    decreases ls.len(),
{
    if ls.last() <= b {
        let r = ls.len() - 1;
        lemma_line_index(ls, b, r);
        r
    } else {
        let t = ls.drop_last();
        if t.len() == 0 {
            assert(false);
        }
        let r = lemma_line_of(t, b);
        assert(t[r] == ls[r]);
        if r + 1 < t.len() {
            assert(t[r + 1] == ls[r + 1]);
        }
        lemma_line_index(ls, b, r);
        r
    }
}

proof fn lemma_index_le_value(ls: Seq<usize>, r: int)
    requires
        0 <= r < ls.len(),
        forall|i: int, j: int| 0 <= i < j < ls.len() ==> ls[i] < ls[j],
    ensures
        r <= ls[r],
    decreases r,
{
    if r > 0 {
        lemma_index_le_value(ls, r - 1);
        assert(ls[r - 1] < ls[r]);
    }
}

/// Law: the first char of a text is at line 1, column 1.
pub proof fn lemma_pos_start(src: Seq<char>)
    requires
        text::byte_len(src) < usize::MAX,
    ensures
        pos_spec(src, 0) == (1usize, 1usize),
{
    lemma_line_starts(src);
    text::lemma_byte_pos_zero(src);
    let ls = line_starts_spec(src);
    let r = lemma_line_of(ls, 0);
    assert(r == 0) by {
        if r > 0 {
            assert(ls[0] < ls[r]);
        }
    }
    assert(text::is_boundary(src, 0)) by {
        assert(text::byte_pos(src, 0) == 0);
    }
}

/// Law: the char after a `'\n'` is at column 1 of the next line; the char
/// after any other char is one column further on the same line.
pub proof fn lemma_pos_step(src: Seq<char>, k: int)
    requires
        text::byte_len(src) < usize::MAX,
        0 <= k < src.len(),
    ensures
        src[k] == '\n' ==> pos_spec(src, text::byte_pos(src, k + 1) as int) == (
            (pos_spec(src, text::byte_pos(src, k) as int).0 + 1) as usize,
            1usize,
        ),
        src[k] != '\n' ==> pos_spec(src, text::byte_pos(src, k + 1) as int) == (
            pos_spec(src, text::byte_pos(src, k) as int).0,
            (pos_spec(src, text::byte_pos(src, k) as int).1 + 1) as usize,
        ),
{
    lemma_line_starts(src);
    lemma_line_starts_members(src);
    let ls = line_starts_spec(src);
    let b1 = text::byte_pos(src, k) as int;
    let b2 = text::byte_pos(src, k + 1) as int;
    text::lemma_byte_pos_mono(src, k, k + 1);
    text::lemma_byte_pos_mono(src, k + 1, src.len() as int);
    text::lemma_byte_pos_full(src);
    text::lemma_byte_pos_zero(src);
    text::lemma_byte_pos_mono(src, 0, k);
    assert(text::is_boundary(src, b1));
    assert(text::is_boundary(src, b2));
    lemma_char_index(src, b1);
    lemma_char_index(src, b2);
    text::lemma_byte_pos_injective(src, char_index(src, b1), k);
    text::lemma_byte_pos_injective(src, char_index(src, b2), k + 1);
    let r = lemma_line_of(ls, b1);
    lemma_index_le_value(ls, r);
    lemma_chars_le_bytes(src);
    assert(min_int(b1, text::byte_len(src) as int) == b1);
    assert(min_int(b2, text::byte_len(src) as int) == b2);
    assert(pos_spec(src, b1) == ((r + 1) as usize, (k - char_index(src, ls[r] as int) + 1) as usize));
    // No line starts strictly after b1 and strictly before b2, nor at b2
    // unless src[k] is a newline.
    assert forall|i: int| 0 < i < ls.len() && b1 < ls[i] <= b2 implies src[k] == '\n' && ls[i] == b2 by {
        assert(nl_after(src, ls[i] as int));
        let j = choose|j: int| 0 <= j < src.len() && src[j] == '\n' && #[trigger] text::byte_pos(src, j + 1) == ls[i] as int;
        if j + 1 <= k {
            text::lemma_byte_pos_mono(src, j + 1, k);
        }
        if j + 1 > k + 1 {
            text::lemma_byte_pos_mono(src, k + 1, j + 1);
        }
        assert(j == k);
    }
    if src[k] != '\n' {
        if r + 1 < ls.len() {
            assert(b2 < ls[r + 1]);
        }
        lemma_line_index(ls, b2, r);
        assert(text::is_boundary(src, ls[r] as int));
        lemma_char_index(src, ls[r] as int);
        assert(char_index(src, ls[r] as int) <= k) by {
            if char_index(src, ls[r] as int) > k {
                text::lemma_byte_pos_mono(src, k, char_index(src, ls[r] as int));
            }
        }
        assert(pos_spec(src, b2) == ((r + 1) as usize, (k + 1 - char_index(src, ls[r] as int) + 1) as usize));
    } else {
        assert(listed(ls, b2));
        let i = choose|i: int| 0 < i < ls.len() && #[trigger] ls[i] as int == b2;
        assert(r < i) by {
            if i <= r {
                if i < r {
                    assert(ls[i] < ls[r]);
                }
            }
        }
        assert(i == r + 1) by {
            if r + 1 < i {
                assert(ls[r + 1] < ls[i]);
                assert(b1 < ls[r + 1]);
            }
        }
        if i + 1 < ls.len() {
            assert(ls[i] < ls[i + 1]);
        }
        lemma_line_index(ls, b2, i);
        assert(text::is_boundary(src, ls[i] as int));
        lemma_char_index(src, ls[i] as int);
        assert(char_index(src, ls[i] as int) == k + 1);
        assert(pos_spec(src, b2) == ((r + 2) as usize, 1usize));
    }
}

impl Document {
    pub closed spec fn wf(&self) -> bool {
        &&& self.chars@ == self.source@
        &&& self.offsets@.len() == self.chars@.len() + 1
        &&& forall|i: int|
            0 <= i <= self.chars@.len() ==> #[trigger] self.offsets@[i] == text::byte_pos(self.chars@, i)
        &&& self.line_starts@ == line_starts_spec(self.source@)
        &&& view_wf(self@)
    }

    pub proof fn lemma_wf(&self)
        requires
            self.wf(),
        ensures
            view_wf(self@),
    {
    }

    /// Number of segments.
    pub fn segment_count(&self) -> (r: usize)
        ensures
            r == self@.segments.len(),
    {
        self.segments.len()
    }

    /// Number of code blocks.
    pub fn code_block_count(&self) -> (r: usize)
        ensures
            r == self@.code_blocks.len(),
    {
        self.code_blocks.len()
    }

    /// The byte offset at which the `k`-th code block starts.
    pub fn code_block(&self, k: usize) -> (r: usize)
        requires
            k < self@.code_blocks.len(),
        ensures
            r == self@.code_blocks[k as int],
    {
        self.code_blocks[k]
    }

    /// Number of links.
    pub fn link_count(&self) -> (r: usize)
        ensures
            r == self@.links.len(),
    {
        self.links.len()
    }

    /// The byte range of the `k`-th link.
    pub fn link(&self, k: usize) -> (r: (usize, usize))
        requires
            k < self@.links.len(),
        ensures
            r == self@.links[k as int],
    {
        self.links[k]
    }

    /// The `i`-th segment.
    pub fn segment(&self, i: usize) -> (r: &TextSegment)
        requires
            i < self@.segments.len(),
        ensures
            r@ == self@.segments[i as int],
    {
        &self.segments[i]
    }

    /// Resolves a source byte offset to an absolute (line, column), both 1-based;
    /// the column counts chars, as textlint reports it.
    pub fn locate(&self, byte_offset: usize) -> (r: (usize, usize))
        requires
            self.wf(),
            locatable(self@.source, byte_offset as int),
        ensures
            r == pos_spec(self@.source, byte_offset as int),
    {
        let ghost src = self.source@;
        proof {
            lemma_line_starts(src);
            text::lemma_byte_pos_full(src);
            text::lemma_byte_pos_mono(src, 0, src.len() as int);
        }
        let li = last_at_or_before(&self.line_starts, byte_offset);
        proof {
            lemma_line_index(self.line_starts@, byte_offset as int, li as int);
        }
        let line_start = self.line_starts[li];
        let total = self.offsets[self.chars.len()];
        let e = if byte_offset < total {
            byte_offset
        } else {
            total
        };
        proof {
            if byte_offset < total {
                assert(text::is_boundary(src, e as int));
            } else {
                assert(text::byte_pos(src, src.len() as int) == e);
                assert(text::is_boundary(src, e as int));
            }
            assert(text::is_boundary(src, line_start as int));
            lemma_char_index(src, e as int);
            lemma_char_index(src, line_start as int);
            let ce = char_index(src, e as int);
            let cl = char_index(src, line_start as int);
            assert(line_start <= e);
            if ce < cl {
                text::lemma_byte_pos_mono(src, ce, cl);
            }
        }
        proof {
            assert forall|i: int, j: int| 0 <= i < j < self.offsets@.len() implies self.offsets@[i]
                < self.offsets@[j] by {
                text::lemma_byte_pos_mono(src, i, j);
            }
        }
        let ce = char_index_at(&self.offsets, e);
        let cl = char_index_at(&self.offsets, line_start);
        let ghost gce = char_index(src, e as int);
        let ghost gcl = char_index(src, line_start as int);
        let ce = match ce {
            Some(k) => k,
            None => {
                assert(self.offsets@[gce] == e);
                0
            },
        };
        let cl = match cl {
            Some(k) => k,
            None => {
                assert(self.offsets@[gcl] == line_start);
                0
            },
        };
        proof {
            text::lemma_byte_pos_injective(src, ce as int, gce);
            text::lemma_byte_pos_injective(src, cl as int, gcl);
        }
        assert(ce <= src.len());
        assert(src.len() <= text::byte_len(src)) by {
            lemma_chars_le_bytes(src);
        }
        let nls = self.line_starts.len();
        assert(li < nls);
        (li + 1, ce - cl + 1)
    }

    /// Resolves a byte offset inside `segment` to an absolute (line, column);
    /// an offset past the end of the segment is taken as its end.
    pub fn pos_at(&self, segment: &TextSegment, segment_byte_offset: usize) -> (r: (usize, usize))
        requires
            self.wf(),
            locatable(
                self@.source,
                segment.start_byte + min_int(segment_byte_offset as int, text::byte_len(segment.text@) as int),
            ),
            segment.start_byte + min_int(segment_byte_offset as int, text::byte_len(segment.text@) as int)
                <= usize::MAX,
        ensures
            r == pos_spec(
                self@.source,
                segment.start_byte + min_int(segment_byte_offset as int, text::byte_len(segment.text@) as int),
            ),
    {
        let len = text::str_byte_len(segment.text.as_str());
        let off = if segment_byte_offset < len {
            segment_byte_offset
        } else {
            len
        };
        self.locate(segment.start_byte + off)
    }
}

/// A char is at least one byte.
pub proof fn lemma_chars_le_bytes(s: Seq<char>)
    ensures
        s.len() <= text::byte_len(s),
    decreases s.len(),
{
    if s.len() > 0 {
        let t = s.drop_last();
        assert(s =~= t.push(s.last()));
        text::lemma_byte_len_push(t, s.last());
        text::lemma_char_width(s.last());
        lemma_chars_le_bytes(t);
    }
}


/// Block and inline node kinds of the markdown tree that segment extraction looks at.
#[derive(Debug, Clone, Copy, PartialEq, Eq, Structural)]
pub enum MdKind {
    Paragraph,
    Heading,
    TableCell,
    Item,
    BlockQuote,
    CodeBlock,
    HtmlBlock,
    ThematicBreak,
    Code,
    Link,
    Other,
}

/// A node of the markdown tree with its source position: 1-based lines and
/// 1-based byte columns, the end being the last byte of the node.
#[derive(Debug, Clone, Copy, PartialEq, Eq, Structural)]
pub struct MdNode {
    pub kind: MdKind,
    pub start_line: usize,
    pub start_column: usize,
    pub end_line: usize,
    pub end_column: usize,
}

/// One step of a depth-first walk of the markdown tree.
#[derive(Debug, Clone, Copy, PartialEq, Eq, Structural)]
pub enum MdEvent {
    Enter(MdNode),
    Exit,
}

/// The markdown extensions the parser runs with.
#[derive(Debug, Clone, Copy, PartialEq, Eq, Structural)]
pub struct MarkdownExtensions {
    pub table: bool,
    pub strikethrough: bool,
    pub autolink: bool,
    pub tasklist: bool,
    pub sourcepos: bool,
}

/// The extensions that `Document::parse` enables.
pub open spec fn document_extensions() -> MarkdownExtensions {
    MarkdownExtensions { table: true, strikethrough: true, autolink: true, tasklist: true, sourcepos: true }
}

/// The walk of the tree that comrak parses from `source` with `ext`.
pub uninterp spec fn markdown_events(source: Seq<char>, ext: MarkdownExtensions) -> Seq<MdEvent>;

/// Calls `comrak::parse_document` and lists the `Start`/`End` edges of
/// `traverse()` on the tree it returns, each start with the node kind and
/// source position. Claimed: the list is a function of the source and the
/// extensions alone (named `markdown_events`); nothing is claimed of its shape.
#[verifier::external_body]
fn parse_markdown(source: &str, ext: MarkdownExtensions) -> (events: Vec<MdEvent>)
    ensures
        events@ == markdown_events(source@, ext),
{
    let mut opts = comrak::Options::default();
    (opts.extension.table, opts.extension.strikethrough) = (ext.table, ext.strikethrough);
    (opts.extension.autolink, opts.extension.tasklist) = (ext.autolink, ext.tasklist);
    opts.render.sourcepos = ext.sourcepos;
    let arena = comrak::Arena::new();
    let root = comrak::parse_document(&arena, source, &opts);
    root.traverse().map(|edge| match edge {
        comrak::arena_tree::NodeEdge::Start(n) => MdEvent::Enter(md_node(&n.data.borrow())),
        comrak::arena_tree::NodeEdge::End(_) => MdEvent::Exit,
    }).collect()
}

#[verifier::external_type_specification]
#[verifier::external_body]
pub struct ExAst(comrak::nodes::Ast);

/// Reads the kind and `sourcepos` of a comrak node, for `parse_markdown`.
#[verifier::external_body]
fn md_node(ast: &comrak::nodes::Ast) -> MdNode {
    let kind = match ast.value {
        NodeValue::Paragraph => MdKind::Paragraph,
        NodeValue::Heading(_) => MdKind::Heading,
        NodeValue::TableCell => MdKind::TableCell,
        NodeValue::Item(_) => MdKind::Item,
        NodeValue::BlockQuote => MdKind::BlockQuote,
        NodeValue::CodeBlock(_) => MdKind::CodeBlock,
        NodeValue::HtmlBlock(_) => MdKind::HtmlBlock,
        NodeValue::ThematicBreak => MdKind::ThematicBreak,
        NodeValue::Code(_) => MdKind::Code,
        NodeValue::Link(_) => MdKind::Link,
        _ => MdKind::Other,
    };
    let p = ast.sourcepos;
    MdNode { kind, start_line: p.start.line, start_column: p.start.column, end_line: p.end.line, end_column: p.end.column }
}

/// Position tables of a source text.
struct Tables {
    chars: Vec<char>,
    offsets: Vec<usize>,
    line_starts: Vec<usize>,
}

impl Tables {
    spec fn wf(&self) -> bool {
        &&& self.offsets@.len() == self.chars@.len() + 1
        &&& forall|i: int|
            0 <= i <= self.chars@.len() ==> #[trigger] self.offsets@[i] == text::byte_pos(self.chars@, i)
        &&& self.line_starts@ == line_starts_spec(self.chars@)
        &&& text::byte_len(self.chars@) < usize::MAX
    }
}

/// Byte offset of the end of line `line` (1-based): the start of the next line, or the end.
pub open spec fn line_end_spec(src: Seq<char>, ls: Seq<usize>, line: int) -> int {
    if line < ls.len() {
        ls[line] as int
    } else {
        text::byte_len(src) as int
    }
}

pub open spec fn col_index(col: int) -> int {
    if col >= 1 {
        col - 1
    } else {
        0
    }
}

/// Byte offset of a node start given its (line, byte column), clamped to the line.
pub open spec fn start_offset_spec(src: Seq<char>, line: int, col: int) -> int {
    let ls = line_starts_spec(src);
    if line == 0 || line > ls.len() {
        text::byte_len(src) as int
    } else {
        min_int(ls[line - 1] as int + col_index(col), line_end_spec(src, ls, line))
    }
}

/// The largest char index `k` in `[lo, hi)` whose char starts at or before byte `t`, or -1.
pub open spec fn last_start_le(src: Seq<char>, lo: int, hi: int, t: int) -> int
    decreases hi - lo,
{
    if hi <= lo {
        -1
    } else if text::byte_pos(src, hi - 1) <= t {
        hi - 1
    } else {
        last_start_le(src, lo, hi - 1, t)
    }
}

/// Exclusive byte offset of a node end given the (line, byte column) of its
/// last byte: the end of the char of that line that holds the byte.
pub open spec fn end_offset_spec(src: Seq<char>, line: int, col: int) -> int {
    let ls = line_starts_spec(src);
    if line == 0 || line > ls.len() {
        text::byte_len(src) as int
    } else {
        let a = ls[line - 1] as int;
        let e = line_end_spec(src, ls, line);
        let em1 = if e >= 1 {
            e - 1
        } else {
            0
        };
        let t = min_int(a + col_index(col), if em1 >= a {
            em1
        } else {
            a
        });
        let k = last_start_le(src, char_index(src, a), char_index(src, e), t);
        if k < 0 {
            a
        } else {
            text::byte_pos(src, k + 1) as int
        }
    }
}

/// The char range `[cs, ce)` of the source a node covers, when it is a
/// non-empty range between two chars.
pub open spec fn node_chars(src: Seq<char>, n: MdNode) -> Option<(int, int)> {
    let s = start_offset_spec(src, n.start_line as int, n.start_column as int);
    let e = end_offset_spec(src, n.end_line as int, n.end_column as int);
    if s >= e || !text::is_boundary(src, s) || !text::is_boundary(src, e) {
        None
    } else {
        Some((char_index(src, s), char_index(src, e)))
    }
}

/// Walk state of one open node.
#[derive(Clone, Copy)]
pub struct Frame {
    /// No segment is made inside this node.
    pub suppressed: bool,
    /// The children are direct children of a list item.
    pub child_item: bool,
    /// The children lie inside a block quote.
    pub child_quote: bool,
    /// This node made a segment.
    pub owner: bool,
}

pub open spec fn root_frame() -> Frame {
    Frame { suppressed: false, child_item: false, child_quote: false, owner: false }
}

/// State of segment extraction after a prefix of the walk.
pub struct BuildState {
    pub frames: Seq<Frame>,
    /// Indices of the segments of the open nodes, innermost last.
    pub owners: Seq<int>,
    /// The segments made so far, without their code ranges.
    pub drafts: Seq<SegmentView>,
    /// The code ranges found so far: (segment index, start, end).
    pub codes: Seq<(int, usize, usize)>,
}

pub open spec fn initial_state() -> BuildState {
    BuildState { frames: seq![], owners: seq![], drafts: seq![], codes: seq![] }
}

/// The code range, relative to draft `d`, of a code span covering bytes `[s, e)`.
pub open spec fn code_range_in(d: SegmentView, s: int, e: int) -> Option<(usize, usize)> {
    let seg_len = text::byte_len(d.text) as int;
    if e <= s || s < d.start_byte {
        None
    } else {
        let rs = s - d.start_byte;
        let re = min_int(e - d.start_byte, seg_len);
        if rs < re {
            Some((rs as usize, re as usize))
        } else {
            None
        }
    }
}

/// Records the code span `[s, e)` in the segments of `owners`, outermost first.
pub open spec fn add_code(codes: Seq<(int, usize, usize)>, drafts: Seq<SegmentView>, owners: Seq<int>, s: int, e: int) -> Seq<(int, usize, usize)>
    decreases owners.len(),
{
    if owners.len() == 0 {
        codes
    } else {
        let before = add_code(codes, drafts, owners.drop_last(), s, e);
        let o = owners.last();
        match code_range_in(drafts[o], s, e) {
            Some((rs, re)) => before.push((o, rs, re)),
            None => before,
        }
    }
}

pub open spec fn segment_kind_of(k: MdKind) -> SegmentKind {
    match k {
        MdKind::Paragraph => SegmentKind::Paragraph,
        MdKind::Heading => SegmentKind::Heading,
        MdKind::TableCell => SegmentKind::TableCell,
        _ => SegmentKind::ListItem,
    }
}

/// Whether a node of this kind makes a segment in a context that allows them.
pub open spec fn makes_segment(k: MdKind, p: Frame) -> bool {
    match k {
        MdKind::Paragraph => !p.child_item,
        MdKind::Heading | MdKind::TableCell | MdKind::Item => true,
        _ => false,
    }
}

/// The frame of a node entered below frame `p`, given whether it made a segment.
pub open spec fn child_frame(k: MdKind, p: Frame, owner: bool) -> Frame {
    if p.suppressed {
        Frame { suppressed: true, child_item: false, child_quote: p.child_quote, owner: false }
    } else {
        match k {
            MdKind::Paragraph | MdKind::Heading | MdKind::TableCell | MdKind::CodeBlock
            | MdKind::HtmlBlock | MdKind::ThematicBreak => Frame {
                suppressed: true,
                child_item: false,
                child_quote: p.child_quote,
                owner,
            },
            MdKind::Item => Frame { suppressed: false, child_item: true, child_quote: p.child_quote, owner },
            MdKind::BlockQuote => Frame { suppressed: false, child_item: false, child_quote: true, owner: false },
            _ => Frame { suppressed: false, child_item: false, child_quote: p.child_quote, owner: false },
        }
    }
}

pub open spec fn step(src: Seq<char>, st: BuildState, ev: MdEvent) -> BuildState {
    match ev {
        MdEvent::Exit => {
            if st.frames.len() == 0 {
                st
            } else {
                let f = st.frames.last();
                BuildState {
                    frames: st.frames.drop_last(),
                    owners: if f.owner && st.owners.len() > 0 {
                        st.owners.drop_last()
                    } else {
                        st.owners
                    },
                    ..st
                }
            }
        },
        MdEvent::Enter(n) => {
            let p = if st.frames.len() == 0 {
                root_frame()
            } else {
                st.frames.last()
            };
            let codes = if n.kind == MdKind::Code {
                add_code(
                    st.codes,
                    st.drafts,
                    st.owners,
                    start_offset_spec(src, n.start_line as int, n.start_column as int),
                    end_offset_spec(src, n.end_line as int, n.end_column as int),
                )
            } else {
                st.codes
            };
            let wants = !p.suppressed && makes_segment(n.kind, p);
            let made = wants && node_chars(src, n) is Some;
            let drafts = if made {
                let (cs, ce) = node_chars(src, n)->0;
                st.drafts.push(
                    SegmentView {
                        text: src.subrange(cs, ce),
                        start_byte: text::byte_pos(src, cs) as usize,
                        start_line: n.start_line,
                        start_column: n.start_column,
                        kind: segment_kind_of(n.kind),
                        in_block_quote: p.child_quote,
                        code_ranges: seq![],
                    },
                )
            } else {
                st.drafts
            };
            BuildState {
                frames: st.frames.push(child_frame(n.kind, p, made)),
                owners: if made {
                    st.owners.push(st.drafts.len() as int)
                } else {
                    st.owners
                },
                drafts,
                codes,
            }
        },
    }
}

pub open spec fn walk(src: Seq<char>, events: Seq<MdEvent>) -> BuildState
    decreases events.len(),
{
    if events.len() == 0 {
        initial_state()
    } else {
        step(src, walk(src, events.drop_last()), events.last())
    }
}

/// The code ranges recorded for segment `i`, in walk order.
pub open spec fn codes_for(codes: Seq<(int, usize, usize)>, i: int) -> Seq<(usize, usize)>
    decreases codes.len(),
{
    if codes.len() == 0 {
        seq![]
    } else {
        let rest = codes_for(codes.drop_last(), i);
        let c = codes.last();
        if c.0 == i {
            rest.push((c.1, c.2))
        } else {
            rest
        }
    }
}

/// The segments of a source, given the walk of its markdown tree: one per
/// paragraph (unless it is the direct child of a list item), heading, table
/// cell and list item, outside code blocks, HTML blocks and thematic breaks,
/// in document order.
pub open spec fn segments_spec(src: Seq<char>, events: Seq<MdEvent>) -> Seq<SegmentView> {
    let st = walk(src, events);
    Seq::new(
        st.drafts.len(),
        |i: int| SegmentView { code_ranges: codes_for(st.codes, i), ..st.drafts[i] },
    )
}


fn make_tables(source: &str) -> (t: Tables)
    requires
        text::byte_len(source@) < usize::MAX,
    ensures
        t.wf(),
        t.chars@ == source@,
{
    let (chars, offsets) = text::char_table(source);
    let line_starts = build_line_starts(&chars, &offsets);
    Tables { chars, offsets, line_starts }
}

impl Tables {
    proof fn lemma_tables(&self)
        requires
            self.wf(),
        ensures
            forall|i: int, j: int| 0 <= i < j < self.offsets@.len() ==> self.offsets@[i] < self.offsets@[j],
            line_starts_spec(self.chars@).len() >= 1,
            line_starts_spec(self.chars@)[0] == 0,
            forall|i: int, j: int|
                0 <= i < j < self.line_starts@.len() ==> self.line_starts@[i] < self.line_starts@[j],
            forall|i: int|
                0 <= i < self.line_starts@.len() ==> text::is_boundary(self.chars@, #[trigger] self.line_starts@[i] as int),
            forall|i: int|
                0 <= i < self.line_starts@.len() ==> #[trigger] self.line_starts@[i] <= text::byte_len(self.chars@),
            self.offsets@[self.chars@.len() as int] == text::byte_len(self.chars@),
            text::is_boundary(self.chars@, text::byte_len(self.chars@) as int),
            self.chars@.len() <= text::byte_len(self.chars@),
    {
        let src = self.chars@;
        lemma_line_starts(src);
        text::lemma_byte_pos_full(src);
        lemma_chars_le_bytes(src);
        assert forall|i: int, j: int| 0 <= i < j < self.offsets@.len() implies self.offsets@[i]
            < self.offsets@[j] by {
            text::lemma_byte_pos_mono(src, i, j);
        }
    }

    /// The char index of a byte offset at which a char starts.
    fn char_index_of(&self, b: usize) -> (r: usize)
        requires
            self.wf(),
            text::is_boundary(self.chars@, b as int),
        ensures
            r == char_index(self.chars@, b as int),
            r <= self.chars@.len(),
            text::byte_pos(self.chars@, r as int) == b,
    {
        proof {
            self.lemma_tables();
            lemma_char_index(self.chars@, b as int);
        }
        let ghost g = char_index(self.chars@, b as int);
        match char_index_at(&self.offsets, b) {
            Some(k) => {
                proof {
                    text::lemma_byte_pos_injective(self.chars@, k as int, g);
                }
                k
            },
            None => {
                assert(self.offsets@[g] == b);
                0
            },
        }
    }

    /// Whether byte `b` starts a char (or is the end), and then its char index.
    fn boundary_index(&self, b: usize) -> (r: Option<usize>)
        requires
            self.wf(),
        ensures
            r is Some <==> text::is_boundary(self.chars@, b as int),
            r matches Some(k) ==> k == char_index(self.chars@, b as int),
    {
        proof {
            self.lemma_tables();
        }
        match char_index_at(&self.offsets, b) {
            Some(k) => {
                assert(text::byte_pos(self.chars@, k as int) == b);
                Some(self.char_index_of(b))
            },
            None => {
                assert forall|i: int| 0 <= i <= self.chars@.len() implies #[trigger] text::byte_pos(
                    self.chars@,
                    i,
                ) != b by {
                    assert(self.offsets@[i] != b);
                }
                None
            },
        }
    }

    fn line_bounds(&self, line: usize) -> (r: (usize, usize))
        requires
            self.wf(),
            1 <= line <= self.line_starts@.len(),
        ensures
            r.0 == line_starts_spec(self.chars@)[line - 1],
            r.1 == line_end_spec(self.chars@, line_starts_spec(self.chars@), line as int),
            r.0 <= r.1 <= text::byte_len(self.chars@),
            text::is_boundary(self.chars@, r.0 as int),
            text::is_boundary(self.chars@, r.1 as int),
    {
        proof {
            self.lemma_tables();
        }
        let a = self.line_starts[line - 1];
        let e = if line < self.line_starts.len() {
            self.line_starts[line]
        } else {
            self.offsets[self.chars.len()]
        };
        (a, e)
    }

    fn start_offset(&self, line: usize, col: usize) -> (r: usize)
        requires
            self.wf(),
        ensures
            r == start_offset_spec(self.chars@, line as int, col as int),
            r <= text::byte_len(self.chars@),
    {
        proof {
            self.lemma_tables();
        }
        if line == 0 || line > self.line_starts.len() {
            return self.offsets[self.chars.len()];
        }
        let (a, e) = self.line_bounds(line);
        let c = if col >= 1 {
            col - 1
        } else {
            0
        };
        if c > e - a {
            e
        } else {
            a + c
        }
    }

    fn last_start_at_or_before(&self, lo: usize, hi: usize, t: usize) -> (r: Option<usize>)
        requires
            self.wf(),
            lo <= hi <= self.chars@.len(),
        ensures
            r matches Some(k) ==> k as int == last_start_le(self.chars@, lo as int, hi as int, t as int) && lo <= k < hi,
            r is None ==> last_start_le(self.chars@, lo as int, hi as int, t as int) == -1,
    {
        let mut h = hi;
        while h > lo
            invariant
                self.wf(),
                lo <= h <= hi <= self.chars@.len(),
                last_start_le(self.chars@, lo as int, hi as int, t as int) == last_start_le(
                    self.chars@,
                    lo as int,
                    h as int,
                    t as int,
                ),
            decreases h - lo,
        {
            if self.offsets[h - 1] <= t {
                return Some(h - 1);
            }
            h -= 1;
        }
        None
    }

    fn end_offset(&self, line: usize, col: usize) -> (r: usize)
        requires
            self.wf(),
        ensures
            r == end_offset_spec(self.chars@, line as int, col as int),
            r <= text::byte_len(self.chars@),
    {
        proof {
            self.lemma_tables();
        }
        if line == 0 || line > self.line_starts.len() {
            return self.offsets[self.chars.len()];
        }
        let (a, e) = self.line_bounds(line);
        let c = if col >= 1 {
            col - 1
        } else {
            0
        };
        let em1 = if e >= 1 {
            e - 1
        } else {
            0
        };
        let hb = if em1 >= a {
            em1
        } else {
            a
        };
        let t = if c > hb - a {
            hb
        } else {
            a + c
        };
        let lo = self.char_index_of(a);
        let hi = self.char_index_of(e);
        proof {
            if hi < lo {
                text::lemma_byte_pos_mono(self.chars@, hi as int, lo as int);
            }
        }
        match self.last_start_at_or_before(lo, hi, t) {
            Some(k) => {
                proof {
                    text::lemma_byte_pos_mono(self.chars@, k + 1, self.chars@.len() as int);
                }
                self.offsets[k + 1]
            },
            None => a,
        }
    }

    fn node_chars(&self, n: MdNode) -> (r: Option<(usize, usize)>)
        requires
            self.wf(),
        ensures
            r matches Some((cs, ce)) ==> node_chars(self.chars@, n) == Some((cs as int, ce as int)) && cs
                <= ce <= self.chars@.len(),
            r is None ==> node_chars(self.chars@, n) is None,
    {
        let s = self.start_offset(n.start_line, n.start_column);
        let e = self.end_offset(n.end_line, n.end_column);
        if s >= e {
            return None;
        }
        match (self.boundary_index(s), self.boundary_index(e)) {
            (Some(cs), Some(ce)) => {
                proof {
                    lemma_char_index(self.chars@, s as int);
                    lemma_char_index(self.chars@, e as int);
                    if ce < cs {
                        text::lemma_byte_pos_mono(self.chars@, ce as int, cs as int);
                    }
                }
                Some((cs, ce))
            },
            _ => None,
        }
    }
}

fn makes_segment_exec(k: MdKind, p: Frame) -> (r: bool)
    ensures
        r == makes_segment(k, p),
{
    match k {
        MdKind::Paragraph => !p.child_item,
        MdKind::Heading | MdKind::TableCell | MdKind::Item => true,
        _ => false,
    }
}

fn child_frame_exec(k: MdKind, p: Frame, owner: bool) -> (r: Frame)
    ensures
        r == child_frame(k, p, owner),
{
    if p.suppressed {
        Frame { suppressed: true, child_item: false, child_quote: p.child_quote, owner: false }
    } else {
        match k {
            MdKind::Paragraph | MdKind::Heading | MdKind::TableCell | MdKind::CodeBlock
            | MdKind::HtmlBlock | MdKind::ThematicBreak => Frame {
                suppressed: true,
                child_item: false,
                child_quote: p.child_quote,
                owner,
            },
            MdKind::Item => Frame { suppressed: false, child_item: true, child_quote: p.child_quote, owner },
            MdKind::BlockQuote => Frame { suppressed: false, child_item: false, child_quote: true, owner: false },
            _ => Frame { suppressed: false, child_item: false, child_quote: p.child_quote, owner: false },
        }
    }
}

fn segment_kind_exec(k: MdKind) -> (r: SegmentKind)
    ensures
        r == segment_kind_of(k),
{
    match k {
        MdKind::Paragraph => SegmentKind::Paragraph,
        MdKind::Heading => SegmentKind::Heading,
        MdKind::TableCell => SegmentKind::TableCell,
        _ => SegmentKind::ListItem,
    }
}

fn code_range_exec(d: &TextSegment, s: usize, e: usize) -> (r: Option<(usize, usize)>)
    ensures
        r == code_range_in(d@, s as int, e as int),
{
    let seg_len = text::str_byte_len(d.text.as_str());
    if e <= s || s < d.start_byte {
        None
    } else {
        let rs = s - d.start_byte;
        let re = if e - d.start_byte < seg_len {
            e - d.start_byte
        } else {
            seg_len
        };
        if rs < re {
            Some((rs, re))
        } else {
            None
        }
    }
}

pub open spec fn codes_view(codes: Seq<(usize, usize, usize)>) -> Seq<(int, usize, usize)> {
    codes.map_values(|c: (usize, usize, usize)| (c.0 as int, c.1, c.2))
}

pub open spec fn owners_view(owners: Seq<usize>) -> Seq<int> {
    owners.map_values(|o: usize| o as int)
}

pub open spec fn drafts_view(drafts: Seq<TextSegment>) -> Seq<SegmentView> {
    drafts.map_values(|d: TextSegment| d@)
}

fn add_code_exec(
    codes: &mut Vec<(usize, usize, usize)>,
    drafts: &Vec<TextSegment>,
    owners: &Vec<usize>,
    s: usize,
    e: usize,
)
    requires
        forall|j: int| 0 <= j < owners@.len() ==> #[trigger] owners@[j] < drafts@.len(),
    ensures
        codes_view(final(codes)@) == add_code(
            codes_view(old(codes)@),
            drafts_view(drafts@),
            owners_view(owners@),
            s as int,
            e as int,
        ),
{
    let ghost c0 = codes_view(codes@);
    let mut j: usize = 0;
    assert(owners_view(owners@).take(0) =~= Seq::<int>::empty());
    while j < owners.len()
        invariant
            j <= owners@.len(),
            forall|j: int| 0 <= j < owners@.len() ==> #[trigger] owners@[j] < drafts@.len(),
            codes_view(codes@) == add_code(
                c0,
                drafts_view(drafts@),
                owners_view(owners@).take(j as int),
                s as int,
                e as int,
            ),
        decreases owners@.len() - j,
    {
        let o = owners[j];
        let ghost ov = owners_view(owners@).take(j as int + 1);
        assert(ov.drop_last() =~= owners_view(owners@).take(j as int));
        assert(ov.last() == o as int);
        match code_range_exec(&drafts[o], s, e) {
            Some((rs, re)) => {
                codes.push((o, rs, re));
            },
            None => {},
        }
        proof {
            assert(codes_view(codes@) =~= add_code(c0, drafts_view(drafts@), ov, s as int, e as int));
        }
        j += 1;
    }
    assert(owners_view(owners@).take(owners@.len() as int) =~= owners_view(owners@));
}


/// Document built from a source and the walk of its markdown tree.
/// Segment `s` with its start column counted in chars, as `locate` gives it.
pub open spec fn located(src: Seq<char>, s: SegmentView) -> SegmentView {
    SegmentView { start_column: pos_spec(src, s.start_byte as int).1, ..s }
}

pub open spec fn document_spec(source: Seq<char>, events: Seq<MdEvent>) -> DocumentView {
    DocumentView {
        source,
        segments: segments_spec(source, events).map_values(|s: SegmentView| located(source, s)),
        code_blocks: code_block_starts(source, events),
        links: link_spans(source, events),
    }
}

/// The byte ranges of the links of the walk `events`, in walk order.
pub open spec fn link_spans(src: Seq<char>, events: Seq<MdEvent>) -> Seq<(usize, usize)>
    decreases events.len(),
{
    if events.len() == 0 {
        seq![]
    } else {
        let before = link_spans(src, events.drop_last());
        match events.last() {
            MdEvent::Enter(n) => if n.kind == MdKind::Link {
                before.push(
                    (
                        start_offset_spec(src, n.start_line as int, n.start_column as int) as usize,
                        end_offset_spec(src, n.end_line as int, n.end_column as int) as usize,
                    ),
                )
            } else {
                before
            },
            MdEvent::Exit => before,
        }
    }
}

fn link_spans_exec(t: &Tables, events: &Vec<MdEvent>) -> (r: Vec<(usize, usize)>)
    requires
        t.wf(),
    ensures
        r@ == link_spans(t.chars@, events@),
{
    let mut r: Vec<(usize, usize)> = Vec::new();
    let mut i: usize = 0;
    assert(events@.take(0) =~= Seq::<MdEvent>::empty());
    while i < events.len()
        invariant
            t.wf(),
            i <= events@.len(),
            r@ == link_spans(t.chars@, events@.take(i as int)),
        decreases events@.len() - i,
    {
        assert(events@.take(i as int + 1).drop_last() =~= events@.take(i as int));
        assert(events@.take(i as int + 1).last() == events@[i as int]);
        match events[i] {
            MdEvent::Enter(n) => {
                if n.kind == MdKind::Link {
                    let s = t.start_offset(n.start_line, n.start_column);
                    let e = t.end_offset(n.end_line, n.end_column);
                    r.push((s, e));
                }
            },
            MdEvent::Exit => {},
        }
        i += 1;
    }
    assert(events@.take(events@.len() as int) =~= events@);
    r
}

/// The byte offsets at which the code blocks of the walk `events` start, in
/// walk order.
pub open spec fn code_block_starts(src: Seq<char>, events: Seq<MdEvent>) -> Seq<usize>
    decreases events.len(),
{
    if events.len() == 0 {
        seq![]
    } else {
        let before = code_block_starts(src, events.drop_last());
        match events.last() {
            MdEvent::Enter(n) => if n.kind == MdKind::CodeBlock {
                before.push(start_offset_spec(src, n.start_line as int, n.start_column as int) as usize)
            } else {
                before
            },
            MdEvent::Exit => before,
        }
    }
}

fn code_block_starts_exec(t: &Tables, events: &Vec<MdEvent>) -> (r: Vec<usize>)
    requires
        t.wf(),
    ensures
        r@ == code_block_starts(t.chars@, events@),
{
    let mut r: Vec<usize> = Vec::new();
    let mut i: usize = 0;
    assert(events@.take(0) =~= Seq::<MdEvent>::empty());
    while i < events.len()
        invariant
            t.wf(),
            i <= events@.len(),
            r@ == code_block_starts(t.chars@, events@.take(i as int)),
        decreases events@.len() - i,
    {
        assert(events@.take(i as int + 1).drop_last() =~= events@.take(i as int));
        assert(events@.take(i as int + 1).last() == events@[i as int]);
        match events[i] {
            MdEvent::Enter(n) => {
                if n.kind == MdKind::CodeBlock {
                    let s = t.start_offset(n.start_line, n.start_column);
                    r.push(s);
                }
            },
            MdEvent::Exit => {},
        }
        i += 1;
    }
    assert(events@.take(events@.len() as int) =~= events@);
    r
}

/// A segment of `src` as `Document::parse` makes it: a nonempty slice of the
/// source whose code ranges are nonempty byte ranges inside its text.
pub open spec fn segment_ok(src: Seq<char>, seg: SegmentView) -> bool {
    &&& seg.text.len() > 0
    &&& segment_in(src, seg)
    &&& forall|k: int|
        0 <= k < seg.code_ranges.len() ==> #[trigger] seg.code_ranges[k].0 < seg.code_ranges[k].1 <= text::byte_len(
            seg.text,
        )
}

/// A code range recorded for a draft lies inside that draft's text.
pub open spec fn code_ok(drafts: Seq<SegmentView>, c: (int, usize, usize)) -> bool {
    0 <= c.0 < drafts.len() && c.1 < c.2 <= text::byte_len(drafts[c.0].text)
}

pub open spec fn walk_ok(src: Seq<char>, st: BuildState) -> bool {
    &&& forall|i: int| 0 <= i < st.drafts.len() ==> #[trigger] st.drafts[i].text.len() > 0 && segment_in(
        src,
        st.drafts[i],
    ) && text::byte_len(st.drafts[i].text) <= text::byte_len(src)
    &&& forall|o: int| 0 <= o < st.owners.len() ==> 0 <= #[trigger] st.owners[o] < st.drafts.len()
    &&& forall|k: int| 0 <= k < st.codes.len() ==> code_ok(st.drafts, #[trigger] st.codes[k])
}

proof fn lemma_add_code_ok(
    codes: Seq<(int, usize, usize)>,
    drafts: Seq<SegmentView>,
    owners: Seq<int>,
    s: int,
    e: int,
)
    requires
        forall|k: int| 0 <= k < codes.len() ==> code_ok(drafts, #[trigger] codes[k]),
        forall|o: int| 0 <= o < owners.len() ==> 0 <= #[trigger] owners[o] < drafts.len(),
        forall|i: int| 0 <= i < drafts.len() ==> text::byte_len(#[trigger] drafts[i].text) <= usize::MAX,
    ensures
        forall|k: int|
            0 <= k < add_code(codes, drafts, owners, s, e).len() ==> code_ok(
                drafts,
                #[trigger] add_code(codes, drafts, owners, s, e)[k],
            ),
    decreases owners.len(),
{
    if owners.len() > 0 {
        let o2 = owners.drop_last();
        assert forall|o: int| 0 <= o < o2.len() implies 0 <= #[trigger] o2[o] < drafts.len() by {
            assert(o2[o] == owners[o]);
        }
        lemma_add_code_ok(codes, drafts, o2, s, e);
        assert(0 <= owners.last() < drafts.len()) by {
            assert(owners.last() == owners[owners.len() - 1]);
        }
        let before = add_code(codes, drafts, o2, s, e);
        let r = add_code(codes, drafts, owners, s, e);
        let o = owners.last();
        assert(text::byte_len(drafts[o].text) <= usize::MAX);
        assert forall|k: int| 0 <= k < r.len() implies code_ok(drafts, #[trigger] r[k]) by {
            if k < before.len() {
                assert(r[k] == before[k]);
            }
        }
    }
}

proof fn lemma_walk_ok(src: Seq<char>, events: Seq<MdEvent>)
    requires
        text::byte_len(src) < usize::MAX,
    ensures
        walk_ok(src, walk(src, events)),
    decreases events.len(),
{
    if events.len() > 0 {
        let prev = events.drop_last();
        lemma_walk_ok(src, prev);
        let st = walk(src, prev);
        let nx = walk(src, events);
        assert(nx == step(src, st, events.last()));
        match events.last() {
            MdEvent::Exit => {
                if st.frames.len() > 0 {
                    let f = st.frames.last();
                    if f.owner && st.owners.len() > 0 {
                        assert forall|o: int| 0 <= o < nx.owners.len() implies 0 <= #[trigger] nx.owners[o] < nx.drafts.len() by {
                            assert(nx.owners[o] == st.owners[o]);
                        }
                    }
                }
            },
            MdEvent::Enter(n) => {
                let p = if st.frames.len() == 0 {
                    root_frame()
                } else {
                    st.frames.last()
                };
                assert forall|i: int| 0 <= i < st.drafts.len() implies text::byte_len(#[trigger] st.drafts[i].text)
                    <= usize::MAX by {
                    assert(text::byte_len(st.drafts[i].text) <= text::byte_len(src));
                }
                let codes = if n.kind == MdKind::Code {
                    lemma_add_code_ok(
                        st.codes,
                        st.drafts,
                        st.owners,
                        start_offset_spec(src, n.start_line as int, n.start_column as int),
                        end_offset_spec(src, n.end_line as int, n.end_column as int),
                    );
                    add_code(
                        st.codes,
                        st.drafts,
                        st.owners,
                        start_offset_spec(src, n.start_line as int, n.start_column as int),
                        end_offset_spec(src, n.end_line as int, n.end_column as int),
                    )
                } else {
                    st.codes
                };
                assert(nx.codes == codes);
                let wants = !p.suppressed && makes_segment(n.kind, p);
                let made = wants && node_chars(src, n) is Some;
                if made {
                    let (cs, ce) = node_chars(src, n)->0;
                    let ss = start_offset_spec(src, n.start_line as int, n.start_column as int);
                    let ee = end_offset_spec(src, n.end_line as int, n.end_column as int);
                    lemma_char_index(src, ss);
                    lemma_char_index(src, ee);
                    assert(cs == char_index(src, ss));
                    assert(ce == char_index(src, ee));
                    if ce <= cs {
                        if ce < cs {
                            text::lemma_byte_pos_mono(src, ce, cs);
                        }
                        assert(false);
                    }
                    let d = nx.drafts.last();
                    assert(d.text == src.subrange(cs, ce));
                    text::lemma_byte_pos_mono(src, cs, src.len() as int);
                    text::lemma_byte_pos_mono(src, ce, src.len() as int);
                    text::lemma_byte_pos_full(src);
                    text::lemma_byte_len_subrange(src, cs, ce);
                    assert(segment_in(src, d)) by {
                        assert(d.start_byte == text::byte_pos(src, cs));
                    }
                    assert forall|i: int| 0 <= i < nx.drafts.len() implies #[trigger] nx.drafts[i].text.len() > 0
                        && segment_in(src, nx.drafts[i]) && text::byte_len(nx.drafts[i].text) <= text::byte_len(src) by {
                        if i < st.drafts.len() {
                            assert(nx.drafts[i] == st.drafts[i]);
                        }
                    }
                    assert forall|k: int| 0 <= k < nx.codes.len() implies code_ok(nx.drafts, #[trigger] nx.codes[k]) by {
                        assert(code_ok(st.drafts, nx.codes[k]));
                        assert(nx.drafts[nx.codes[k].0] == st.drafts[nx.codes[k].0]);
                    }
                    assert forall|o: int| 0 <= o < nx.owners.len() implies 0 <= #[trigger] nx.owners[o] < nx.drafts.len() by {
                        if o < st.owners.len() {
                            assert(nx.owners[o] == st.owners[o]);
                        }
                    }
                }
            },
        }
    }
}

/// Some recorded code range is `(i, c.0, c.1)`.
pub open spec fn recorded(codes: Seq<(int, usize, usize)>, i: int, c: (usize, usize)) -> bool {
    exists|m: int| 0 <= m < codes.len() && #[trigger] codes[m] == (i, c.0, c.1)
}

proof fn lemma_codes_for(codes: Seq<(int, usize, usize)>, i: int)
    ensures
        forall|k: int| 0 <= k < codes_for(codes, i).len() ==> recorded(codes, i, #[trigger] codes_for(codes, i)[k]),
    decreases codes.len(),
{
    if codes.len() > 0 {
        let c2 = codes.drop_last();
        lemma_codes_for(c2, i);
        let r = codes_for(codes, i);
        let r2 = codes_for(c2, i);
        assert forall|k: int| 0 <= k < r.len() implies recorded(codes, i, #[trigger] r[k]) by {
            if k < r2.len() {
                assert(r[k] == r2[k]);
                assert(recorded(c2, i, r2[k]));
                let m = choose|m: int| 0 <= m < c2.len() && #[trigger] c2[m] == (i, r2[k].0, r2[k].1);
                assert(codes[m] == c2[m]);
            } else {
                assert(codes[codes.len() - 1] == codes.last());
            }
        }
    }
}

/// Law: every segment of a document is a nonempty slice of its source, and
/// every code range of a segment is a nonempty byte range inside the
/// segment's text.
pub proof fn lemma_segments_ok(src: Seq<char>, events: Seq<MdEvent>)
    requires
        text::byte_len(src) < usize::MAX,
    ensures
        forall|i: int|
            0 <= i < document_spec(src, events).segments.len() ==> segment_ok(
                src,
                #[trigger] document_spec(src, events).segments[i],
            ),
{
    let st = walk(src, events);
    lemma_walk_ok(src, events);
    let segs = segments_spec(src, events);
    assert forall|i: int| 0 <= i < document_spec(src, events).segments.len() implies segment_ok(
        src,
        #[trigger] document_spec(src, events).segments[i],
    ) by {
        let seg = document_spec(src, events).segments[i];
        assert(seg == located(src, segs[i]));
        assert(segs[i].text == st.drafts[i].text);
        assert(st.drafts[i].text.len() > 0 && segment_in(src, st.drafts[i]));
        let (a, b) = choose|a: int, b: int|
            #![trigger src.subrange(a, b)]
            0 <= a <= b <= src.len() && st.drafts[i].text == src.subrange(a, b) && st.drafts[i].start_byte
                == text::byte_pos(src, a);
        assert(seg.text == src.subrange(a, b));
        lemma_codes_for(st.codes, i);
        assert forall|k: int| 0 <= k < seg.code_ranges.len() implies #[trigger] seg.code_ranges[k].0
            < seg.code_ranges[k].1 <= text::byte_len(seg.text) by {
            let cr = codes_for(st.codes, i)[k];
            assert(seg.code_ranges[k] == cr);
            assert(recorded(st.codes, i, cr));
            let m = choose|m: int| 0 <= m < st.codes.len() && #[trigger] st.codes[m] == (i, cr.0, cr.1);
            assert(code_ok(st.drafts, st.codes[m]));
        }
    }
}

fn codes_for_exec(codes: &Vec<(usize, usize, usize)>, i: usize) -> (r: Vec<(usize, usize)>)
    ensures
        r@ == codes_for(codes_view(codes@), i as int),
{
    let mut r: Vec<(usize, usize)> = Vec::new();
    let mut j: usize = 0;
    assert(codes_view(codes@).take(0) =~= Seq::<(int, usize, usize)>::empty());
    while j < codes.len()
        invariant
            j <= codes@.len(),
            r@ == codes_for(codes_view(codes@).take(j as int), i as int),
        decreases codes@.len() - j,
    {
        let c = codes[j];
        let ghost cv = codes_view(codes@).take(j as int + 1);
        assert(cv.drop_last() =~= codes_view(codes@).take(j as int));
        if c.0 == i {
            r.push((c.1, c.2));
        }
        j += 1;
    }
    assert(codes_view(codes@).take(codes@.len() as int) =~= codes_view(codes@));
    r
}

impl Document {
    /// Builds the document of `source` from the walk of its markdown tree.
    #[verifier::rlimit(60)]
    pub fn from_events(source: &str, events: &Vec<MdEvent>) -> (doc: Document)
        requires
            text::byte_len(source@) < usize::MAX,
        ensures
            doc.wf(),
            doc@ == document_spec(source@, events@),
    {
        let t = make_tables(source);
        let ghost src = source@;
        let code_blocks = code_block_starts_exec(&t, events);
        let links = link_spans_exec(&t, events);
        let mut frames: Vec<Frame> = Vec::new();
        let mut owners: Vec<usize> = Vec::new();
        let mut drafts: Vec<TextSegment> = Vec::new();
        let mut codes: Vec<(usize, usize, usize)> = Vec::new();
        let mut i: usize = 0;
        assert(events@.take(0) =~= Seq::<MdEvent>::empty());
        assert(codes_view(codes@) =~= Seq::<(int, usize, usize)>::empty());
        assert(owners_view(owners@) =~= Seq::<int>::empty());
        assert(drafts_view(drafts@) =~= Seq::<SegmentView>::empty());
        while i < events.len()
            invariant
                t.wf(),
                t.chars@ == src,
                i <= events@.len(),
                ({
                    let st = walk(src, events@.take(i as int));
                    &&& frames@ == st.frames
                    &&& owners_view(owners@) == st.owners
                    &&& drafts_view(drafts@) == st.drafts
                    &&& codes_view(codes@) == st.codes
                }),
                forall|j: int| 0 <= j < owners@.len() ==> #[trigger] owners@[j] < drafts@.len(),
                forall|j: int| 0 <= j < drafts@.len() ==> segment_in(src, #[trigger] drafts@[j]@),
            decreases events@.len() - i,
        {
            let ghost prev = events@.take(i as int);
            let ghost st = walk(src, prev);
            assert(events@.take(i as int + 1).drop_last() =~= prev);
            assert(events@.take(i as int + 1).last() == events@[i as int]);
            let ev = events[i];
            let p = if frames.len() == 0 {
                Frame { suppressed: false, child_item: false, child_quote: false, owner: false }
            } else {
                frames[frames.len() - 1]
            };
            match ev {
                MdEvent::Exit => {
                    if frames.len() > 0 {
                        let f = frames.pop().unwrap();
                        assert(f == st.frames.last());
                        if f.owner && owners.len() > 0 {
                            owners.pop();
                            assert(owners_view(owners@) =~= st.owners.drop_last());
                        }
                    }
                },
                MdEvent::Enter(n) => {
                    if n.kind == MdKind::Code {
                        let s = t.start_offset(n.start_line, n.start_column);
                        let e = t.end_offset(n.end_line, n.end_column);
                        add_code_exec(&mut codes, &drafts, &owners, s, e);
                    }
                    let wants = !p.suppressed && makes_segment_exec(n.kind, p);
                    let mut made = false;
                    if wants {
                        match t.node_chars(n) {
                            Some((cs, ce)) => {
                                let seg = TextSegment {
                                    text: text::string_of(&t.chars, cs, ce),
                                    start_byte: t.offsets[cs],
                                    start_line: n.start_line,
                                    start_column: n.start_column,
                                    kind: segment_kind_exec(n.kind),
                                    in_block_quote: p.child_quote,
                                    code_ranges: Vec::new(),
                                };
                                assert(seg@.code_ranges =~= Seq::<(usize, usize)>::empty());
                                assert(src.subrange(cs as int, ce as int) == seg@.text);
                                drafts.push(seg);
                                made = true;
                                assert(drafts_view(drafts@) =~= st.drafts.push(seg@));
                            },
                            None => {},
                        }
                    }
                    frames.push(child_frame_exec(n.kind, p, made));
                    if made {
                        owners.push(drafts.len() - 1);
                        assert(owners_view(owners@) =~= st.owners.push(st.drafts.len() as int));
                    }
                },
            }
            i += 1;
        }
        assert(events@.take(events@.len() as int) =~= events@);
        let ghost st = walk(src, events@);
        // Attach the code ranges to each segment, in order.
        let ghost n = st.drafts.len();
        assert(drafts@.len() == n);
        let mut rev: Vec<TextSegment> = Vec::new();
        while drafts.len() > 0
            invariant
                n == st.drafts.len(),
                drafts@.len() + rev@.len() == n,
                forall|j: int| 0 <= j < drafts@.len() ==> #[trigger] drafts@[j]@ == st.drafts[j],
                forall|j: int| 0 <= j < rev@.len() ==> #[trigger] rev@[j]@ == st.drafts[n - 1 - j],
                forall|j: int| 0 <= j < drafts@.len() ==> segment_in(src, #[trigger] drafts@[j]@),
                forall|j: int| 0 <= j < rev@.len() ==> segment_in(src, #[trigger] rev@[j]@),
            decreases drafts@.len(),
        {
            let d = drafts.pop().unwrap();
            rev.push(d);
        }
        let probe = Document {
            source: source.to_owned(),
            segments: Vec::new(),
            line_starts: t.line_starts,
            chars: t.chars,
            offsets: t.offsets,
            code_blocks,
            links,
        };
        assert(probe@.segments =~= Seq::<SegmentView>::empty());
        assert(probe.wf());
        let mut segments: Vec<TextSegment> = Vec::new();
        while rev.len() > 0
            invariant
                probe.wf(),
                probe@.source == src,
                n == st.drafts.len(),
                segments@.len() + rev@.len() == n,
                forall|j: int| 0 <= j < rev@.len() ==> #[trigger] rev@[j]@ == st.drafts[n - 1 - j],
                forall|j: int| 0 <= j < segments@.len() ==> #[trigger] segments@[j]@ == located(src, segments_spec(src, events@)[j]),
                forall|j: int| 0 <= j < segments@.len() ==> segment_in(src, #[trigger] segments@[j]@),
                forall|j: int| 0 <= j < rev@.len() ==> segment_in(src, #[trigger] rev@[j]@),
                codes_view(codes@) == st.codes,
                st == walk(src, events@),
            decreases rev@.len(),
        {
            let k = segments.len();
            let mut d = rev.pop().unwrap();
            assert(d@ == st.drafts[k as int]);
            d.code_ranges = codes_for_exec(&codes, k);
            assert(segment_in(src, d@)) by {
                assert(d@.text == st.drafts[k as int].text);
            }
            proof {
                let a = choose|a: int, b: int|
                    #![trigger src.subrange(a, b)]
                    0 <= a <= b <= src.len() && d@.text == src.subrange(a, b) && d@.start_byte == text::byte_pos(src, a);
                assert(text::is_boundary(src, d.start_byte as int)) by {
                    assert(text::byte_pos(src, a.0) == d.start_byte);
                }
            }
            let (_line, column) = probe.locate(d.start_byte);
            d.start_column = column;
            segments.push(d);
        }
        let doc = Document {
            source: probe.source,
            segments,
            line_starts: probe.line_starts,
            chars: probe.chars,
            offsets: probe.offsets,
            code_blocks: probe.code_blocks,
            links: probe.links,
        };
        assert(doc@.segments =~= segments_spec(src, events@).map_values(|s: SegmentView| located(src, s)));
        doc
    }

    /// Parses `source` as markdown and extracts its text segments.
    pub fn parse(source: &str) -> (doc: Document)
        requires
            text::byte_len(source@) < usize::MAX,
        ensures
            doc.wf(),
            doc@ == document_spec(source@, markdown_events(source@, document_extensions())),
            forall|i: int| 0 <= i < doc@.segments.len() ==> segment_ok(source@, #[trigger] doc@.segments[i]),
    {
        let ext = MarkdownExtensions {
            table: true,
            strikethrough: true,
            autolink: true,
            tasklist: true,
            sourcepos: true,
        };
        let events = parse_markdown(source, ext);
        proof {
            lemma_segments_ok(source@, events@);
        }
        Document::from_events(source, &events)
    }
}


/// (line, column) of byte `off` of segment `seg`, as `Document::pos_at` resolves it.
pub open spec fn seg_pos(doc: DocumentView, seg: SegmentView, off: int) -> (usize, usize) {
    pos_spec(doc.source, seg.start_byte + min_int(off, text::byte_len(seg.text) as int))
}

/// Offsets of chars of a segment of a well-formed document resolve and lie in the source.
pub proof fn lemma_seg_offset(doc: DocumentView, i: int, k: int)
    requires
        view_wf(doc),
        0 <= i < doc.segments.len(),
        0 <= k <= doc.segments[i].text.len(),
    ensures
        ({
            let seg = doc.segments[i];
            &&& text::is_boundary(doc.source, seg.start_byte + text::byte_pos(seg.text, k))
            &&& locatable(doc.source, seg.start_byte + text::byte_pos(seg.text, k))
            &&& seg.start_byte + text::byte_len(seg.text) <= text::byte_len(doc.source)
            &&& text::byte_pos(seg.text, k) <= text::byte_len(seg.text)
            &&& seg.start_byte + text::byte_len(seg.text) < usize::MAX
        }),
{
    let seg = doc.segments[i];
    let src = doc.source;
    assert(segment_in(src, seg));
    let (a, b) = choose|a: int, b: int|
        #![trigger src.subrange(a, b)]
        0 <= a <= b <= src.len() && seg.text == src.subrange(a, b) && seg.start_byte == text::byte_pos(src, a);
    text::lemma_byte_pos_subrange(src, a, b, k);
    assert(text::is_boundary(src, text::byte_pos(src, a + k) as int));
    text::lemma_byte_len_subrange(src, a, b);
    text::lemma_byte_pos_mono(src, b, src.len() as int);
    text::lemma_byte_pos_full(src);
    text::lemma_byte_pos_mono(seg.text, k, seg.text.len() as int);
    text::lemma_byte_pos_full(seg.text);
}

} // verus!

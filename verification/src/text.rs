//! Text primitives shared by the document model and the rules.
//!
//! Strings are modelled by their `Seq<char>` view. Positions inside a string
//! are UTF-8 byte offsets, as in the rest of the crate; `byte_pos(s, i)` is the
//! byte offset at which the `i`-th char of `s` starts.

use vstd::prelude::*;
use vstd::utf8::*;

verus! {

/// Number of bytes of the UTF-8 encoding of `c`.
pub open spec fn char_width(c: char) -> nat {
    encode_scalar(c as u32).len()
}

/// Number of bytes of the UTF-8 encoding of `s`.
pub open spec fn byte_len(s: Seq<char>) -> nat {
    encode_utf8(s).len()
}

/// Byte offset of the `i`-th char of `s`.
pub open spec fn byte_pos(s: Seq<char>, i: int) -> nat {
    byte_len(s.take(i))
}

/// `b` is the byte offset at which some char of `s` starts, or the end of `s`.
pub open spec fn is_boundary(s: Seq<char>, b: int) -> bool {
    exists|i: int| 0 <= i <= s.len() && #[trigger] byte_pos(s, i) == b
}

/// The widths of the four UTF-8 encoding classes.
pub proof fn lemma_char_width(c: char)
    ensures
        char_width(c) == (if (c as u32) < 0x80 {
            1nat
        } else if (c as u32) < 0x800 {
            2nat
        } else if (c as u32) < 0x10000 {
            3nat
        } else {
            4nat
        }),
        1 <= char_width(c) <= 4,
{
    char_is_scalar(c);
}

/// Encoding distributes over concatenation.
pub proof fn lemma_encode_concat(a: Seq<char>, b: Seq<char>)
    ensures
        encode_utf8(a + b) == encode_utf8(a) + encode_utf8(b),
    decreases a.len(),
{
    if a.len() == 0 {
        assert(a + b =~= b);
        assert(encode_utf8(a) =~= Seq::<u8>::empty());
        assert(encode_utf8(a) + encode_utf8(b) =~= encode_utf8(b));
    } else {
        assert((a + b).drop_first() =~= a.drop_first() + b);
        assert((a + b)[0] == a[0]);
        lemma_encode_concat(a.drop_first(), b);
        assert(encode_utf8(a + b) =~= encode_scalar(a[0] as u32) + encode_utf8(a.drop_first() + b));
        assert(encode_utf8(a + b) =~= encode_utf8(a) + encode_utf8(b));
    }
}

pub proof fn lemma_byte_len_concat(a: Seq<char>, b: Seq<char>)
    ensures
        byte_len(a + b) == byte_len(a) + byte_len(b),
{
    lemma_encode_concat(a, b);
}

pub proof fn lemma_byte_len_single(c: char)
    ensures
        byte_len(seq![c]) == char_width(c),
{
    assert(seq![c].drop_first() =~= Seq::<char>::empty());
    assert(encode_utf8(seq![c]) =~= encode_scalar(c as u32) + encode_utf8(Seq::<char>::empty()));
    assert(encode_utf8(seq![c]) =~= encode_scalar(c as u32));
}

pub proof fn lemma_byte_len_push(s: Seq<char>, c: char)
    ensures
        byte_len(s.push(c)) == byte_len(s) + char_width(c),
{
    assert(s.push(c) =~= s + seq![c]);
    lemma_byte_len_concat(s, seq![c]);
    lemma_byte_len_single(c);
}

/// Byte offsets grow by the width of each char.
pub proof fn lemma_byte_pos_step(s: Seq<char>, i: int)
    requires
        0 <= i < s.len(),
    ensures
        byte_pos(s, i + 1) == byte_pos(s, i) + char_width(s[i]),
        byte_pos(s, i) < byte_pos(s, i + 1),
{
    assert(s.take(i + 1) =~= s.take(i).push(s[i]));
    lemma_byte_len_push(s.take(i), s[i]);
    lemma_char_width(s[i]);
}

pub proof fn lemma_byte_pos_zero(s: Seq<char>)
    ensures
        byte_pos(s, 0) == 0,
{
    assert(s.take(0) =~= Seq::<char>::empty());
}

pub proof fn lemma_byte_pos_full(s: Seq<char>)
    ensures
        byte_pos(s, s.len() as int) == byte_len(s),
{
    assert(s.take(s.len() as int) =~= s);
}

/// Byte offsets are strictly increasing in the char index.
pub proof fn lemma_byte_pos_mono(s: Seq<char>, i: int, j: int)
    requires
        0 <= i <= j <= s.len(),
    ensures
        byte_pos(s, i) <= byte_pos(s, j),
        i < j ==> byte_pos(s, i) < byte_pos(s, j),
    decreases j - i,
{
    if i < j {
        lemma_byte_pos_mono(s, i, j - 1);
        lemma_byte_pos_step(s, j - 1);
    }
}

/// The byte offset of a char inside a slice `s[a..]` is its offset in `s` minus that of `a`.
pub proof fn lemma_byte_pos_subrange(s: Seq<char>, a: int, b: int, k: int)
    requires
        0 <= a <= b <= s.len(),
        0 <= k <= b - a,
    ensures
        byte_pos(s.subrange(a, b), k) + byte_pos(s, a) == byte_pos(s, a + k),
{
    let t = s.subrange(a, b);
    assert(s.take(a + k) =~= s.take(a) + t.take(k));
    lemma_byte_len_concat(s.take(a), t.take(k));
}

pub proof fn lemma_byte_len_subrange(s: Seq<char>, a: int, b: int)
    requires
        0 <= a <= b <= s.len(),
    ensures
        byte_len(s.subrange(a, b)) + byte_pos(s, a) == byte_pos(s, b),
{
    lemma_byte_pos_subrange(s, a, b, b - a);
    lemma_byte_pos_full(s.subrange(a, b));
}

/// Distinct char indices start at distinct byte offsets.
pub proof fn lemma_byte_pos_injective(s: Seq<char>, i: int, j: int)
    requires
        0 <= i <= s.len(),
        0 <= j <= s.len(),
        byte_pos(s, i) == byte_pos(s, j),
    ensures
        i == j,
{
    if i < j {
        lemma_byte_pos_mono(s, i, j);
    } else if j < i {
        lemma_byte_pos_mono(s, j, i);
    }
}

/// Width of a char, as `char::len_utf8` documents it.
pub fn len_utf8(c: char) -> (n: usize)
    ensures
        n == char_width(c),
        1 <= n <= 4,
{
    proof {
        lemma_char_width(c);
    }
    let v = c as u32;
    if v < 0x80 {
        1
    } else if v < 0x800 {
        2
    } else if v < 0x10000 {
        3
    } else {
        4
    }
}

/// The chars of `s` with the byte offset at which each one starts; the offsets
/// have one more entry, the byte length of `s`.
pub fn char_table(s: &str) -> (r: (Vec<char>, Vec<usize>))
    ensures
        r.0@ == s@,
        r.1@.len() == s@.len() + 1,
        forall|i: int| 0 <= i <= s@.len() ==> #[trigger] r.1@[i] == byte_pos(s@, i),
        byte_len(s@) <= usize::MAX,
{
    let total = s.as_bytes().len();
    assert(total == byte_len(s@));
    let mut chars: Vec<char> = Vec::new();
    let mut offs: Vec<usize> = Vec::new();
    let mut pos: usize = 0;
    proof {
        lemma_byte_pos_zero(s@);
    }
    offs.push(0);
    let mut it = s.chars();
    let ghost all = s@;
    loop
        invariant
            all == s@,
            chars@.len() <= all.len(),
            chars@ == all.take(chars@.len() as int),
            vstd::std_specs::iter::IteratorSpec::remaining(&it) == all.skip(chars@.len() as int),
            vstd::std_specs::iter::IteratorSpec::obeys_prophetic_iter_laws(&it),
            offs@.len() == chars@.len() + 1,
            forall|i: int| 0 <= i <= chars@.len() ==> #[trigger] offs@[i] == byte_pos(all, i),
            pos == byte_pos(all, chars@.len() as int),
            total == byte_len(all),
        ensures
            chars@ == all,
            offs@.len() == chars@.len() + 1,
            forall|i: int| 0 <= i <= chars@.len() ==> #[trigger] offs@[i] == byte_pos(all, i),
        decreases all.len() - chars@.len(),
    {
        match it.next() {
            Some(c) => {
                let ghost k = chars@.len() as int;
                assert(all.skip(k).len() > 0);
                assert(c == all[k]);
                proof {
                    lemma_byte_pos_step(all, k);
                    lemma_byte_pos_mono(all, k + 1, all.len() as int);
                    lemma_byte_pos_full(all);
                }
                let w = len_utf8(c);
                pos = pos + w;
                chars.push(c);
                offs.push(pos);
                assert(all.skip(k).drop_first() =~= all.skip(k + 1));
                assert(chars@ =~= all.take(k + 1));
            },
            None => {
                assert(all.skip(chars@.len() as int).len() == 0);
                assert(chars@ =~= all);
                break;
            },
        }
    }
    (chars, offs)
}

/// Byte length of a string.
pub fn str_byte_len(s: &str) -> (n: usize)
    ensures
        n == byte_len(s@),
{
    s.as_bytes().len()
}

/// Whether two strings are equal.
pub fn str_eq(a: &str, b: &str) -> (r: bool)
    ensures
        r == (a@ == b@),
{
    let x = chars_of(a);
    let y = chars_of(b);
    if x.len() != y.len() {
        return false;
    }
    let mut i: usize = 0;
    while i < x.len()
        invariant
            x@ == a@,
            y@ == b@,
            x@.len() == y@.len(),
            i <= x@.len(),
            forall|k: int| 0 <= k < i ==> x@[k] == y@[k],
        decreases x@.len() - i,
    {
        if x[i] != y[i] {
            return false;
        }
        i += 1;
    }
    assert(x@ =~= y@);
    true
}

/// Appends `c` to `s`.
#[verifier::external_body]
pub(crate) fn push_char(s: &mut String, c: char)
    ensures
        final(s)@ == old(s)@.push(c),
{
    s.push(c);
}

/// Appends `chars[from..to]` to `out`.
pub fn push_chars(out: &mut String, chars: &Vec<char>, from: usize, to: usize)
    requires
        from <= to <= chars@.len(),
    ensures
        final(out)@ == old(out)@ + chars@.subrange(from as int, to as int),
{
    let mut i = from;
    while i < to
        invariant
            from <= i <= to <= chars@.len(),
            out@ == old(out)@ + chars@.subrange(from as int, i as int),
        decreases to - i,
    {
        push_char(out, chars[i]);
        assert(chars@.subrange(from as int, i + 1) =~= chars@.subrange(from as int, i as int).push(
            chars@[i as int],
        ));
        assert(out@ =~= old(out)@ + chars@.subrange(from as int, i + 1));
        i += 1;
    }
}

/// Appends `s` to `out`.
pub fn push_str(out: &mut String, s: &str)
    ensures
        final(out)@ == old(out)@ + s@,
{
    let c = chars_of(s);
    push_chars(out, &c, 0, c.len());
    assert(c@.subrange(0, c@.len() as int) =~= c@);
}

/// The string made of `chars[from..to]`.
pub fn string_of(chars: &Vec<char>, from: usize, to: usize) -> (r: String)
    requires
        from <= to <= chars@.len(),
    ensures
        r@ == chars@.subrange(from as int, to as int),
{
    let mut r = String::new();
    let mut i = from;
    while i < to
        invariant
            from <= i <= to <= chars@.len(),
            r@ == chars@.subrange(from as int, i as int),
        decreases to - i,
    {
        push_char(&mut r, chars[i]);
        assert(chars@.subrange(from as int, i + 1) =~= chars@.subrange(from as int, i as int).push(
            chars@[i as int],
        ));
        i += 1;
    }
    r
}

/// Index of the char of the table that starts at byte `b`, if any.
pub fn char_index_at(offs: &Vec<usize>, b: usize) -> (r: Option<usize>)
    requires
        forall|i: int, j: int| 0 <= i < j < offs@.len() ==> offs@[i] < offs@[j],
    ensures
        r matches Some(k) ==> k < offs@.len() && offs@[k as int] == b,
        r is None ==> forall|k: int| 0 <= k < offs@.len() ==> offs@[k] != b,
{
    let mut lo: usize = 0;
    let mut hi: usize = offs.len();
    while lo < hi
        invariant
            0 <= lo <= hi <= offs@.len(),
            forall|i: int, j: int| 0 <= i < j < offs@.len() ==> offs@[i] < offs@[j],
            forall|k: int| 0 <= k < lo ==> offs@[k] < b,
            forall|k: int| hi <= k < offs@.len() ==> offs@[k] > b,
        decreases hi - lo,
    {
        let mid = lo + (hi - lo) / 2;
        if offs[mid] == b {
            return Some(mid);
        } else if offs[mid] < b {
            lo = mid + 1;
        } else {
            hi = mid;
        }
    }
    None
}

/// Whether `a` is a prefix of `s` at char index `at`.
pub open spec fn occurs_at(s: Seq<char>, at: int, a: Seq<char>) -> bool {
    0 <= at && at + a.len() <= s.len() && s.subrange(at, at + a.len()) == a
}

pub fn starts_with_at(s: &Vec<char>, at: usize, a: &Vec<char>) -> (r: bool)
    requires
        at <= s@.len(),
    ensures
        r == occurs_at(s@, at as int, a@),
{
    if a.len() > s.len() - at {
        return false;
    }
    let mut i: usize = 0;
    while i < a.len()
        invariant
            at + a@.len() <= s@.len(),
            s@.len() == s.len(),
            i <= a@.len(),
            forall|k: int| 0 <= k < i ==> s@[at + k] == a@[k],
        decreases a@.len() - i,
    {
        if s[at + i] != a[i] {
            assert(s@.subrange(at as int, at + a@.len())[i as int] != a@[i as int]);
            return false;
        }
        i += 1;
    }
    assert(s@.subrange(at as int, at + a@.len()) =~= a@);
    true
}

/// The chars of a `&str`.
pub fn chars_of(s: &str) -> (r: Vec<char>)
    ensures
        r@ == s@,
{
    let (c, _) = char_table(s);
    c
}

/// `s` padded on the left with `'0'` to at least `w` chars.
pub open spec fn zero_pad(s: Seq<char>, w: nat) -> Seq<char> {
    if s.len() < w {
        Seq::new((w - s.len()) as nat, |i: int| '0') + s
    } else {
        s
    }
}

/// The decimal digit of `d`.
pub open spec fn digit_char(d: nat) -> char {
    ((d + 48) as u8) as char
}

/// The decimal digits of `n`, without leading zeros.
pub open spec fn decimal(n: nat) -> Seq<char>
    decreases n,
{
    if n < 10 {
        seq![digit_char(n)]
    } else {
        decimal(n / 10).push(digit_char(n % 10))
    }
}

/// Appends the decimal digits of `n` to `out`.
pub fn push_decimal(out: &mut String, n: usize)
    ensures
        final(out)@ == old(out)@ + decimal(n as nat),
    decreases n,
{
    let d = (n % 10) as u8;
    if n >= 10 {
        push_decimal(out, n / 10);
    }
    push_char(out, (d + 48) as char);
    assert(out@ =~= old(out)@ + decimal(n as nat));
}

/// Appends the decimal digits of `n` to `out`.
pub fn push_decimal_u64(out: &mut String, n: u64)
    ensures
        final(out)@ == old(out)@ + decimal(n as nat),
    decreases n,
{
    let d = (n % 10) as u8;
    if n >= 10 {
        push_decimal_u64(out, n / 10);
    }
    push_char(out, (d + 48) as char);
    assert(out@ =~= old(out)@ + decimal(n as nat));
}

/// The decimal digits of `n`.
pub fn decimal_string(n: usize) -> (r: String)
    ensures
        r@ == decimal(n as nat),
{
    let mut r = String::new();
    push_decimal(&mut r, n);
    assert(r@ =~= decimal(n as nat));
    r
}

/// `a` comes before `b` in the order of strings: char by char, a prefix first.
pub open spec fn seq_lt(a: Seq<char>, b: Seq<char>) -> bool
    decreases a.len(),
{
    if a.len() == 0 {
        b.len() > 0
    } else if b.len() == 0 {
        false
    } else if a[0] != b[0] {
        (a[0] as u32) < (b[0] as u32)
    } else {
        seq_lt(a.drop_first(), b.drop_first())
    }
}

pub fn str_lt(a: &Vec<char>, b: &Vec<char>) -> (r: bool)
    ensures
        r == seq_lt(a@, b@),
{
    let mut i: usize = 0;
    assert(a@.skip(0) =~= a@ && b@.skip(0) =~= b@);
    while i < a.len() && i < b.len()
        invariant
            i <= a@.len(),
            i <= b@.len(),
            seq_lt(a@, b@) == seq_lt(a@.skip(i as int), b@.skip(i as int)),
        decreases a@.len() - i,
    {
        let ghost sa = a@.skip(i as int);
        let ghost sb = b@.skip(i as int);
        assert(sa[0] == a@[i as int] && sb[0] == b@[i as int]);
        if a[i] != b[i] {
            return (a[i] as u32) < (b[i] as u32);
        }
        assert(sa.drop_first() =~= a@.skip(i + 1));
        assert(sb.drop_first() =~= b@.skip(i + 1));
        i += 1;
    }
    if i == a.len() {
        assert(a@.skip(i as int).len() == 0);
    } else {
        assert(b@.skip(i as int).len() == 0);
        assert(a@.skip(i as int).len() > 0);
    }
    i == a.len() && i < b.len()
}


/// `a` is strictly below `b` in no order of strings.
pub proof fn lemma_lt_irreflexive(a: Seq<char>)
    ensures
        !seq_lt(a, a),
    decreases a.len(),
{
    if a.len() > 0 {
        lemma_lt_irreflexive(a.drop_first());
    }
}

pub proof fn lemma_lt_transitive(a: Seq<char>, b: Seq<char>, c: Seq<char>)
    requires
        seq_lt(a, b),
        seq_lt(b, c),
    ensures
        seq_lt(a, c),
    decreases a.len(),
{
    if a.len() > 0 && b.len() > 0 && c.len() > 0 && a[0] == b[0] && b[0] == c[0] {
        lemma_lt_transitive(a.drop_first(), b.drop_first(), c.drop_first());
    }
}

/// Two different strings are ordered one way or the other.
pub proof fn lemma_lt_total(a: Seq<char>, b: Seq<char>)
    ensures
        a == b || seq_lt(a, b) || seq_lt(b, a),
    decreases a.len(),
{
    if a.len() > 0 && b.len() > 0 && a[0] == b[0] {
        lemma_lt_total(a.drop_first(), b.drop_first());
        if a.drop_first() == b.drop_first() {
            assert(a =~= seq![a[0]] + a.drop_first());
            assert(b =~= seq![b[0]] + b.drop_first());
        }
    } else if a.len() == 0 && b.len() == 0 {
        assert(a =~= b);
    } else if a.len() > 0 && b.len() > 0 {
        let (x, y) = (a[0], b[0]);
        char_u32_cast(x, x as u32);
        char_u32_cast(y, y as u32);
        assert((x as u32) != (y as u32));
    }
}

} // verus!

//! Regular expressions, compiled and run by `fancy_regex`.
//!
//! What a pattern matches is not restated here: `regex_valid` and `regex_find`
//! name what the outside crate computes, and the rules are verified for every
//! value of them.

use vstd::prelude::*;
use crate::text;
use crate::document::{self, char_index};

verus! {

#[verifier::external_type_specification]
#[verifier::external_body]
pub struct ExRegex(fancy_regex::Regex);

/// Whether `fancy_regex::Regex::new` accepts `pattern`.
pub uninterp spec fn regex_valid(pattern: Seq<char>) -> bool;

/// The first match of `pattern` in `text` at or after byte `from`, as byte
/// offsets (start, end); `None` where there is none or the search fails.
pub uninterp spec fn regex_find(pattern: Seq<char>, text: Seq<char>, from: usize) -> Option<(usize, usize)>;

/// The first match of `pattern` in `text` at or after byte `from`, with the
/// span of capture group `group` where that group took part.
pub uninterp spec fn regex_capture(pattern: Seq<char>, text: Seq<char>, from: usize, group: usize) -> Option<
    ((usize, usize), Option<(usize, usize)>),
>;

/// A char with a meaning in a pattern.
pub open spec fn is_special(c: char) -> bool {
    c == '\\' || c == '.' || c == '+' || c == '*' || c == '?' || c == '(' || c == ')' || c == '|' || c == '['
        || c == ']' || c == '{' || c == '}' || c == '^' || c == '$' || c == '#'
}

/// How a char is written in a quoted pattern.
pub open spec fn quote_char(c: char) -> Seq<char> {
    if c == '\\' {
        seq!['\\', '\\']
    } else if c == '\n' {
        seq!['\\', 'n']
    } else if c == '\t' {
        seq!['\\', 't']
    } else if c == '\r' {
        seq!['\\', 'r']
    } else if is_special(c) {
        seq!['\\', c]
    } else {
        seq![c]
    }
}

/// `s` with each char quoted (see `quote_char`).
pub open spec fn quoted(s: Seq<char>) -> Seq<char>
    decreases s.len(),
{
    if s.len() == 0 {
        seq![]
    } else {
        quoted(s.drop_last()) + quote_char(s.last())
    }
}

/// A pattern that matches `text` literally: `text` itself where it holds no
/// special char, else `text` quoted.
pub open spec fn regex_escaped(text: Seq<char>) -> Seq<char> {
    if exists|i: int| 0 <= i < text.len() && is_special(#[trigger] text[i]) {
        quoted(text)
    } else {
        text
    }
}

/// A compiled pattern; its view is the pattern's source text.
pub struct Pattern {
    re: fancy_regex::Regex,
    source: String,
}

impl View for Pattern {
    type V = Seq<char>;

    closed spec fn view(&self) -> Seq<char> {
        self.source@
    }
}

/// Compiles `src` with `fancy_regex::Regex::new`; `None` where the crate
/// refuses it.
#[verifier::external_body]
pub(crate) fn compile(src: &str) -> (r: Option<Pattern>)
    ensures
        r is Some <==> regex_valid(src@),
        r matches Some(p) ==> p@ == src@,
{
    match fancy_regex::Regex::new(src) {
        Ok(re) => Some(Pattern { re, source: src.to_string() }),
        Err(_) => None,
    }
}

/// `fancy_regex::escape`: a pattern that matches `text` literally (see
/// `regex_escaped`).
#[verifier::external_body]
pub(crate) fn escape(text: &str) -> (r: String)
    ensures
        r@ == regex_escaped(text@),
{
    fancy_regex::escape(text).into_owned()
}

/// `fancy_regex::Regex::find_from_pos` from a char boundary `from`: the first
/// match at or after it, with an error of the search read as no match. A match starts at or
/// after `from`, and both its ends fall between chars of `text`.
#[verifier::external_body]
pub(crate) fn find_from(p: &Pattern, text: &str, from: usize) -> (r: Option<(usize, usize)>)
    requires
        from <= text::byte_len(text@),
        text::is_boundary(text@, from as int),
    ensures
        r == regex_find(p@, text@, from),
        r matches Some((s, e)) ==> from <= s <= e <= text::byte_len(text@) && text::is_boundary(
            text@,
            s as int,
        ) && text::is_boundary(text@, e as int),
{
    match p.re.find_from_pos(text, from) {
        Ok(Some(m)) => Some((m.start(), m.end())),
        _ => None,
    }
}

/// `fancy_regex::Regex::captures_from_pos` from a char boundary `from`: the
/// first match at or after it and the span of capture group `group`, with an error of the search
/// read as no match. The spans lie between chars of `text`, the match at or
/// after `from`.
#[verifier::external_body]
pub(crate) fn capture_from(p: &Pattern, text: &str, from: usize, group: usize) -> (r: Option<((usize, usize), Option<(usize, usize)>)>)
    requires
        from <= text::byte_len(text@),
        text::is_boundary(text@, from as int),
    ensures
        r == regex_capture(p@, text@, from, group),
        r matches Some(c) ==> sound_capture(text@, from as int, c),
{
    match p.re.captures_from_pos(text, from) {
        Ok(Some(c)) => {
            let m = c.get(0).map(|x| (x.start(), x.end()));
            let g = c.get(group).map(|x| (x.start(), x.end()));
            match m {
                Some(m) => Some((m, g)),
                None => None,
            }
        },
        _ => None,
    }
}

/// The first char boundary of `text` after byte `b`; one past `b` at the end.
pub open spec fn next_boundary(text: Seq<char>, b: int) -> int {
    if b < text::byte_len(text) {
        text::byte_pos(text, char_index(text, b) + 1) as int
    } else {
        b + 1
    }
}

/// Where the search resumes after the match `(s, e)`: at its end, or at the
/// next char after an empty one.
pub open spec fn resume(text: Seq<char>, s: usize, e: usize) -> int {
    if e > s {
        e as int
    } else {
        next_boundary(text, s as int)
    }
}

/// A match that `find_from` may hand back for a search from `from`.
pub open spec fn sound_match(text: Seq<char>, from: int, m: (usize, usize)) -> bool {
    from <= m.0 <= m.1 <= text::byte_len(text) && text::is_boundary(text, m.0 as int)
        && text::is_boundary(text, m.1 as int)
}

/// The successive matches of `pattern` in `text` from char boundary `from`
/// on: each search resumes at the end of the last match, or at the next char
/// after an empty one.
pub open spec fn matches_from(pattern: Seq<char>, text: Seq<char>, from: int) -> Seq<(usize, usize)>
    decreases text::byte_len(text) + 1 - from,
{
    if from < 0 || from > text::byte_len(text) || !text::is_boundary(text, from) {
        seq![]
    } else {
        match regex_find(pattern, text, from as usize) {
            Some(m) => if sound_match(text, from, m) && from < resume(text, m.0, m.1) <= text::byte_len(text) + 1 {
                seq![m] + matches_from(pattern, text, resume(text, m.0, m.1))
            } else {
                seq![]
            },
            None => seq![],
        }
    }
}

/// All matches of `pattern` in `text`; none where the pattern does not compile.
pub open spec fn all_matches(pattern: Seq<char>, text: Seq<char>) -> Seq<(usize, usize)> {
    if regex_valid(pattern) {
        matches_from(pattern, text, 0)
    } else {
        seq![]
    }
}

/// Each match of `matches_from` lies between chars of `text`.
pub proof fn lemma_matches_sound(pattern: Seq<char>, text: Seq<char>, from: int)
    ensures
        forall|j: int|
            0 <= j < matches_from(pattern, text, from).len() ==> sound_match(
                text,
                0,
                #[trigger] matches_from(pattern, text, from)[j],
            ),
    decreases text::byte_len(text) + 1 - from,
{
    if from < 0 || from > text::byte_len(text) || !text::is_boundary(text, from) {
    } else {
        match regex_find(pattern, text, from as usize) {
            Some(m) => if sound_match(text, from, m) && from < resume(text, m.0, m.1) <= text::byte_len(text) + 1 {
                lemma_matches_sound(pattern, text, resume(text, m.0, m.1));
                let rest = matches_from(pattern, text, resume(text, m.0, m.1));
                assert(matches_from(pattern, text, from) == seq![m] + rest);
                assert forall|j: int| 0 <= j < matches_from(pattern, text, from).len() implies sound_match(
                    text,
                    0,
                    #[trigger] matches_from(pattern, text, from)[j],
                ) by {
                    if j > 0 {
                        assert(matches_from(pattern, text, from)[j] == rest[j - 1]);
                    }
                }
            },
            None => {},
        }
    }
}

/// A capture that `capture_from` may hand back for a search from `from`: the
/// match starts at or after `from`; the group (which a lookbehind may put
/// before it) lies between chars of `text`.
pub open spec fn sound_capture(text: Seq<char>, from: int, c: ((usize, usize), Option<(usize, usize)>)) -> bool {
    sound_match(text, from, c.0) && (c.1 matches Some(g) ==> sound_match(text, 0, g))
}

/// Where a capture search resumes after the capture `c` found from `from`:
/// at the next char after the start of group 1, or after `from` where that
/// is further on.
pub open spec fn capture_resume(text: Seq<char>, from: int, c: ((usize, usize), Option<(usize, usize)>)) -> int {
    match c.1 {
        Some(g) => if g.0 > from {
            next_boundary(text, g.0 as int)
        } else {
            next_boundary(text, from)
        },
        None => next_boundary(text, from),
    }
}

/// The successive captures of `pattern` in `text` from byte `from` on, each
/// with the span of group 1.
pub open spec fn captures_from(pattern: Seq<char>, text: Seq<char>, from: int) -> Seq<
    ((usize, usize), Option<(usize, usize)>),
>
    decreases text::byte_len(text) + 1 - from,
{
    if from < 0 || from > text::byte_len(text) || !text::is_boundary(text, from) {
        seq![]
    } else {
        match regex_capture(pattern, text, from as usize, 1) {
            Some(c) => if sound_capture(text, from, c) && from < capture_resume(text, from, c) <= text::byte_len(text) + 1 {
                seq![c] + captures_from(pattern, text, capture_resume(text, from, c))
            } else {
                seq![]
            },
            None => seq![],
        }
    }
}

/// All captures of `pattern` in `text`; none where the pattern does not compile.
pub open spec fn all_captures(pattern: Seq<char>, text: Seq<char>) -> Seq<((usize, usize), Option<(usize, usize)>)> {
    if regex_valid(pattern) {
        captures_from(pattern, text, 0)
    } else {
        seq![]
    }
}

pub proof fn lemma_captures_sound(pattern: Seq<char>, text: Seq<char>, from: int)
    ensures
        forall|j: int|
            0 <= j < captures_from(pattern, text, from).len() ==> sound_capture(
                text,
                0,
                #[trigger] captures_from(pattern, text, from)[j],
            ),
    decreases text::byte_len(text) + 1 - from,
{
    if from < 0 || from > text::byte_len(text) || !text::is_boundary(text, from) {
    } else {
        match regex_capture(pattern, text, from as usize, 1) {
            Some(c) => if sound_capture(text, from, c) && from < capture_resume(text, from, c) <= text::byte_len(text) + 1 {
                lemma_captures_sound(pattern, text, capture_resume(text, from, c));
                let rest = captures_from(pattern, text, capture_resume(text, from, c));
                assert(captures_from(pattern, text, from) == seq![c] + rest);
                assert forall|j: int| 0 <= j < captures_from(pattern, text, from).len() implies sound_capture(
                    text,
                    0,
                    #[trigger] captures_from(pattern, text, from)[j],
                ) by {
                    if j > 0 {
                        assert(captures_from(pattern, text, from)[j] == rest[j - 1]);
                    }
                }
            },
            None => {},
        }
    }
}

/// The first capture of `src` in `text` with the span of group `group`; none
/// where `src` does not compile.
pub open spec fn first_capture(pattern: Seq<char>, text: Seq<char>, group: usize) -> Option<
    ((usize, usize), Option<(usize, usize)>),
> {
    if regex_valid(pattern) {
        regex_capture(pattern, text, 0, group)
    } else {
        None
    }
}

pub fn first_capture_of(src: &str, text: &str, group: usize) -> (r: Option<((usize, usize), Option<(usize, usize)>)>)
    ensures
        r == first_capture(src@, text@, group),
        r matches Some(c) ==> sound_capture(text@, 0, c),
{
    match compile(src) {
        Some(p) => {
            proof {
                text::lemma_byte_pos_zero(text@);
            }
            capture_from(&p, text, 0, group)
        },
        None => None,
    }
}

/// The first match of `src` in `text`; none where `src` does not compile.
pub open spec fn first_match(pattern: Seq<char>, text: Seq<char>) -> Option<(usize, usize)> {
    if regex_valid(pattern) {
        regex_find(pattern, text, 0)
    } else {
        None
    }
}

pub fn first_match_of(src: &str, text: &str) -> (r: Option<(usize, usize)>)
    ensures
        r == first_match(src@, text@),
        r matches Some(m) ==> sound_match(text@, 0, m),
{
    match compile(src) {
        Some(p) => {
            proof {
                text::lemma_byte_pos_zero(text@);
            }
            find_from(&p, text, 0)
        },
        None => None,
    }
}

proof fn lemma_next_boundary(text: Seq<char>, b: int)
    requires
        text::is_boundary(text, b),
    ensures
        next_boundary(text, b) > b,
        b < text::byte_len(text) ==> text::is_boundary(text, next_boundary(text, b))
            && next_boundary(text, b) <= text::byte_len(text),
{
    document::lemma_char_index(text, b);
    let k = char_index(text, b);
    if b < text::byte_len(text) {
        if k == text.len() {
            text::lemma_byte_pos_full(text);
        }
        text::lemma_byte_pos_step(text, k);
        text::lemma_byte_pos_mono(text, k + 1, text.len() as int);
        text::lemma_byte_pos_full(text);
        assert(0 <= k + 1 <= text.len() && text::byte_pos(text, k + 1) == next_boundary(text, b));
    }
}

/// The first char boundary after byte `b` of the text whose char offsets are `offs`.
fn next_boundary_exec(text: &str, offs: &Vec<usize>, b: usize) -> (r: usize)
    requires
        offs@.len() == text@.len() + 1,
        forall|i: int| 0 <= i <= text@.len() ==> #[trigger] offs@[i] == text::byte_pos(text@, i),
        text::is_boundary(text@, b as int),
        b < text::byte_len(text@),
    ensures
        r == next_boundary(text@, b as int),
{
    proof {
        assert forall|i: int, j: int| 0 <= i < j < offs@.len() implies offs@[i] < offs@[j] by {
            text::lemma_byte_pos_mono(text@, i, j);
        }
        document::lemma_char_index(text@, b as int);
        lemma_next_boundary(text@, b as int);
    }
    match text::char_index_at(offs, b) {
        Some(k) => {
            proof {
                text::lemma_byte_pos_injective(text@, k as int, char_index(text@, b as int));
                if k as int == text@.len() {
                    text::lemma_byte_pos_full(text@);
                }
                assert(k < text@.len());
            }
            let n = offs.len();
            assert(k < n - 1);
            offs[k + 1]
        },
        None => {
            proof {
                let k = char_index(text@, b as int);
                assert(offs@[k] == b);
            }
            0
        },
    }
}

/// The successive captures of `src` in `text`; none where `src` does not compile.
pub fn captures_of(src: &str, text: &str) -> (r: Vec<((usize, usize), Option<(usize, usize)>)>)
    ensures
        r@ == all_captures(src@, text@),
        forall|j: int| 0 <= j < r@.len() ==> sound_capture(text@, 0, #[trigger] r@[j]),
{
    let p = match compile(src) {
        Some(p) => p,
        None => {
            return Vec::new();
        },
    };
    let (_chars, offs) = text::char_table(text);
    let len = text::str_byte_len(text);
    let mut out: Vec<((usize, usize), Option<(usize, usize)>)> = Vec::new();
    let mut from: usize = 0;
    proof {
        lemma_captures_sound(p@, text@, 0);
        text::lemma_byte_pos_zero(text@);
    }
    loop
        invariant_except_break
            out@ + captures_from(p@, text@, from as int) == captures_from(p@, text@, 0),
        invariant
            p@ == src@,
            regex_valid(src@),
            len == text::byte_len(text@),
            offs@.len() == text@.len() + 1,
            forall|i: int| 0 <= i <= text@.len() ==> #[trigger] offs@[i] == text::byte_pos(text@, i),
            from <= len,
            text::is_boundary(text@, from as int),
        ensures
            out@ == captures_from(p@, text@, 0),
        decreases len + 1 - from,
    {
        match capture_from(&p, text, from, 1) {
            Some(c) => {
                let base = match c.1 {
                    Some(g) => if g.0 > from {
                        g.0
                    } else {
                        from
                    },
                    None => from,
                };
                proof {
                    lemma_next_boundary(text@, base as int);
                }
                let ghost rest = captures_from(p@, text@, capture_resume(text@, from as int, c));
                assert(captures_from(p@, text@, from as int) == seq![c] + rest);
                out.push(c);
                assert(out@ + rest =~= captures_from(p@, text@, 0));
                if base >= len {
                    assert(rest =~= seq![]);
                    assert(out@ =~= out@ + rest);
                    break;
                }
                from = next_boundary_exec(text, &offs, base);
            },
            None => {
                assert(captures_from(p@, text@, from as int) =~= seq![]);
                assert(out@ =~= out@ + captures_from(p@, text@, from as int));
                break;
            },
        }
    }
    out
}

/// The successive matches of `p` in `text`.
pub fn find_all(p: &Pattern, text: &str) -> (r: Vec<(usize, usize)>)
    ensures
        r@ == matches_from(p@, text@, 0),
        forall|j: int| 0 <= j < r@.len() ==> sound_match(text@, 0, #[trigger] r@[j]),
{
    let (_chars, offs) = text::char_table(text);
    let len = text::str_byte_len(text);
    let mut out: Vec<(usize, usize)> = Vec::new();
    let mut from: usize = 0;
    proof {
        lemma_matches_sound(p@, text@, 0);
        text::lemma_byte_pos_zero(text@);
    }
    loop
        invariant_except_break
            out@ + matches_from(p@, text@, from as int) == matches_from(p@, text@, 0),
        invariant
            len == text::byte_len(text@),
            offs@.len() == text@.len() + 1,
            forall|i: int| 0 <= i <= text@.len() ==> #[trigger] offs@[i] == text::byte_pos(text@, i),
            from <= len,
            text::is_boundary(text@, from as int),
        ensures
            out@ == matches_from(p@, text@, 0),
        decreases len + 1 - from,
    {
        match find_from(p, text, from) {
            Some((s, e)) => {
                let ghost m = (s, e);
                proof {
                    lemma_next_boundary(text@, s as int);
                }
                let ghost rest = matches_from(p@, text@, resume(text@, s, e));
                assert(matches_from(p@, text@, from as int) == seq![m] + rest);
                out.push((s, e));
                assert(out@ + rest =~= matches_from(p@, text@, 0));
                if e > s {
                    from = e;
                } else if s < len {
                    from = next_boundary_exec(text, &offs, s);
                } else {
                    assert(rest =~= seq![]);
                    assert(out@ =~= out@ + rest);
                    break;
                }
            },
            None => {
                assert(matches_from(p@, text@, from as int) =~= seq![]);
                assert(out@ =~= out@ + matches_from(p@, text@, from as int));
                break;
            },
        }
    }
    out
}

/// All matches of `src` in `text`; none where `src` does not compile.
pub fn matches_of(src: &str, text: &str) -> (r: Vec<(usize, usize)>)
    ensures
        r@ == all_matches(src@, text@),
        forall|j: int| 0 <= j < r@.len() ==> sound_match(text@, 0, #[trigger] r@[j]),
{
    match compile(src) {
        Some(p) => find_all(&p, text),
        None => Vec::new(),
    }
}

} // verus!

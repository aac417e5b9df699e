//! preset-ja-technical-writing/no-invalid-control-character
//!
//! Reports control characters (other than tab, line feed and carriage
//! return) and bidirectional embedding or override characters in running
//! text, naming each one, with a fix that deletes it.

use vstd::prelude::*;
use crate::document::{self, Document, DocumentView, SegmentView};
use crate::regex;
use crate::rule::{self, Fix, FixView, Issue, IssueView, Rule, Severity};
use crate::rules::{self as rules, is_str_bearing, SegmentRule};
use crate::text;

verus! {

pub open spec fn rule_id() -> Seq<char> {
    "no-invalid-control-character"@
}

/// The pattern of the characters the rule reports.
pub open spec fn pattern() -> Seq<char> {
    "([\\x00-\\x08\\x0B\\x0C\\x0E-\\x1F\\x7F\\u{0080}-\\u{009F}\\u{202A}-\\u{202E}])"@
}

/// The Unicode name of a reported character; empty for those the table lacks.
pub open spec fn name_spec(c: u32) -> Seq<char> {
    match c {
        0x0u32 => "NULL"@,
        0x1u32 => "START OF HEADING"@,
        0x2u32 => "START OF TEXT"@,
        0x3u32 => "END OF TEXT"@,
        0x4u32 => "END OF TRANSMISSION"@,
        0x5u32 => "ENQUIRY"@,
        0x6u32 => "ACKNOWLEDGE"@,
        0x7u32 => "BELL"@,
        0x8u32 => "BACKSPACE"@,
        0xBu32 => "LINE TABULATION"@,
        0xCu32 => "FORM FEED"@,
        0xEu32 => "SHIFT OUT"@,
        0xFu32 => "SHIFT IN"@,
        0x10u32 => "DATA LINK ESCAPE"@,
        0x11u32 => "DEVICE CONTROL ONE"@,
        0x12u32 => "DEVICE CONTROL TWO"@,
        0x13u32 => "DEVICE CONTROL THREE"@,
        0x14u32 => "DEVICE CONTROL FOUR"@,
        0x15u32 => "NEGATIVE ACKNOWLEDGE"@,
        0x16u32 => "SYNCHRONOUS IDLE"@,
        0x17u32 => "END OF TRANSMISSION BLOCK"@,
        0x18u32 => "CANCEL"@,
        0x19u32 => "END OF MEDIUM"@,
        0x1Au32 => "SUBSTITUTE"@,
        0x1Bu32 => "ESCAPE"@,
        0x1Cu32 => "INFORMATION SEPARATOR FOUR"@,
        0x1Du32 => "INFORMATION SEPARATOR THREE"@,
        0x1Eu32 => "INFORMATION SEPARATOR TWO"@,
        0x1Fu32 => "INFORMATION SEPARATOR ONE"@,
        0x7Fu32 => "DELETE"@,
        0x202Au32 => "LEFT-TO-RIGHT EMBEDDING"@,
        0x202Bu32 => "RIGHT-TO-LEFT EMBEDDING"@,
        0x202Cu32 => "POP DIRECTIONAL FORMATTING"@,
        0x202Du32 => "LEFT-TO-RIGHT OVERRIDE"@,
        0x202Eu32 => "RIGHT-TO-LEFT OVERRIDE"@,
        _ => ""@,
    }
}

pub fn name_of(c: char) -> (r: &'static str)
    ensures
        r@ == name_spec(c as u32),
{
    match c as u32 {
        0x0u32 => "NULL",
        0x1u32 => "START OF HEADING",
        0x2u32 => "START OF TEXT",
        0x3u32 => "END OF TEXT",
        0x4u32 => "END OF TRANSMISSION",
        0x5u32 => "ENQUIRY",
        0x6u32 => "ACKNOWLEDGE",
        0x7u32 => "BELL",
        0x8u32 => "BACKSPACE",
        0xBu32 => "LINE TABULATION",
        0xCu32 => "FORM FEED",
        0xEu32 => "SHIFT OUT",
        0xFu32 => "SHIFT IN",
        0x10u32 => "DATA LINK ESCAPE",
        0x11u32 => "DEVICE CONTROL ONE",
        0x12u32 => "DEVICE CONTROL TWO",
        0x13u32 => "DEVICE CONTROL THREE",
        0x14u32 => "DEVICE CONTROL FOUR",
        0x15u32 => "NEGATIVE ACKNOWLEDGE",
        0x16u32 => "SYNCHRONOUS IDLE",
        0x17u32 => "END OF TRANSMISSION BLOCK",
        0x18u32 => "CANCEL",
        0x19u32 => "END OF MEDIUM",
        0x1Au32 => "SUBSTITUTE",
        0x1Bu32 => "ESCAPE",
        0x1Cu32 => "INFORMATION SEPARATOR FOUR",
        0x1Du32 => "INFORMATION SEPARATOR THREE",
        0x1Eu32 => "INFORMATION SEPARATOR TWO",
        0x1Fu32 => "INFORMATION SEPARATOR ONE",
        0x7Fu32 => "DELETE",
        0x202Au32 => "LEFT-TO-RIGHT EMBEDDING",
        0x202Bu32 => "RIGHT-TO-LEFT EMBEDDING",
        0x202Cu32 => "POP DIRECTIONAL FORMATTING",
        0x202Du32 => "LEFT-TO-RIGHT OVERRIDE",
        0x202Eu32 => "RIGHT-TO-LEFT OVERRIDE",
        _ => "",
    }
}

/// The lowercase hexadecimal digit of `d`.
pub open spec fn hex_digit(d: nat) -> char {
    if d < 10 {
        ((d + 48) as u8) as char
    } else {
        ((d + 87) as u8) as char
    }
}

/// The lowercase hexadecimal digits of `n`, without leading zeros.
pub open spec fn hex(n: nat) -> Seq<char>
    decreases n,
{
    if n < 16 {
        seq![hex_digit(n)]
    } else {
        hex(n / 16).push(hex_digit(n % 16))
    }
}

/// `\u` and at least four lowercase hexadecimal digits of `c`.
pub open spec fn escape_spec(c: char) -> Seq<char> {
    "\\u"@ + text::zero_pad(hex(c as u32 as nat), 4)
}

pub open spec fn message(c: char) -> Seq<char> {
    "Found invalid control character("@ + name_spec(c as u32) + " "@ + escape_spec(c) + ")"@
}

fn hex_digits(n: u32) -> (r: Vec<char>)
    ensures
        r@ == hex(n as nat),
    decreases n,
{
    let d = n % 16;
    let c: char = if d < 10 {
        ((d as u8) + 48) as char
    } else {
        ((d as u8) + 87) as char
    };
    if n < 16 {
        vec![c]
    } else {
        let mut v = hex_digits(n / 16);
        v.push(c);
        v
    }
}

/// `\u` and at least four lowercase hexadecimal digits of `c`.
pub fn unicode_escape(c: char) -> (r: String)
    ensures
        r@ == escape_spec(c),
{
    let digits = hex_digits(c as u32);
    let mut r = String::new();
    text::push_str(&mut r, "\\u");
    let ghost r0 = r@;
    let mut k: usize = digits.len();
    let ghost pad = if digits@.len() < 4 { (4 - digits@.len()) as nat } else { 0nat };
    let mut z: usize = 0;
    while k < 4
        invariant
            digits@ == hex(c as u32 as nat),
            pad == (if digits@.len() < 4 { (4 - digits@.len()) as nat } else { 0nat }),
            k == digits@.len() + z,
            z <= pad,
            k <= 4 || z == 0,
            r@ == r0 + Seq::new(z as nat, |i: int| '0'),
        decreases 4 - k,
    {
        text::push_char(&mut r, '0');
        assert(Seq::new(z as nat + 1, |i: int| '0') =~= Seq::new(z as nat, |i: int| '0').push('0'));
        z += 1;
        k += 1;
    }
    assert(z == pad);
    text::push_chars(&mut r, &digits, 0, digits.len());
    assert(digits@.subrange(0, digits@.len() as int) =~= digits@);
    proof {
        reveal_strlit("\\u");
        if digits@.len() < 4 {
            assert(r@ =~= "\\u"@ + (Seq::new(pad, |i: int| '0') + digits@));
        } else {
            assert(Seq::new(0, |i: int| '0') =~= Seq::<char>::empty());
            assert(r@ =~= "\\u"@ + digits@);
        }
    }
    r
}

/// The issue for match `m` in segment `seg`, with a fix that deletes the
/// character; none for an empty match.
pub open spec fn match_issue(doc: DocumentView, seg: SegmentView, m: (usize, usize)) -> Seq<IssueView> {
    if m.0 < m.1 {
        let c = seg.text[document::char_index(seg.text, m.0 as int)];
        seq![
            IssueView {
                fix: Some(
                    FixView {
                        start: (seg.start_byte + m.0) as usize,
                        end: (seg.start_byte + m.1) as usize,
                        replacement: seq![],
                    },
                ),
                ..rule::issue_spec(rule_id(), message(c), document::seg_pos(doc, seg, m.0 as int), Severity::Error)
            },
        ]
    } else {
        seq![]
    }
}

pub open spec fn segment_issues(doc: DocumentView, seg: SegmentView) -> Seq<IssueView> {
    if rules::str_bearing(seg.kind) {
        let ms = regex::all_matches(pattern(), seg.text);
        rules::per_index(ms.len(), |j: int| match_issue(doc, seg, ms[j]))
    } else {
        seq![]
    }
}

pub struct NoInvalidControlCharacter;

impl SegmentRule for NoInvalidControlCharacter {
    open spec fn segment_spec(&self, doc: DocumentView, seg: SegmentView) -> Seq<IssueView> {
        segment_issues(doc, seg)
    }

    fn check_segment(&self, doc: &Document, i: usize, out: &mut Vec<Issue>) {
        let seg = doc.segment(i);
        let ghost sv = seg@;
        let ghost d = doc@;
        proof {
            doc.lemma_wf();
        }
        if !is_str_bearing(seg.kind) {
            assert(rule::issues_view(out@) =~= rule::issues_view(old(out)@) + seq![]);
            return;
        }
        let (chars, offs) = text::char_table(seg.text.as_str());
        let ms = regex::matches_of("([\\x00-\\x08\\x0B\\x0C\\x0E-\\x1F\\x7F\\u{0080}-\\u{009F}\\u{202A}-\\u{202E}])", seg.text.as_str());
        let ghost f = |j: int| match_issue(d, sv, ms@[j]);
        let mut j: usize = 0;
        assert(rule::issues_view(out@) =~= rule::issues_view(old(out)@) + rules::per_index(0, f));
        while j < ms.len()
            invariant
                doc.wf(),
                d == doc@,
                document::view_wf(d),
                i < d.segments.len(),
                sv == d.segments[i as int],
                seg@ == sv,
                chars@ == sv.text,
                rules::offsets_of(chars@, offs@),
                ms@ == regex::all_matches(pattern(), sv.text),
                forall|q: int| 0 <= q < ms@.len() ==> regex::sound_match(sv.text, 0, #[trigger] ms@[q]),
                f == (|q: int| match_issue(d, sv, ms@[q])),
                j <= ms@.len(),
                rule::issues_view(out@) == rule::issues_view(old(out)@) + rules::per_index(j as nat, f),
                rule::fixes_fit(d.source, rule::issues_view(out@)),
            decreases ms@.len() - j,
        {
            let (s, e) = ms[j];
            assert(regex::sound_match(sv.text, 0, ms@[j as int]));
            if s < e {
                let k = rules::char_at_byte(&chars, &offs, s);
                if k >= chars.len() {
                    proof {
                        text::lemma_byte_pos_full(chars@);
                    }
                    assert(false);
                }
                let c = chars[k];
                proof {
                    rules::lemma_seg_byte(d, i as int, s as int);
                    rules::lemma_seg_byte(d, i as int, e as int);
                    document::lemma_char_index(sv.text, s as int);
                    document::lemma_char_index(sv.text, e as int);
                    document::lemma_seg_offset(d, i as int, document::char_index(sv.text, s as int));
                    document::lemma_seg_offset(d, i as int, document::char_index(sv.text, e as int));
                }
                let (line, column) = doc.pos_at(seg, s);
                let mut msg = String::new();
                text::push_str(&mut msg, "Found invalid control character(");
                text::push_str(&mut msg, name_of(c));
                text::push_str(&mut msg, " ");
                let esc = unicode_escape(c);
                text::push_str(&mut msg, esc.as_str());
                text::push_str(&mut msg, ")");
                let issue = Issue::new("no-invalid-control-character", msg.as_str(), line, column, Severity::Error)
                    .with_fix(Fix { range: seg.start_byte + s..seg.start_byte + e, replacement: String::new() });
                let ghost prev = out@;
                out.push(issue);
                assert(rule::issues_view(out@) =~= rule::issues_view(prev).push(issue@));
                assert(seq![issue@] =~= f(j as int));
            } else {
                assert(f(j as int) =~= Seq::<IssueView>::empty());
            }
            assert(rule::issues_view(out@) =~= rule::issues_view(old(out)@) + rules::per_index(j as nat + 1, f));
            j += 1;
        }
    }
}

impl Rule for NoInvalidControlCharacter {
    open spec fn spec_id(&self) -> Seq<char> {
        rule_id()
    }

    open spec fn accepts(&self, doc: DocumentView, issues: Seq<IssueView>) -> bool {
        issues == rules::all_segments(self, doc)
    }

    fn id(&self) -> (r: &str) {
        "no-invalid-control-character"
    }

    fn check(&self, doc: &Document) -> (issues: Vec<Issue>) {
        rules::check_segments(self, doc)
    }
}

} // verus!

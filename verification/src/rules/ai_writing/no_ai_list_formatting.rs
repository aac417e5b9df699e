//! preset-ai-writing/no-ai-list-formatting
//!
//! In a list item, outside code, reports bold text followed by a dash, and
//! the first of a set of flashy emoji.

use vstd::prelude::*;
use crate::document::{self, Document, DocumentView, SegmentKind, SegmentView};
use crate::regex;
use crate::rule::{self, Issue, IssueView, Rule, Severity};
use crate::rules::{self as rules, SegmentRule};
use crate::text;

verus! {

pub open spec fn rule_id() -> Seq<char> {
    "@textlint-ja/preset-ai-writing/no-ai-list-formatting"@
}

const RULE_ID: &'static str = "@textlint-ja/preset-ai-writing/no-ai-list-formatting";

/// A list marker, bold text, and a dash (group 2) followed by white space.
pub open spec fn bold_list_pattern() -> Seq<char> {
    "^[\\s]*(?:[-*+]|\\d+[.)])\\s+\\*\\*([^*]+)\\*\\*\\s+([-—–])(?=\\s)"@
}

/// Number of flashy emoji.
pub const EMOJI_COUNT: usize = 32;

/// Flashy emoji `k`.
pub open spec fn flashy_emoji(k: usize) -> Seq<char> {
    match k {
        0 => "✅"@,
        1 => "❌"@,
        2 => "⭐"@,
        3 => "✨"@,
        4 => "💯"@,
        5 => "⚠️"@,
        6 => "❗"@,
        7 => "❓"@,
        8 => "💥"@,
        9 => "🔥"@,
        10 => "⚡"@,
        11 => "💪"@,
        12 => "🚀"@,
        13 => "💡"@,
        14 => "🤔"@,
        15 => "💭"@,
        16 => "🧠"@,
        17 => "🎯"@,
        18 => "📈"@,
        19 => "📊"@,
        20 => "🏆"@,
        21 => "👍"@,
        22 => "👎"@,
        23 => "😊"@,
        24 => "😎"@,
        25 => "🎉"@,
        26 => "🌟"@,
        27 => "📝"@,
        28 => "📋"@,
        29 => "✏️"@,
        30 => "🖊️"@,
        31 => "💼"@,
        _ => ""@,
    }
}

fn flashy_emoji_exec(k: usize) -> (r: &'static str)
    ensures
        r@ == flashy_emoji(k),
{
    match k {
        0 => "✅",
        1 => "❌",
        2 => "⭐",
        3 => "✨",
        4 => "💯",
        5 => "⚠️",
        6 => "❗",
        7 => "❓",
        8 => "💥",
        9 => "🔥",
        10 => "⚡",
        11 => "💪",
        12 => "🚀",
        13 => "💡",
        14 => "🤔",
        15 => "💭",
        16 => "🧠",
        17 => "🎯",
        18 => "📈",
        19 => "📊",
        20 => "🏆",
        21 => "👍",
        22 => "👎",
        23 => "😊",
        24 => "😎",
        25 => "🎉",
        26 => "🌟",
        27 => "📝",
        28 => "📋",
        29 => "✏️",
        30 => "🖊️",
        31 => "💼",
        _ => "",
    }
}

/// The escaped first `n` emoji, separated by `|`.
pub open spec fn emoji_alternatives(n: nat) -> Seq<char>
    decreases n,
{
    if n == 0 {
        seq![]
    } else if n == 1 {
        regex::regex_escaped(flashy_emoji(0))
    } else {
        emoji_alternatives((n - 1) as nat) + "|"@ + regex::regex_escaped(flashy_emoji((n - 1) as usize))
    }
}

/// One group of all flashy emoji, each escaped.
pub open spec fn flashy_pattern() -> Seq<char> {
    "("@ + emoji_alternatives(EMOJI_COUNT as nat) + ")"@
}

fn flashy_pattern_exec() -> (r: String)
    ensures
        r@ == flashy_pattern(),
{
    let mut alts = String::new();
    let mut k: usize = 0;
    while k < EMOJI_COUNT
        invariant
            k <= EMOJI_COUNT,
            alts@ == emoji_alternatives(k as nat),
        decreases EMOJI_COUNT - k,
    {
        if k > 0 {
            text::push_str(&mut alts, "|");
        }
        let e = regex::escape(flashy_emoji_exec(k));
        text::push_str(&mut alts, e.as_str());
        proof {
            if k == 0 {
                assert(alts@ =~= emoji_alternatives(1));
            } else {
                assert(alts@ =~= emoji_alternatives(k as nat + 1));
            }
        }
        k += 1;
    }
    let mut r = String::new();
    text::push_str(&mut r, "(");
    text::push_str(&mut r, alts.as_str());
    text::push_str(&mut r, ")");
    assert(r@ =~= flashy_pattern());
    r
}

/// The name of a separator.
pub open spec fn sep_name(sep: Seq<char>) -> Seq<char> {
    if sep == "-"@ {
        "ハイフン"@
    } else if sep == "—"@ || sep == "–"@ {
        "ダッシュ"@
    } else {
        "区切り文字"@
    }
}

fn sep_name_exec(sep: &str) -> (r: &'static str)
    ensures
        r@ == sep_name(sep@),
{
    if text::str_eq(sep, "-") {
        "ハイフン"
    } else if text::str_eq(sep, "—") || text::str_eq(sep, "–") {
        "ダッシュ"
    } else {
        "区切り文字"
    }
}

pub open spec fn bold_message(sep: Seq<char>) -> Seq<char> {
    "リストアイテムで強調（**）と"@ + sep_name(sep) + "（"@ + sep + "）の組み合わせは機械的な印象を与える可能性があります。より自然な表現を検討してください。"@
}

pub open spec fn emoji_message(emoji: Seq<char>) -> Seq<char> {
    "リストアイテムでの絵文字「"@ + emoji + "」の使用は、読み手によっては機械的な印象を与える場合があります。テキストベースの表現も検討してみてください。"@
}

pub open spec fn bold_issues(doc: DocumentView, seg: SegmentView) -> Seq<IssueView> {
    match regex::first_capture(bold_list_pattern(), seg.text, 2) {
        Some(c) => if rules::overlaps_any(seg.code_ranges, c.0.0 as int, c.0.1 as int) {
            seq![]
        } else {
            let sep = match c.1 {
                Some(g) => rules::byte_slice(seg.text, g.0 as int, g.1 as int),
                None => seq![],
            };
            seq![rule::issue_spec(rule_id(), bold_message(sep), document::seg_pos(doc, seg, c.0.0 as int), Severity::Error)]
        },
        None => seq![],
    }
}

pub open spec fn emoji_issues(doc: DocumentView, seg: SegmentView) -> Seq<IssueView> {
    match regex::first_match(flashy_pattern(), seg.text) {
        Some(m) => if rules::overlaps_any(seg.code_ranges, m.0 as int, m.1 as int) {
            seq![]
        } else {
            let emoji = rules::byte_slice(seg.text, m.0 as int, m.1 as int);
            seq![rule::issue_spec(rule_id(), emoji_message(emoji), document::seg_pos(doc, seg, m.0 as int), Severity::Error)]
        },
        None => seq![],
    }
}

pub open spec fn segment_issues(doc: DocumentView, seg: SegmentView) -> Seq<IssueView> {
    if seg.kind == SegmentKind::ListItem {
        bold_issues(doc, seg) + emoji_issues(doc, seg)
    } else {
        seq![]
    }
}

pub struct NoAiListFormatting;

impl SegmentRule for NoAiListFormatting {
    open spec fn segment_spec(&self, doc: DocumentView, seg: SegmentView) -> Seq<IssueView> {
        segment_issues(doc, seg)
    }

    fn check_segment(&self, doc: &Document, i: usize, out: &mut Vec<Issue>) {
        let seg = doc.segment(i);
        let ghost sv = seg@;
        let ghost d = doc@;
        proof {
            doc.lemma_wf();
        }
        if seg.kind != SegmentKind::ListItem {
            assert(rule::issues_view(out@) =~= rule::issues_view(old(out)@) + seq![]);
            return;
        }
        let (chars, offs) = text::char_table(seg.text.as_str());
        let ghost o0 = rule::issues_view(out@);
        match regex::first_capture_of("^[\\s]*(?:[-*+]|\\d+[.)])\\s+\\*\\*([^*]+)\\*\\*\\s+([-—–])(?=\\s)", seg.text.as_str(), 2) {
            Some(c) => {
                let (s, e) = c.0;
                if !rules::overlaps_any_exec(&seg.code_ranges, s, e) {
                    proof {
                        rules::lemma_seg_byte(d, i as int, s as int);
                    }
                    let sep = match c.1 {
                        Some(g) => rules::slice_bytes(&chars, &offs, g.0, g.1),
                        None => String::new(),
                    };
                    let (line, column) = doc.pos_at(seg, s);
                    let mut msg = String::new();
                    text::push_str(&mut msg, "リストアイテムで強調（**）と");
                    text::push_str(&mut msg, sep_name_exec(sep.as_str()));
                    text::push_str(&mut msg, "（");
                    text::push_str(&mut msg, sep.as_str());
                    text::push_str(&mut msg, "）の組み合わせは機械的な印象を与える可能性があります。より自然な表現を検討してください。");
                    assert(msg@ =~= bold_message(sep@));
                    let issue = Issue::new(RULE_ID, msg.as_str(), line, column, Severity::Error);
                    out.push(issue);
                }
            },
            None => {},
        }
        assert(rule::issues_view(out@) =~= o0 + bold_issues(d, sv));
        let ghost o1 = rule::issues_view(out@);
        let pat = flashy_pattern_exec();
        match regex::first_match_of(pat.as_str(), seg.text.as_str()) {
            Some(m) => {
                let (s, e) = m;
                if !rules::overlaps_any_exec(&seg.code_ranges, s, e) {
                    proof {
                        rules::lemma_seg_byte(d, i as int, s as int);
                    }
                    let emoji = rules::slice_bytes(&chars, &offs, s, e);
                    let (line, column) = doc.pos_at(seg, s);
                    let mut msg = String::new();
                    text::push_str(&mut msg, "リストアイテムでの絵文字「");
                    text::push_str(&mut msg, emoji.as_str());
                    text::push_str(&mut msg, "」の使用は、読み手によっては機械的な印象を与える場合があります。テキストベースの表現も検討してみてください。");
                    assert(msg@ =~= emoji_message(emoji@));
                    let issue = Issue::new(RULE_ID, msg.as_str(), line, column, Severity::Error);
                    out.push(issue);
                }
            },
            None => {},
        }
        assert(rule::issues_view(out@) =~= o1 + emoji_issues(d, sv));
        assert(rule::issues_view(out@) =~= o0 + segment_issues(d, sv));
    }
}

impl Rule for NoAiListFormatting {
    open spec fn spec_id(&self) -> Seq<char> {
        rule_id()
    }

    open spec fn accepts(&self, doc: DocumentView, issues: Seq<IssueView>) -> bool {
        issues == rules::all_segments(self, doc)
    }

    fn id(&self) -> (r: &str) {
        RULE_ID
    }

    fn check(&self, doc: &Document) -> (issues: Vec<Issue>) {
        rules::check_segments(self, doc)
    }
}

} // verus!

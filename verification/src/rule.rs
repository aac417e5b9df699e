//! Issues reported by rules, their fixes, and the rule interface.

use vstd::prelude::*;
use crate::document::{Document, DocumentView};

verus! {

#[derive(Debug, Clone, Copy, PartialEq, Eq, Structural)]
pub enum Severity {
    Error,
    Warning,
    Info,
}

/// A byte range of the source, end exclusive.
pub type ByteRange = std::ops::Range<usize>;

/// Replace the bytes of `range` with `replacement`.
#[derive(Debug)]
pub struct Fix {
    pub range: ByteRange,
    pub replacement: String,
}

impl Clone for Fix {
    fn clone(&self) -> (r: Fix)
        ensures
            r@ == self@,
    {
        Fix { range: self.range.start..self.range.end, replacement: self.replacement.clone() }
    }
}

pub struct FixView {
    pub start: usize,
    pub end: usize,
    pub replacement: Seq<char>,
}

impl View for Fix {
    type V = FixView;

    open spec fn view(&self) -> FixView {
        FixView { start: self.range.start, end: self.range.end, replacement: self.replacement@ }
    }
}

#[derive(Debug, Clone)]
pub struct Issue {
    pub rule_id: String,
    pub message: String,
    pub line: usize,
    pub column: usize,
    pub severity: Severity,
    pub fix: Option<Fix>,
}

pub struct IssueView {
    pub rule_id: Seq<char>,
    pub message: Seq<char>,
    pub line: usize,
    pub column: usize,
    pub severity: Severity,
    pub fix: Option<FixView>,
}

pub open spec fn fix_view(f: Option<Fix>) -> Option<FixView> {
    match f {
        Some(x) => Some(x@),
        None => None,
    }
}

impl View for Issue {
    type V = IssueView;

    open spec fn view(&self) -> IssueView {
        IssueView {
            rule_id: self.rule_id@,
            message: self.message@,
            line: self.line,
            column: self.column,
            severity: self.severity,
            fix: fix_view(self.fix),
        }
    }
}

pub open spec fn issues_view(s: Seq<Issue>) -> Seq<IssueView> {
    s.map_values(|i: Issue| i@)
}

/// An issue without a fix.
pub open spec fn issue_spec(
    rule_id: Seq<char>,
    message: Seq<char>,
    pos: (usize, usize),
    severity: Severity,
) -> IssueView {
    IssueView { rule_id, message, line: pos.0, column: pos.1, severity, fix: None }
}

impl Issue {
    pub fn new(rule_id: &str, message: &str, line: usize, column: usize, severity: Severity) -> (r:
        Issue)
        ensures
            r@ == issue_spec(rule_id@, message@, (line, column), severity),
    {
        Issue {
            rule_id: rule_id.to_owned(),
            message: message.to_owned(),
            line,
            column,
            severity,
            fix: None,
        }
    }

    pub fn with_fix(self, fix: Fix) -> (r: Issue)
        ensures
            r@ == (IssueView { fix: Some(fix@), ..self@ }),
    {
        let mut s = self;
        s.fix = Some(fix);
        s
    }
}

/// Every fix of `issues` replaces a forward range of `src` between two chars.
pub open spec fn fixes_fit(src: Seq<char>, issues: Seq<IssueView>) -> bool {
    forall|k: int|
        0 <= k < issues.len() ==> (#[trigger] issues[k].fix matches Some(f) ==> crate::fixer::fix_fits(
            src,
            f,
        ))
}

/// A lint rule.
pub trait Rule {
    /// The rule id.
    spec fn spec_id(&self) -> Seq<char>;

    /// Whether `issues` is what the rule reports on `doc`.
    spec fn accepts(&self, doc: DocumentView, issues: Seq<IssueView>) -> bool;

    fn id(&self) -> (r: &str)
        ensures
            r@ == self.spec_id(),
    ;

    fn check(&self, doc: &Document) -> (issues: Vec<Issue>)
        requires
            doc.wf(),
        ensures
            self.accepts(doc@, issues_view(issues@)),
            fixes_fit(doc@.source, issues_view(issues@)),
    ;
}

} // verus!

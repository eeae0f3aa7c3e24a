//! The languages that can be scanned, the severity scale, and the findings
//! that rules report.

use vstd::prelude::*;

verus! {

/// A source language that the scanner recognises.
#[derive(Clone, Copy, Debug, PartialEq, Eq, Structural, Hash)]
pub enum Language {
    JavaScript,
    Python,
    Go,
    Ruby,
    Java,
    Php,
    Rust,
    CSharp,
    Swift,
}

/// How serious a finding is, from `Low` up to `Critical`.
#[derive(Clone, Copy, Debug, PartialEq, Eq, Structural, Hash, PartialOrd, Ord)]
pub enum Severity {
    Low,
    Medium,
    High,
    Critical,
}

/// The position of a severity on the scale, `Low` being 0.
pub open spec fn severity_rank(s: Severity) -> int {
    match s {
        Severity::Low => 0,
        Severity::Medium => 1,
        Severity::High => 2,
        Severity::Critical => 3,
    }
}

impl Severity {
    /// The position of this severity on the scale, `Low` being 0.
    pub fn rank(&self) -> (r: u8)
        ensures
            r == severity_rank(*self),
    {
        match self {
            Severity::Low => 0,
            Severity::Medium => 1,
            Severity::High => 2,
            Severity::Critical => 3,
        }
    }

    /// The name of this severity as a report prints it.
    pub fn label(&self) -> (r: &'static str)
        ensures
            r@ == match *self {
                Severity::Low => "LOW"@,
                Severity::Medium => "MEDIUM"@,
                Severity::High => "HIGH"@,
                Severity::Critical => "CRITICAL"@,
            },
    {
        match self {
            Severity::Low => "LOW",
            Severity::Medium => "MEDIUM",
            Severity::High => "HIGH",
            Severity::Critical => "CRITICAL",
        }
    }

    /// The SARIF level of this severity: critical and high findings are
    /// errors, medium ones warnings, low ones notes.
    pub fn sarif_level(&self) -> (r: &'static str)
        ensures
            r@ == match *self {
                Severity::Low => "note"@,
                Severity::Medium => "warning"@,
                Severity::High | Severity::Critical => "error"@,
            },
    {
        match self {
            Severity::Low => "note",
            Severity::Medium => "warning",
            Severity::High | Severity::Critical => "error",
        }
    }

    /// Whether this severity is at least `min`.
    pub fn at_least(&self, min: Severity) -> (r: bool)
        ensures
            r == (severity_rank(*self) >= severity_rank(min)),
    {
        self.rank() >= min.rank()
    }
}

/// One problem that a rule found in a file.
#[derive(Clone, Debug)]
pub struct Finding {
    pub rule_id: String,
    pub severity: Severity,
    pub cwe: Option<String>,
    pub description: String,
    pub file: String,
    pub line: usize,
    pub column: usize,
    pub end_line: usize,
    pub end_column: usize,
    pub snippet: String,
}

/// A finding with its texts seen as sequences of characters.
pub struct FindingView {
    pub rule_id: Seq<char>,
    pub severity: Severity,
    pub cwe: Option<Seq<char>>,
    pub description: Seq<char>,
    pub file: Seq<char>,
    pub line: usize,
    pub column: usize,
    pub end_line: usize,
    pub end_column: usize,
    pub snippet: Seq<char>,
}

/// The characters of an optional text.
pub open spec fn opt_view(o: Option<String>) -> Option<Seq<char>> {
    match o {
        Some(s) => Some(s@),
        None => None,
    }
}

impl View for Finding {
    type V = FindingView;

    open spec fn view(&self) -> FindingView {
        FindingView {
            rule_id: self.rule_id@,
            severity: self.severity,
            cwe: opt_view(self.cwe),
            description: self.description@,
            file: self.file@,
            line: self.line,
            column: self.column,
            end_line: self.end_line,
            end_column: self.end_column,
            snippet: self.snippet@,
        }
    }
}

/// The views of a sequence of findings.
pub open spec fn findings_view(fs: Seq<Finding>) -> Seq<FindingView> {
    fs.map_values(|f: Finding| f@)
}

} // verus!

//! Diagnostics for one document: the two frontmatter error cases, and the
//! mapping of validation issues onto field-key ranges.

use vstd::prelude::*;

use crate::chartext::chars_vec;
use crate::lines::lines_spec;
use crate::protocol::{Position, Range};
use crate::refs::opt_view;
use crate::text::{find_field_range, find_field_range_spec, fm_bounds_spec};

verus! {

/// How severe an issue is.
#[derive(Debug, Clone, Copy, PartialEq, Eq, Structural)]
pub enum Severity {
    Error,
    Warning,
    Information,
}

/// One validation issue, as the collection's validator reports it. A
/// missing code or message is handed in as `unknown` / `Validation issue`
/// by the caller; `path` carries the first non-empty of the issue's path
/// keys.
#[derive(Debug)]
pub struct Issue {
    pub code: String,
    pub message: String,
    pub severity: String,
    pub field: Option<String>,
    pub path: Option<String>,
}

/// One diagnostic handed to the editor.
#[derive(Debug)]
pub struct Diagnostic {
    pub range: Range,
    pub severity: Severity,
    pub code: String,
    pub source: String,
    pub message: String,
}

/// The severity an issue's tag names: `warning`, `info`, or an error.
pub open spec fn severity_spec(s: Seq<char>) -> Severity {
    if s == "warning"@ {
        Severity::Warning
    } else if s == "info"@ {
        Severity::Information
    } else {
        Severity::Error
    }
}

/// The model of one diagnostic.
pub struct DiagnosticModel {
    pub start: (int, int),
    pub end: (int, int),
    pub severity: Severity,
    pub code: Seq<char>,
    pub source: Seq<char>,
    pub message: Seq<char>,
}

impl View for Diagnostic {
    type V = DiagnosticModel;

    open spec fn view(&self) -> DiagnosticModel {
        DiagnosticModel {
            start: (self.range.start.line as int, self.range.start.character as int),
            end: (self.range.end.line as int, self.range.end.character as int),
            severity: self.severity,
            code: self.code@,
            source: self.source@,
            message: self.message@,
        }
    }
}

/// The diagnostic one issue produces: its range is the field's key span, or
/// the empty span at the fallback line when the issue names no field.
pub open spec fn diag_of_issue(
    s: Seq<char>,
    fallback: int,
    code: Seq<char>,
    message: Seq<char>,
    severity: Seq<char>,
    field: Option<Seq<char>>,
) -> DiagnosticModel {
    let r = match field {
        Some(f) => find_field_range_spec(s, f, fallback),
        None => ((fallback, 0), (fallback, 0)),
    };
    DiagnosticModel {
        start: r.0,
        end: r.1,
        severity: severity_spec(severity),
        code: code,
        source: "mdbase"@,
        message: message,
    }
}

/// Build the diagnostic for one issue, per `diag_of_issue`.
pub fn diagnostic_from_issue(text: &str, fallback_line: usize, issue: &Issue) -> (r: Diagnostic)
    ensures
        r@ == diag_of_issue(
            text@,
            fallback_line as int,
            issue.code@,
            issue.message@,
            issue.severity@,
            opt_view(issue.field),
        ),
{
    let range: Range = match &issue.field {
        Some(f) => {
            let (start, end) = find_field_range(text, f.as_str(), fallback_line);
            Range { start, end }
        },
        None => Range {
            start: Position { line: fallback_line, character: 0 },
            end: Position { line: fallback_line, character: 0 },
        },
    };
    let sv = chars_vec(issue.severity.as_str());
    proof {
        assert(sv@.subrange(0, sv@.len() as int) =~= sv@);
    }
    let severity: Severity = if crate::chartext::range_eq_str(&sv, 0, sv.len(), "warning") {
        Severity::Warning
    } else if crate::chartext::range_eq_str(&sv, 0, sv.len(), "info") {
        Severity::Information
    } else {
        Severity::Error
    };
    proof {
        reveal_strlit("mdbase");
    }
    Diagnostic {
        range,
        severity,
        code: issue.code.clone(),
        source: mdbase_source(),
        message: issue.message.clone(),
    }
}

/// The constant source tag on every diagnostic.
fn mdbase_source() -> (r: String)
    ensures
        r@ == "mdbase"@,
{
    let v = chars_vec("mdbase");
    crate::chartext::string_range(&v, 0, v.len())
}

/// The models of a diagnostic list.
pub open spec fn diags_view(v: Seq<Diagnostic>) -> Seq<DiagnosticModel> {
    v.map_values(|d: Diagnostic| d@)
}

/// The diagnostics of an issue list, per `diag_of_issue` in order.
pub open spec fn diags_of_issues(s: Seq<char>, fallback: int, issues: Seq<Issue>, i: int) -> Seq<
    DiagnosticModel,
>
    decreases issues.len() - i,
{
    if i < 0 || i >= issues.len() {
        Seq::empty()
    } else {
        seq![
            diag_of_issue(
                s,
                fallback,
                issues[i].code@,
                issues[i].message@,
                issues[i].severity@,
                opt_view(issues[i].field),
            ),
        ] + diags_of_issues(s, fallback, issues, i + 1)
    }
}

/// The fallback line: the frontmatter's first interior line, or 0.
pub open spec fn fallback_line_spec(s: Seq<char>) -> int {
    match fm_bounds_spec(lines_spec(s)) {
        Some((st, _)) => st,
        None => 0,
    }
}

/// Map every issue to a diagnostic, per `diags_of_issues` with the
/// document's fallback line.
pub fn diagnostics_from_issues(text: &str, issues: &Vec<Issue>) -> (r: Vec<Diagnostic>)
    ensures
        diags_view(r@) == diags_of_issues(text@, fallback_line_spec(text@), issues@, 0),
{
    let fallback: usize = match crate::text::frontmatter_bounds(text) {
        Some((st, _)) => st,
        None => 0,
    };
    let mut r: Vec<Diagnostic> = Vec::new();
    proof {
        assert(diags_view(r@) =~= Seq::<DiagnosticModel>::empty());
    }
    let mut i: usize = 0;
    while i < issues.len()
        invariant
            0 <= i <= issues@.len(),
            fallback as int == fallback_line_spec(text@),
            diags_of_issues(text@, fallback as int, issues@, 0) == diags_view(r@)
                + diags_of_issues(text@, fallback as int, issues@, i as int),
        decreases issues@.len() - i,
    {
        let d = diagnostic_from_issue(text, fallback, &issues[i]);
        let ghost prev = r@;
        r.push(d);
        proof {
            assert(diags_view(r@) =~= diags_view(prev).push(d@));
            assert(diags_view(prev) + (seq![d@] + diags_of_issues(
                text@,
                fallback as int,
                issues@,
                i + 1,
            )) =~= diags_view(r@) + diags_of_issues(text@, fallback as int, issues@, i + 1));
        }
        i = i + 1;
    }
    proof {
        assert(diags_of_issues(text@, fallback as int, issues@, i as int)
            =~= Seq::<DiagnosticModel>::empty());
        assert(diags_view(r@) =~= diags_of_issues(text@, fallback as int, issues@, 0));
    }
    r
}

/// The diagnostics of one document: a parse failure or a non-mapping
/// frontmatter give a single error at the top, anything else maps the
/// validator's issues.
pub open spec fn compute_diagnostics_spec(
    s: Seq<char>,
    parse_error: bool,
    mapping_error: bool,
    issues: Seq<Issue>,
) -> Seq<DiagnosticModel> {
    if parse_error {
        seq![
            DiagnosticModel {
                start: (0, 0),
                end: (0, 0),
                severity: Severity::Error,
                code: "invalid_frontmatter"@,
                source: "mdbase"@,
                message: "Failed to parse YAML frontmatter"@,
            },
        ]
    } else if mapping_error {
        seq![
            DiagnosticModel {
                start: (0, 0),
                end: (0, 0),
                severity: Severity::Error,
                code: "invalid_frontmatter"@,
                source: "mdbase"@,
                message: "Frontmatter must be a YAML mapping"@,
            },
        ]
    } else {
        diags_of_issues(s, fallback_line_spec(s), issues, 0)
    }
}

/// Turn a string literal into an owned `String`.
fn owned(s: &str) -> (r: String)
    ensures
        r@ == s@,
{
    let v = chars_vec(s);
    proof {
        assert(v@.subrange(0, v@.len() as int) =~= v@);
    }
    crate::chartext::string_range(&v, 0, v.len())
}

/// Compute a document's diagnostics from its parse state and the
/// validator's issues, per `compute_diagnostics_spec`.
pub fn compute_diagnostics(
    text: &str,
    parse_error: bool,
    mapping_error: bool,
    issues: &Vec<Issue>,
) -> (r: Vec<Diagnostic>)
    ensures
        diags_view(r@) == compute_diagnostics_spec(text@, parse_error, mapping_error, issues@),
{
    if parse_error || mapping_error {
        let message = if parse_error {
            owned("Failed to parse YAML frontmatter")
        } else {
            owned("Frontmatter must be a YAML mapping")
        };
        let d = Diagnostic {
            range: Range {
                start: Position { line: 0, character: 0 },
                end: Position { line: 0, character: 0 },
            },
            severity: Severity::Error,
            code: owned("invalid_frontmatter"),
            source: mdbase_source(),
            message,
        };
        let mut r: Vec<Diagnostic> = Vec::new();
        r.push(d);
        proof {
            assert(diags_view(r@) =~= seq![d@]);
        }
        r
    } else {
        diagnostics_from_issues(text, issues)
    }
}

} // verus!

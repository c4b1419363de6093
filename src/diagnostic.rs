//! The values that rules produce and the fix engine consumes.
use vstd::prelude::*;

verus! {

#[derive(Debug, Clone, Copy, PartialEq, Eq, Structural)]
pub enum Severity {
    Error,
    Warning,
    Info,
}

/// A replacement of the half-open span from (`start_line`, `start_column`) to
/// (`end_line`, `end_column`) of the original text, all 1-based. Columns count
/// bytes of UTF-8 within the line; a column that falls inside a character
/// makes the fix engine skip the edit.
#[derive(Debug, Clone)]
pub struct Edit {
    pub start_line: usize,
    pub start_column: usize,
    pub end_line: usize,
    pub end_column: usize,
    pub replacement: String,
}

#[derive(Debug, Clone)]
pub struct Fix {
    pub description: String,
    pub edits: Vec<Edit>,
}

/// A finding of a rule at a 1-based (`line`, `column`) of the original text;
/// columns count bytes of UTF-8 within the line.
#[derive(Debug, Clone)]
pub struct Diagnostic {
    pub rule_id: String,
    pub severity: Severity,
    pub message: String,
    pub line: usize,
    pub column: usize,
    pub end_line: Option<usize>,
    pub end_column: Option<usize>,
    pub fixable: bool,
    pub fix: Option<Fix>,
}

pub struct EditView {
    pub start_line: usize,
    pub start_column: usize,
    pub end_line: usize,
    pub end_column: usize,
    pub replacement: Seq<char>,
}

pub struct FixView {
    pub description: Seq<char>,
    pub edits: Seq<EditView>,
}

pub struct DiagnosticView {
    pub rule_id: Seq<char>,
    pub severity: Severity,
    pub message: Seq<char>,
    pub line: usize,
    pub column: usize,
    pub end_line: Option<usize>,
    pub end_column: Option<usize>,
    pub fixable: bool,
    pub fix: Option<FixView>,
}

impl View for Edit {
    type V = EditView;

    open spec fn view(&self) -> EditView {
        EditView {
            start_line: self.start_line,
            start_column: self.start_column,
            end_line: self.end_line,
            end_column: self.end_column,
            replacement: self.replacement@,
        }
    }
}

pub open spec fn edits_view(s: Seq<Edit>) -> Seq<EditView> {
    s.map_values(|e: Edit| e@)
}

impl View for Fix {
    type V = FixView;

    open spec fn view(&self) -> FixView {
        FixView { description: self.description@, edits: edits_view(self.edits@) }
    }
}

pub open spec fn fix_view(f: Option<Fix>) -> Option<FixView> {
    match f {
        Some(x) => Some(x@),
        None => None,
    }
}

impl View for Diagnostic {
    type V = DiagnosticView;

    open spec fn view(&self) -> DiagnosticView {
        DiagnosticView {
            rule_id: self.rule_id@,
            severity: self.severity,
            message: self.message@,
            line: self.line,
            column: self.column,
            end_line: self.end_line,
            end_column: self.end_column,
            fixable: self.fixable,
            fix: fix_view(self.fix),
        }
    }
}

pub open spec fn diags_view(s: Seq<Diagnostic>) -> Seq<DiagnosticView> {
    s.map_values(|d: Diagnostic| d@)
}

/// A diagnostic at one point, with no end and no fix.
pub open spec fn plain_diag(
    rule_id: Seq<char>,
    severity: Severity,
    message: Seq<char>,
    line: usize,
    column: usize,
) -> DiagnosticView {
    DiagnosticView {
        rule_id,
        severity,
        message,
        line,
        column,
        end_line: None,
        end_column: None,
        fixable: false,
        fix: None,
    }
}

impl Diagnostic {
    pub fn new(rule_id: &str, severity: Severity, message: String, line: usize, column: usize) -> (r:
        Self)
        ensures
            r@ == plain_diag(rule_id@, severity, message@, line, column),
    {
        Diagnostic {
            rule_id: rule_id.to_owned(),
            severity,
            message,
            line,
            column,
            end_line: None,
            end_column: None,
            fixable: false,
            fix: None,
        }
    }

    pub fn with_fix(self, fix: Fix) -> (r: Self)
        ensures
            r@ == (DiagnosticView { fixable: true, fix: Some(fix@), ..self@ }),
    {
        let mut d = self;
        d.fixable = true;
        d.fix = Some(fix);
        d
    }
}

impl Fix {
    pub fn new(description: &str) -> (r: Self)
        ensures
            r@.description == description@,
            r@.edits == Seq::<EditView>::empty(),
    {
        let f = Fix { description: description.to_owned(), edits: Vec::new() };
        assert(f@.edits =~= Seq::<EditView>::empty());
        f
    }

    pub fn add_edit(self, edit: Edit) -> (r: Self)
        ensures
            r@.description == self@.description,
            r@.edits == self@.edits.push(edit@),
    {
        let mut f = self;
        let ghost prev = f.edits@;
        f.edits.push(edit);
        assert(edits_view(f.edits@) =~= edits_view(prev).push(edit@));
        f
    }
}

impl Edit {
    pub fn new(
        start_line: usize,
        start_column: usize,
        end_line: usize,
        end_column: usize,
        replacement: String,
    ) -> (r: Self)
        ensures
            r@ == (EditView {
                start_line,
                start_column,
                end_line,
                end_column,
                replacement: replacement@,
            }),
    {
        Edit { start_line, start_column, end_line, end_column, replacement }
    }
}

} // verus!

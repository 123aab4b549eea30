//! Structured findings of the checks.
use crate::lookup::Dup;
use vstd::prelude::*;

verus! {

#[derive(Clone, Copy, Debug, PartialEq, Eq, Structural)]
pub enum DiagnosticSeverity {
    Error,
    Warning,
    Note,
}

#[derive(Clone, Copy, Debug, PartialEq, Eq, Structural)]
pub enum DiagnosticCode {
    ParseError,
    UnsupportedSyntax,
    UnknownSymbol,
    InvalidType,
    UnsupportedCapability,
    InternalError,
    UnsupportedSchema,
    DuplicateSymbol,
    InvalidParticipation,
    InvalidResource,
    InvalidPipeline,
    InvalidControlFlow,
    InvalidTicket,
    PendingAccess,
}

#[derive(Clone, Debug, Default, PartialEq, Eq)]
pub struct SourceSpan {
    pub file: Option<String>,
    pub start_line: u32,
    pub start_column: u32,
    pub end_line: u32,
    pub end_column: u32,
}

impl Dup for SourceSpan {
    fn dup(&self) -> (r: Self) {
        SourceSpan {
            file: match &self.file {
                Some(f) => Some(f.clone()),
                None => None,
            },
            start_line: self.start_line,
            start_column: self.start_column,
            end_line: self.end_line,
            end_column: self.end_column,
        }
    }
}

#[derive(Clone, Debug, PartialEq, Eq)]
pub struct Diagnostic {
    pub severity: DiagnosticSeverity,
    pub code: DiagnosticCode,
    pub message: String,
    pub source_span: Option<SourceSpan>,
    pub node_id: Option<String>,
    pub related_nodes: Vec<String>,
    pub repair_hint: Option<String>,
}

/// A diagnostic with its text taken by view.
pub struct DiagnosticV {
    pub severity: DiagnosticSeverity,
    pub code: DiagnosticCode,
    pub message: Seq<char>,
    pub source_span: Option<SourceSpan>,
    pub node_id: Option<Seq<char>>,
    pub related_nodes: Seq<Seq<char>>,
    pub repair_hint: Option<Seq<char>>,
}

pub open spec fn text_opt(s: Option<String>) -> Option<Seq<char>> {
    match s {
        Some(t) => Some(t@),
        None => None,
    }
}

impl View for Diagnostic {
    type V = DiagnosticV;

    open spec fn view(&self) -> DiagnosticV {
        DiagnosticV {
            severity: self.severity,
            code: self.code,
            message: self.message@,
            source_span: self.source_span,
            node_id: text_opt(self.node_id),
            related_nodes: self.related_nodes@.map_values(|s: String| s@),
            repair_hint: text_opt(self.repair_hint),
        }
    }
}

/// An error finding with no location, relations or hint.
pub open spec fn plain_error(code: DiagnosticCode, message: Seq<char>) -> DiagnosticV {
    DiagnosticV {
        severity: DiagnosticSeverity::Error,
        code,
        message,
        source_span: None,
        node_id: None,
        related_nodes: seq![],
        repair_hint: None,
    }
}

#[derive(Clone, Debug, Default, PartialEq, Eq)]
pub struct DiagnosticBag {
    pub diagnostics: Vec<Diagnostic>,
}

impl View for DiagnosticBag {
    type V = Seq<DiagnosticV>;

    open spec fn view(&self) -> Seq<DiagnosticV> {
        self.diagnostics@.map_values(|d: Diagnostic| d@)
    }
}

/// Some finding in `s` is an error.
pub open spec fn has_error(s: Seq<DiagnosticV>) -> bool {
    exists|i: int| 0 <= i < s.len() && s[i].severity == DiagnosticSeverity::Error
}

impl DiagnosticBag {
    pub fn new() -> (r: Self)
        ensures
            r@ == Seq::<DiagnosticV>::empty(),
    {
        let r = DiagnosticBag { diagnostics: Vec::new() };
        assert(r@ =~= Seq::<DiagnosticV>::empty());
        r
    }

    pub fn push(&mut self, diagnostic: Diagnostic)
        ensures
            final(self)@ == old(self)@.push(diagnostic@),
    {
        self.diagnostics.push(diagnostic);
        assert(final(self)@ =~= old(self)@.push(diagnostic@));
    }

    pub fn has_errors(&self) -> (r: bool)
        ensures
            r == has_error(self@),
    {
        let mut i: usize = 0;
        while i < self.diagnostics.len()
            invariant
                i <= self.diagnostics@.len(),
                forall|j: int| 0 <= j < i ==> self@[j].severity != DiagnosticSeverity::Error,
            decreases self.diagnostics@.len() - i,
        {
            if self.diagnostics[i].severity == DiagnosticSeverity::Error {
                assert(self@[i as int].severity == DiagnosticSeverity::Error);
                return true;
            }
            i = i + 1;
        }
        false
    }
}

impl Diagnostic {
    pub fn error(code: DiagnosticCode, message: String) -> (r: Self)
        ensures
            r@ == plain_error(code, message@),
    {
        let r = Diagnostic {
            severity: DiagnosticSeverity::Error,
            code,
            message,
            source_span: None,
            node_id: None,
            related_nodes: Vec::new(),
            repair_hint: None,
        };
        assert(r@.related_nodes =~= Seq::<Seq<char>>::empty());
        r
    }
}

} // verus!

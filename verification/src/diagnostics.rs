//! Structured diagnostics: severities, labels, the fluent `Diagnostic`
//! builder, and the `DiagnosticHandler` that collects them.

use vstd::prelude::*;
use crate::source::Span;

verus! {

/// The severity of a diagnostic.
#[derive(Clone, Copy, PartialEq, Eq, Hash, Debug)]
pub enum Severity {
    /// A problem that prevents successful compilation.
    Error,
    /// A potential problem that does not prevent compilation.
    Warning,
    /// Informational context.
    Note,
    /// A suggestion for how to resolve a problem.
    Help,
}

/// The lowercase word for a severity.
pub open spec fn severity_word(s: Severity) -> Seq<char> {
    match s {
        Severity::Error => "error"@,
        Severity::Warning => "warning"@,
        Severity::Note => "note"@,
        Severity::Help => "help"@,
    }
}

impl Severity {
    /// The lowercase word used when rendering this severity (e.g. `"error"`).
    pub fn as_str(self) -> (r: &'static str)
        ensures
            r@ == severity_word(self),
    {
        match self {
            Severity::Error => "error",
            Severity::Warning => "warning",
            Severity::Note => "note",
            Severity::Help => "help",
        }
    }

    /// Whether this severity is [`Severity::Error`].
    pub fn is_error(self) -> (r: bool)
        ensures
            r == (self is Error),
    {
        match self {
            Severity::Error => true,
            _ => false,
        }
    }
}

/// Whether a label marks the primary site of a diagnostic or a secondary one.
#[derive(Clone, Copy, PartialEq, Eq, Hash, Debug)]
pub enum LabelStyle {
    /// The main location the diagnostic is about.
    Primary,
    /// A related location that provides context.
    Secondary,
}

/// A span annotated with an optional message.
#[derive(Clone, Debug)]
pub struct Label {
    /// Whether this is the primary or a secondary label.
    pub style: LabelStyle,
    /// The source region this label points at.
    pub span: Span,
    /// An optional message rendered next to the underline.
    pub message: Option<String>,
}

/// The mathematical content of a [`Label`].
pub struct LabelV {
    pub style: LabelStyle,
    pub span: Span,
    pub message: Option<Seq<char>>,
}

/// The view of an optional string.
pub open spec fn opt_str_view(o: Option<String>) -> Option<Seq<char>> {
    match o {
        Some(s) => Some(s@),
        None => None,
    }
}

impl View for Label {
    type V = LabelV;

    open spec fn view(&self) -> LabelV {
        LabelV { style: self.style, span: self.span, message: opt_str_view(self.message) }
    }
}

impl Label {
    /// A primary label with a message.
    pub fn primary(span: Span, message: &str) -> (r: Label)
        ensures
            r@ == (LabelV { style: LabelStyle::Primary, span, message: Some(message@) }),
    {
        Label { style: LabelStyle::Primary, span, message: Some(String::from_str(message)) }
    }

    /// A secondary (contextual) label with a message.
    pub fn secondary(span: Span, message: &str) -> (r: Label)
        ensures
            r@ == (LabelV { style: LabelStyle::Secondary, span, message: Some(message@) }),
    {
        Label { style: LabelStyle::Secondary, span, message: Some(String::from_str(message)) }
    }

    /// A primary label with no message: just an underline.
    pub fn primary_only(span: Span) -> (r: Label)
        ensures
            r@ == (LabelV { style: LabelStyle::Primary, span, message: None }),
    {
        Label { style: LabelStyle::Primary, span, message: None }
    }
}

/// A structured compiler diagnostic.
#[derive(Clone, Debug)]
pub struct Diagnostic {
    /// The severity of the diagnostic.
    pub severity: Severity,
    /// An optional machine-readable error code (e.g. `"E0001"`).
    pub code: Option<String>,
    /// The primary human-readable message.
    pub message: String,
    /// Labeled source spans, primary and secondary.
    pub labels: Vec<Label>,
    /// Free-standing notes, not tied to a span.
    pub notes: Vec<String>,
}

/// The mathematical content of a [`Diagnostic`].
pub struct DiagnosticV {
    pub severity: Severity,
    pub code: Option<Seq<char>>,
    pub message: Seq<char>,
    pub labels: Seq<LabelV>,
    pub notes: Seq<Seq<char>>,
}

/// The views of a sequence of labels.
pub open spec fn labels_view(ls: Seq<Label>) -> Seq<LabelV> {
    ls.map_values(|l: Label| l@)
}

/// The views of a sequence of strings.
pub open spec fn strings_view(ss: Seq<String>) -> Seq<Seq<char>> {
    ss.map_values(|s: String| s@)
}

/// The views of a sequence of diagnostics.
pub open spec fn diags_view(ds: Seq<Diagnostic>) -> Seq<DiagnosticV> {
    ds.map_values(|d: Diagnostic| d@)
}

impl View for Diagnostic {
    type V = DiagnosticV;

    open spec fn view(&self) -> DiagnosticV {
        DiagnosticV {
            severity: self.severity,
            code: opt_str_view(self.code),
            message: self.message@,
            labels: labels_view(self.labels@),
            notes: strings_view(self.notes@),
        }
    }
}

/// An error diagnostic with `message` and one primary label.
pub open spec fn error_with_primary(message: Seq<char>, span: Span, label: Seq<char>) -> DiagnosticV {
    DiagnosticV {
        severity: Severity::Error,
        code: None,
        message,
        labels: seq![LabelV { style: LabelStyle::Primary, span, message: Some(label) }],
        notes: seq![],
    }
}

/// The index of the label a diagnostic is located at: the first primary
/// label, or failing that the first label.
pub open spec fn primary_index(labels: Seq<LabelV>) -> Option<int> {
    match first_primary_from(labels, 0) {
        Some(i) => Some(i),
        None => if labels.len() > 0 { Some(0) } else { None },
    }
}

/// The first primary label at or after `i`.
pub open spec fn first_primary_from(labels: Seq<LabelV>, i: int) -> Option<int>
    decreases labels.len() - i,
{
    if i < 0 || i >= labels.len() {
        None
    } else if labels[i].style is Primary {
        Some(i)
    } else {
        first_primary_from(labels, i + 1)
    }
}

proof fn lemma_first_primary(labels: Seq<LabelV>, i: int)
    ensures
        match first_primary_from(labels, i) {
            Some(k) => i <= k < labels.len() && 0 <= k,
            None => true,
        },
    decreases labels.len() - i,
{
    if 0 <= i < labels.len() && !(labels[i].style is Primary) {
        lemma_first_primary(labels, i + 1);
    }
}

/// Find the index of the first primary label at or after `start`.
pub fn find_primary(labels: &[Label], start: usize) -> (r: Option<usize>)
    requires
        start <= labels@.len(),
    ensures
        match r {
            Some(i) => first_primary_from(labels_view(labels@), start as int) == Some(i as int),
            None => first_primary_from(labels_view(labels@), start as int) is None,
        },
    decreases labels@.len() - start,
{
    if start >= labels.len() {
        None
    } else {
        match labels[start].style {
            LabelStyle::Primary => Some(start),
            LabelStyle::Secondary => find_primary(labels, start + 1),
        }
    }
}

impl Diagnostic {
    /// Create a diagnostic with the given severity and message.
    pub fn new(severity: Severity, message: &str) -> (r: Diagnostic)
        ensures
            r@ == (DiagnosticV {
                severity,
                code: None,
                message: message@,
                labels: seq![],
                notes: seq![],
            }),
    {
        let r = Diagnostic {
            severity,
            code: None,
            message: String::from_str(message),
            labels: Vec::new(),
            notes: Vec::new(),
        };
        assert(labels_view(r.labels@) =~= seq![]);
        assert(strings_view(r.notes@) =~= seq![]);
        r
    }

    /// Create an error diagnostic.
    pub fn error(message: &str) -> (r: Diagnostic)
        ensures
            r@ == (DiagnosticV {
                severity: Severity::Error,
                code: None,
                message: message@,
                labels: seq![],
                notes: seq![],
            }),
    {
        Diagnostic::new(Severity::Error, message)
    }

    /// Create a warning diagnostic.
    pub fn warning(message: &str) -> (r: Diagnostic)
        ensures
            r@ == (DiagnosticV {
                severity: Severity::Warning,
                code: None,
                message: message@,
                labels: seq![],
                notes: seq![],
            }),
    {
        Diagnostic::new(Severity::Warning, message)
    }

    /// Attach a machine-readable error code.
    pub fn with_code(self, code: &str) -> (r: Diagnostic)
        ensures
            r@ == (DiagnosticV { code: Some(code@), ..self@ }),
    {
        let mut d = self;
        d.code = Some(String::from_str(code));
        d
    }

    /// Attach an already-built [`Label`].
    pub fn with_label(self, label: Label) -> (r: Diagnostic)
        ensures
            r@ == (DiagnosticV { labels: self@.labels.push(label@), ..self@ }),
    {
        let mut d = self;
        d.labels.push(label);
        assert(labels_view(d.labels@) =~= labels_view(self.labels@).push(label@));
        d
    }

    /// Attach a primary label with a message.
    pub fn with_primary(self, span: Span, message: &str) -> (r: Diagnostic)
        ensures
            r@ == (DiagnosticV {
                labels: self@.labels.push(
                    LabelV { style: LabelStyle::Primary, span, message: Some(message@) },
                ),
                ..self@
            }),
    {
        self.with_label(Label::primary(span, message))
    }

    /// Attach a secondary (contextual) label with a message.
    pub fn with_secondary(self, span: Span, message: &str) -> (r: Diagnostic)
        ensures
            r@ == (DiagnosticV {
                labels: self@.labels.push(
                    LabelV { style: LabelStyle::Secondary, span, message: Some(message@) },
                ),
                ..self@
            }),
    {
        self.with_label(Label::secondary(span, message))
    }

    /// Attach a free-standing note.
    pub fn with_note(self, note: &str) -> (r: Diagnostic)
        ensures
            r@ == (DiagnosticV { notes: self@.notes.push(note@), ..self@ }),
    {
        let mut d = self;
        d.notes.push(String::from_str(note));
        assert(strings_view(d.notes@) =~= strings_view(self.notes@).push(note@));
        d
    }

    /// Whether this diagnostic's severity is [`Severity::Error`].
    pub fn is_error(&self) -> (r: bool)
        ensures
            r == (self.severity is Error),
    {
        self.severity.is_error()
    }

    /// The span of the primary label, falling back to the first label.
    pub fn primary_span(&self) -> (r: Option<Span>)
        ensures
            r == (match primary_index(self@.labels) {
                Some(i) => Some(self@.labels[i].span),
                None => None::<Span>,
            }),
    {
        proof { lemma_first_primary(self@.labels, 0); }
        match find_primary(self.labels.as_slice(), 0) {
            Some(i) => Some(self.labels[i].span),
            None => {
                if self.labels.len() > 0 {
                    Some(self.labels[0].span)
                } else {
                    None
                }
            },
        }
    }
}

/// The number of diagnostics in `ds` with severity `sev`.
pub open spec fn count_severity(ds: Seq<Diagnostic>, sev: Severity) -> nat
    decreases ds.len(),
{
    if ds.len() == 0 {
        0
    } else {
        count_severity(ds.drop_last(), sev) + if ds.last().severity == sev { 1nat } else { 0nat }
    }
}

proof fn lemma_count_le(ds: Seq<Diagnostic>, sev: Severity)
    ensures
        count_severity(ds, sev) <= ds.len(),
    decreases ds.len(),
{
    if ds.len() > 0 {
        lemma_count_le(ds.drop_last(), sev);
    }
}

/// Buffers emitted diagnostics and tracks error and warning counts.
#[derive(Debug)]
pub struct DiagnosticHandler {
    diagnostics: Vec<Diagnostic>,
    error_count: usize,
    warning_count: usize,
}

impl View for DiagnosticHandler {
    type V = Seq<Diagnostic>;

    closed spec fn view(&self) -> Seq<Diagnostic> {
        self.diagnostics@
    }
}

impl DiagnosticHandler {
    #[verifier::type_invariant]
    closed spec fn wf(self) -> bool {
        &&& self.error_count == count_severity(self.diagnostics@, Severity::Error)
        &&& self.warning_count == count_severity(self.diagnostics@, Severity::Warning)
    }

    /// Create an empty handler.
    pub fn new() -> (r: DiagnosticHandler)
        ensures
            r@ == Seq::<Diagnostic>::empty(),
    {
        DiagnosticHandler { diagnostics: Vec::new(), error_count: 0, warning_count: 0 }
    }

    /// Record a diagnostic, updating the error and warning counts.
    pub fn emit(&mut self, diagnostic: Diagnostic)
        ensures
            final(self)@ == old(self)@.push(diagnostic),
    {
        let mut h = DiagnosticHandler::new();
        std::mem::swap(&mut h, self);
        proof { use_type_invariant(&h); }
        let sev = diagnostic.severity;
        let mut diagnostics = h.diagnostics;
        diagnostics.push(diagnostic);
        let ghost ds = diagnostics@;
        proof {
            assert(ds.drop_last() =~= old(self)@);
            lemma_count_le(ds, Severity::Error);
            lemma_count_le(ds, Severity::Warning);
            assert(ds.last() == diagnostic);
            assert(count_severity(ds, Severity::Error) == count_severity(old(self)@, Severity::Error)
                + if sev == Severity::Error { 1nat } else { 0nat });
            assert(count_severity(ds, Severity::Warning) == count_severity(old(self)@, Severity::Warning)
                + if sev == Severity::Warning { 1nat } else { 0nat });
        }
        // Each count is at most the number of diagnostics, which fits in a
        // `usize`, so neither increment below overflows.
        let _n = diagnostics.len();
        let e = match sev {
            Severity::Error => h.error_count + 1,
            _ => h.error_count,
        };
        let w = match sev {
            Severity::Warning => h.warning_count + 1,
            _ => h.warning_count,
        };
        *self = DiagnosticHandler { diagnostics, error_count: e, warning_count: w };
    }

    /// The number of error-severity diagnostics emitted so far.
    pub fn error_count(&self) -> (r: usize)
        ensures
            r == count_severity(self@, Severity::Error),
    {
        proof { use_type_invariant(self); }
        self.error_count
    }

    /// The number of warning-severity diagnostics emitted so far.
    pub fn warning_count(&self) -> (r: usize)
        ensures
            r == count_severity(self@, Severity::Warning),
    {
        proof { use_type_invariant(self); }
        self.warning_count
    }

    /// Whether any error-severity diagnostic has been emitted.
    pub fn has_errors(&self) -> (r: bool)
        ensures
            r == (count_severity(self@, Severity::Error) > 0),
    {
        proof { use_type_invariant(self); }
        self.error_count > 0
    }

    /// Whether no diagnostics have been emitted at all.
    pub fn is_empty(&self) -> (r: bool)
        ensures
            r == (self@.len() == 0),
    {
        self.diagnostics.len() == 0
    }

    /// All emitted diagnostics, in emission order.
    pub fn diagnostics(&self) -> (r: &[Diagnostic])
        ensures
            r@ == self@,
    {
        self.diagnostics.as_slice()
    }

    /// Consume the handler, yielding the emitted diagnostics.
    pub fn into_diagnostics(self) -> (r: Vec<Diagnostic>)
        ensures
            r@ == self@,
    {
        self.diagnostics
    }
}

} // verus!

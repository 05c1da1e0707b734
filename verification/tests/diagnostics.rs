use aether::diagnostics::{Diagnostic, DiagnosticHandler, Severity};
use aether::source::{BytePos, SourceMap, Span};

fn span(lo: u32, hi: u32) -> Span {
    let mut map = SourceMap::new();
    let file = map.add_file("test.ae", "");
    Span::new(file, BytePos(lo), BytePos(hi))
}

#[test]
fn severity_strings_and_is_error() {
    assert_eq!(Severity::Error.as_str(), "error");
    assert_eq!(Severity::Warning.as_str(), "warning");
    assert!(Severity::Error.is_error());
    assert!(!Severity::Warning.is_error());
}

#[test]
fn builder_populates_fields() {
    let d = Diagnostic::error("boom")
        .with_code("E0001")
        .with_primary(span(0, 3), "here")
        .with_secondary(span(5, 6), "and here")
        .with_note("a note");

    assert!(d.is_error());
    assert_eq!(d.code.as_deref(), Some("E0001"));
    assert_eq!(d.message, "boom");
    assert_eq!(d.labels.len(), 2);
    assert_eq!(d.notes, vec!["a note".to_string()]);
}

#[test]
fn primary_span_prefers_primary_label() {
    let d = Diagnostic::error("boom")
        .with_secondary(span(5, 6), "secondary")
        .with_primary(span(0, 3), "primary");
    assert_eq!(d.primary_span(), Some(span(0, 3)));
}

#[test]
fn primary_span_falls_back_to_first_label() {
    let d = Diagnostic::warning("hmm").with_secondary(span(5, 6), "only label");
    assert_eq!(d.primary_span(), Some(span(5, 6)));
}

#[test]
fn primary_span_is_none_without_labels() {
    let d = Diagnostic::error("no labels");
    assert_eq!(d.primary_span(), None);
}

#[test]
fn new_handler_is_empty() {
    let handler = DiagnosticHandler::new();
    assert!(handler.is_empty());
    assert!(!handler.has_errors());
    assert_eq!(handler.error_count(), 0);
    assert_eq!(handler.warning_count(), 0);
}

#[test]
fn emit_updates_counts() {
    let mut handler = DiagnosticHandler::new();
    handler.emit(Diagnostic::error("e1"));
    handler.emit(Diagnostic::warning("w1"));
    handler.emit(Diagnostic::error("e2"));

    assert_eq!(handler.error_count(), 2);
    assert_eq!(handler.warning_count(), 1);
    assert!(handler.has_errors());
    assert_eq!(handler.diagnostics().len(), 3);
}

#[test]
fn notes_and_help_do_not_count_as_errors() {
    let mut handler = DiagnosticHandler::new();
    handler.emit(Diagnostic::new(Severity::Note, "fyi"));
    handler.emit(Diagnostic::new(Severity::Help, "try this"));
    assert!(!handler.has_errors());
    assert_eq!(handler.error_count(), 0);
    assert_eq!(handler.diagnostics().len(), 2);
}

#[test]
fn into_diagnostics_yields_all() {
    let mut handler = DiagnosticHandler::new();
    handler.emit(Diagnostic::error("only"));
    let diagnostics = handler.into_diagnostics();
    assert_eq!(diagnostics.len(), 1);
    assert_eq!(diagnostics[0].message, "only");
}

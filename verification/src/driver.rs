//! The compiler pipeline behind the `aetherc` driver, from a loaded source
//! file to what the driver prints and the exit code it returns.
//!
//! The phases run in order: lexing, parsing, lowering to AIR, verification
//! of the AIR, and execution of `main`, whose result is printed. A phase
//! that reports diagnostics ends the run as a compile error (exit code 1); a
//! `--dump-*` stop prints the output of its phase instead of going on. A
//! runtime failure ends the run with exit code 70.

use vstd::prelude::*;
use crate::air_print::{module_text, print};
use crate::air_verify::{errors_view, module_msgs, verify};
use crate::ast::FnDeclV;
use crate::cli::Stage;
use crate::diagnostics::{diags_view, error_with_primary, Diagnostic, DiagnosticV, Severity};
use crate::interp::{interpret, run_s, run_value_text, budget, RunError, RunValue};
use crate::lexer::{lex, tokenize, LexResult};
use crate::lower::{lower_program_s, lowers_within_limits, try_lower};
use crate::parser::{lemma_lexed_tokens_parse, p_program, parse, PIn};
use crate::pretty::program_text;
use crate::render::{header, labels_in, render, render_s};
use crate::source::{FileId, SourceFile, SourceMap};
use crate::text::{decimal, push_u64};
use crate::token::{description_of, Token};

verus! {

/// What the driver prints and the exit code it returns.
pub struct Outcome {
    /// The text for standard output (printed followed by a newline, when not
    /// empty).
    pub stdout: String,
    /// The messages for standard error, each printed followed by a newline.
    pub stderr: Vec<String>,
    /// The process exit code.
    pub code: u8,
}

/// The content of an [`Outcome`].
pub struct OutcomeV {
    pub stdout: Seq<char>,
    pub stderr: Seq<Seq<char>>,
    pub code: u8,
}

impl View for Outcome {
    type V = OutcomeV;

    open spec fn view(&self) -> OutcomeV {
        OutcomeV {
            stdout: self.stdout@,
            stderr: self.stderr@.map_values(|s: String| s@),
            code: self.code,
        }
    }
}

/// A diagnostic as shown: rendered against the sources when its labels
/// point into them, otherwise just its header line.
pub open spec fn show(files: Seq<SourceFile>, d: DiagnosticV) -> Seq<char> {
    if labels_in(files, d.labels) {
        render_s(files, d)
    } else {
        header(d)
    }
}

/// The diagnostics as shown.
pub open spec fn show_all(files: Seq<SourceFile>, ds: Seq<DiagnosticV>) -> Seq<Seq<char>> {
    ds.map_values(|d: DiagnosticV| show(files, d))
}

/// The line printed for a token: its description and byte range.
pub open spec fn token_line(t: Token) -> Seq<char> {
    description_of(t.kind) + " "@ + decimal(t.span.lo.0 as nat) + ".."@ + decimal(t.span.hi.0 as nat)
}

/// The lines of the first `n` tokens, separated by newlines.
pub open spec fn token_lines(ts: Seq<Token>, n: int) -> Seq<char>
    decreases n,
{
    if n <= 0 {
        seq![]
    } else if n == 1 {
        token_line(ts[0])
    } else {
        token_lines(ts, n - 1) + "\n"@ + token_line(ts[n - 1])
    }
}

/// The diagnostic reporting a runtime failure.
pub open spec fn run_error_diag(e: RunError) -> DiagnosticV {
    match e {
        RunError::DivisionByZero { span } => error_with_primary(
            "division by zero"@,
            span,
            "attempt to divide by zero"@,
        ),
        RunError::NoEntryPoint => DiagnosticV {
            severity: Severity::Error,
            code: None,
            message: "the program has no `main` function"@,
            labels: seq![],
            notes: seq![],
        },
        RunError::Malformed => DiagnosticV {
            severity: Severity::Error,
            code: None,
            message: "execution reached a state that verified AIR never reaches"@,
            labels: seq![],
            notes: seq![],
        },
        RunError::OutOfSteps => DiagnosticV {
            severity: Severity::Error,
            code: None,
            message: "the program ran out of steps"@,
            labels: seq![],
            notes: seq![],
        },
    }
}

/// A run that ends with a compile error.
pub open spec fn failed(errs: Seq<Seq<char>>) -> OutcomeV {
    OutcomeV { stdout: seq![], stderr: errs, code: 1 }
}

/// A run that succeeds, printing `out`.
pub open spec fn succeeded(out: Seq<char>) -> OutcomeV {
    OutcomeV { stdout: out, stderr: seq![], code: 0 }
}

/// The message for a program too large for AIR's indices.
pub open spec fn too_large() -> Seq<char> {
    "error: the program is too large to compile"@
}

/// Running the pipeline from the AIR module `fs` on.
pub open spec fn from_air(files: Seq<SourceFile>, fs: Seq<crate::air::FunctionV>, stop: Option<Stage>) -> OutcomeV {
    let errs = module_msgs(fs, fs.len() as int);
    if errs.len() > 0 {
        failed(errs.map_values(|m: Seq<char>| "error: "@ + m))
    } else if stop == Some(Stage::Air) {
        succeeded(module_text(fs))
    } else {
        let r = match crate::air::find_function(fs, "main"@) {
            None => Err(RunError::NoEntryPoint),
            Some(i) => run_s(fs, fs[i], seq![], budget()),
        };
        match r {
            Ok(v) => succeeded(run_value_text(v)),
            Err(e) => OutcomeV { stdout: seq![], stderr: seq![show(files, run_error_diag(e))], code: 70 },
        }
    }
}

/// Running the pipeline on file `id` of `files`, stopping after `stop` when
/// it is given.
pub open spec fn drive_s(files: Seq<SourceFile>, id: FileId, stop: Option<Stage>) -> OutcomeV {
    let f = files[id.spec_index() as int];
    let (toks, lds) = lex(f.text(), id);
    if stop == Some(Stage::Tokens) {
        OutcomeV {
            stdout: token_lines(toks, toks.len() as int),
            stderr: show_all(files, lds),
            code: if lds.len() > 0 {
                1
            } else {
                0
            },
        }
    } else if lds.len() > 0 {
        failed(show_all(files, lds))
    } else {
        let (prog, pds) = p_program(PIn { toks, bytes: f.bytes() });
        if pds.len() > 0 {
            failed(show_all(files, pds))
        } else if stop == Some(Stage::Ast) {
            succeeded(program_text(prog))
        } else if !lowers_within_limits(prog) {
            failed(seq![too_large()])
        } else {
            let (fs, lowds) = lower_program_s(prog);
            if lowds.len() > 0 {
                failed(show_all(files, lowds))
            } else {
                from_air(files, fs, stop)
            }
        }
    }
}

// ---------------------------------------------------------------------------
// The pipeline.

fn labels_in_exec(d: &Diagnostic, sources: &SourceMap) -> (r: bool)
    ensures
        r == labels_in(sources@, d@.labels),
{
    let n = sources.files().len();
    let mut i: usize = 0;
    while i < d.labels.len()
        invariant
            i <= d.labels@.len(),
            n == sources@.len(),
            forall|j: int| 0 <= j < i ==> (#[trigger] d@.labels[j]).span.file.spec_index() < n,
        decreases d.labels@.len() - i,
    {
        assert(d@.labels[i as int] == d.labels@[i as int]@);
        if d.labels[i].span.file().index() >= n {
            return false;
        }
        i = i + 1;
    }
    true
}

fn header_exec(d: &Diagnostic) -> (r: String)
    ensures
        r@ == header(d@),
{
    let mut out = String::from_str(d.severity.as_str());
    match &d.code {
        Some(c) => {
            out.append("[");
            out.append(c.as_str());
            out.append("]");
        },
        None => {},
    }
    out.append(": ");
    out.append(d.message.as_str());
    assert(out@ =~= header(d@));
    out
}

/// A diagnostic as shown.
fn show_exec(d: &Diagnostic, sources: &SourceMap) -> (r: String)
    ensures
        r@ == show(sources@, d@),
{
    if labels_in_exec(d, sources) {
        render(d, sources)
    } else {
        header_exec(d)
    }
}

/// The views of a sequence of strings.
pub open spec fn texts(v: Seq<String>) -> Seq<Seq<char>> {
    v.map_values(|s: String| s@)
}

fn show_all_exec(ds: &Vec<Diagnostic>, sources: &SourceMap) -> (r: Vec<String>)
    ensures
        texts(r@) == show_all(sources@, diags_view(ds@)),
{
    let mut out: Vec<String> = Vec::new();
    let mut i: usize = 0;
    while i < ds.len()
        invariant
            i <= ds@.len(),
            texts(out@) =~= show_all(sources@, diags_view(ds@)).take(i as int),
        decreases ds@.len() - i,
    {
        let t = show_exec(&ds[i], sources);
        let ghost before = texts(out@);
        let ghost tv = t@;
        out.push(t);
        proof {
            assert(diags_view(ds@)[i as int] == ds@[i as int]@);
            assert(texts(out@) =~= before.push(tv));
            assert(show_all(sources@, diags_view(ds@)).take(i + 1) =~= show_all(
                sources@,
                diags_view(ds@),
            ).take(i as int).push(tv));
        }
        i = i + 1;
    }
    assert(show_all(sources@, diags_view(ds@)).take(i as int) =~= show_all(
        sources@,
        diags_view(ds@),
    ));
    out
}

fn token_lines_exec(ts: &Vec<Token>) -> (r: String)
    ensures
        r@ == token_lines(ts@, ts@.len() as int),
{
    let mut out = String::new();
    let mut i: usize = 0;
    while i < ts.len()
        invariant
            i <= ts@.len(),
            out@ == token_lines(ts@, i as int),
        decreases ts@.len() - i,
    {
        let t = ts[i];
        if i > 0 {
            out.append("\n");
        }
        out.append(t.kind.description());
        out.append(" ");
        push_u64(&mut out, t.span.lo.0 as u64);
        out.append("..");
        push_u64(&mut out, t.span.hi.0 as u64);
        assert(out@ =~= token_lines(ts@, i + 1));
        i = i + 1;
    }
    out
}

fn failed_exec(errs: Vec<String>) -> (r: Outcome)
    ensures
        r@ == failed(texts(errs@)),
{
    let r = Outcome { stdout: String::new(), stderr: errs, code: 1 };
    assert(r@ =~= failed(texts(errs@)));
    r
}

fn succeeded_exec(out: String) -> (r: Outcome)
    ensures
        r@ == succeeded(out@),
{
    let r = Outcome { stdout: out, stderr: Vec::new(), code: 0 };
    assert(r@.stderr =~= Seq::<Seq<char>>::empty());
    r
}

fn run_error_exec(e: RunError) -> (r: Diagnostic)
    ensures
        r@ == run_error_diag(e),
{
    match e {
        RunError::DivisionByZero { span } => Diagnostic::error("division by zero").with_primary(
            span,
            "attempt to divide by zero",
        ),
        RunError::NoEntryPoint => Diagnostic::error("the program has no `main` function"),
        RunError::Malformed => Diagnostic::error(
            "execution reached a state that verified AIR never reaches",
        ),
        RunError::OutOfSteps => Diagnostic::error("the program ran out of steps"),
    }
}

/// The pipeline from a lowered module on: verification, then the AIR dump
/// or execution.
fn from_air_exec(sources: &SourceMap, module: &crate::air::Module, stop: Option<Stage>) -> (r: Outcome)
    ensures
        r@ == from_air(sources@, module@, stop),
{
    let errors = verify(module);
    if errors.len() > 0 {
        let mut errs: Vec<String> = Vec::new();
        let mut i: usize = 0;
        while i < errors.len()
            invariant
                i <= errors@.len(),
                texts(errs@) =~= errors_view(errors@).take(i as int).map_values(
                    |m: Seq<char>| "error: "@ + m,
                ),
            decreases errors@.len() - i,
        {
            let mut m = String::from_str("error: ");
            m.append(errors[i].message.as_str());
            let ghost before = texts(errs@);
            let ghost mv = m@;
            errs.push(m);
            proof {
                assert(errors_view(errors@)[i as int] == errors@[i as int].message@);
                assert(texts(errs@) =~= before.push(mv));
                assert(errors_view(errors@).take(i + 1) =~= errors_view(errors@).take(i as int).push(
                    errors@[i as int].message@,
                ));
                assert(errors_view(errors@).take(i + 1).map_values(|m: Seq<char>| "error: "@ + m)
                    =~= errors_view(errors@).take(i as int).map_values(|m: Seq<char>| "error: "@ + m).push(mv));
            }
            i = i + 1;
        }
        assert(errors_view(errors@).take(i as int) =~= errors_view(errors@));
        return failed_exec(errs);
    }
    assert(module_msgs(module@, module@.len() as int) =~= errors_view(errors@));
    if stop == Some(Stage::Air) {
        return succeeded_exec(print(module));
    }
    match interpret(module) {
        Ok(v) => succeeded_exec(v.to_string()),
        Err(e) => {
            let d = run_error_exec(e);
            let mut errs: Vec<String> = Vec::new();
            errs.push(show_exec(&d, sources));
            let r = Outcome { stdout: String::new(), stderr: errs, code: 70 };
            assert(r@.stderr =~= seq![show(sources@, run_error_diag(e))]);
            r
        },
    }
}

/// Run the pipeline on file `id` of `sources`, stopping after `stop` when it
/// is given, and return what the driver prints and its exit code.
pub fn drive(sources: &SourceMap, id: FileId, stop: Option<Stage>) -> (r: Outcome)
    requires
        id.spec_index() < sources@.len(),
    ensures
        r@ == drive_s(sources@, id, stop),
{
    let file = sources.file(id);
    let lexed = tokenize(file);
    if stop == Some(Stage::Tokens) {
        let out = token_lines_exec(&lexed.tokens);
        let errs = show_all_exec(&lexed.diagnostics, sources);
        let code: u8 = if lexed.diagnostics.len() > 0 {
            1
        } else {
            0
        };
        let r = Outcome { stdout: out, stderr: errs, code };
        return r;
    }
    if lexed.diagnostics.len() > 0 {
        return failed_exec(show_all_exec(&lexed.diagnostics, sources));
    }
    proof {
        lemma_lexed_tokens_parse(*file);
    }
    let parsed = parse(file, &lexed.tokens);
    if parsed.diagnostics.len() > 0 {
        return failed_exec(show_all_exec(&parsed.diagnostics, sources));
    }
    if stop == Some(Stage::Ast) {
        return succeeded_exec(crate::pretty::print(&parsed.program));
    }
    let lowered = match try_lower(&parsed.program) {
        Some(lowered) => lowered,
        None => {
            let mut errs: Vec<String> = Vec::new();
            errs.push(String::from_str("error: the program is too large to compile"));
            let r = failed_exec(errs);
            assert(texts(errs@) =~= seq![too_large()]);
            return r;
        },
    };
    if lowered.diagnostics.len() > 0 {
        return failed_exec(show_all_exec(&lowered.diagnostics, sources));
    }
    from_air_exec(sources, &lowered.module, stop)
}

} // verus!

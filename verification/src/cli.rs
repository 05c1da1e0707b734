//! Command-line argument parsing for the `aetherc` driver.
//!
//! `--help`/`--version` take effect as soon as they are seen; the `--dump-*`
//! flags stop the pipeline after a phase (the earliest phase named wins);
//! exactly one input file is expected. Anything else starting with `-`
//! (other than a bare `-`) is an unknown option.

use vstd::prelude::*;
use crate::text::str_eq;

verus! {

/// The name of the program, used in usage and version text.
pub open spec fn prog() -> Seq<char> {
    "aetherc"@
}

/// A phase after which the driver stops and prints what it produced.
#[derive(Clone, Copy, PartialEq, Eq, Structural, Debug)]
pub enum Stage {
    /// Print the token stream.
    Tokens,
    /// Print the syntax tree.
    Ast,
    /// Print the AIR module.
    Air,
}

/// The position of a phase in the pipeline.
pub open spec fn stage_rank(s: Stage) -> int {
    match s {
        Stage::Tokens => 0,
        Stage::Ast => 1,
        Stage::Air => 2,
    }
}

/// A fully parsed invocation.
#[derive(Debug, PartialEq, Eq)]
pub enum Command {
    /// Print version information and exit.
    Version,
    /// Print usage information and exit.
    Help,
    /// Compile and run a source file.
    Compile {
        /// The path of the source file.
        input: String,
    },
    /// Compile a source file up to a phase and print that phase's output.
    Dump {
        /// The phase to stop after.
        stage: Stage,
        /// The path of the source file.
        input: String,
    },
}

/// The content of a [`Command`].
pub enum CommandV {
    Version,
    Help,
    Compile { input: Seq<char> },
    Dump { stage: Stage, input: Seq<char> },
}

impl View for Command {
    type V = CommandV;

    open spec fn view(&self) -> CommandV {
        match self {
            Command::Version => CommandV::Version,
            Command::Help => CommandV::Help,
            Command::Compile { input } => CommandV::Compile { input: input@ },
            Command::Dump { stage, input } => CommandV::Dump { stage: *stage, input: input@ },
        }
    }
}

/// A failure encountered while parsing command-line arguments.
#[derive(Debug, PartialEq, Eq)]
pub enum ParseError {
    /// An unrecognized option was supplied.
    UnknownOption(String),
    /// No input file was provided.
    MissingInput,
    /// An extra positional argument was supplied.
    UnexpectedArgument(String),
}

/// The content of a [`ParseError`].
pub enum ParseErrorV {
    UnknownOption(Seq<char>),
    MissingInput,
    UnexpectedArgument(Seq<char>),
}

impl View for ParseError {
    type V = ParseErrorV;

    open spec fn view(&self) -> ParseErrorV {
        match self {
            ParseError::UnknownOption(s) => ParseErrorV::UnknownOption(s@),
            ParseError::MissingInput => ParseErrorV::MissingInput,
            ParseError::UnexpectedArgument(s) => ParseErrorV::UnexpectedArgument(s@),
        }
    }
}

/// The message describing a parse error.
pub open spec fn error_message(e: ParseErrorV) -> Seq<char> {
    match e {
        ParseErrorV::UnknownOption(s) => "unknown option '"@ + s + "'"@,
        ParseErrorV::MissingInput => "no input file provided"@,
        ParseErrorV::UnexpectedArgument(s) => "unexpected argument '"@ + s + "'"@,
    }
}

impl ParseError {
    /// The message describing this error.
    pub fn message(&self) -> (r: String)
        ensures
            r@ == error_message(self@),
    {
        match self {
            ParseError::UnknownOption(s) => {
                let mut m = String::from_str("unknown option '");
                m.append(s.as_str());
                m.append("'");
                m
            },
            ParseError::MissingInput => String::from_str("no input file provided"),
            ParseError::UnexpectedArgument(s) => {
                let mut m = String::from_str("unexpected argument '");
                m.append(s.as_str());
                m.append("'");
                m
            },
        }
    }
}

/// Whether an argument looks like an option: it starts with `-` and is not
/// a bare `-`.
pub open spec fn is_option(a: Seq<char>) -> bool {
    a.len() > 0 && a[0] == '-' && a != "-"@
}

/// The phase a `--dump-*` flag names, if it is one.
pub open spec fn dump_flag(a: Seq<char>) -> Option<Stage> {
    if a == "--dump-tokens"@ {
        Some(Stage::Tokens)
    } else if a == "--dump-ast"@ {
        Some(Stage::Ast)
    } else if a == "--dump-air"@ {
        Some(Stage::Air)
    } else {
        None
    }
}

/// The earlier of a requested stop and a newly named phase.
pub open spec fn earliest(stop: Option<Stage>, s: Stage) -> Option<Stage> {
    match stop {
        Some(t) => if stage_rank(t) <= stage_rank(s) {
            Some(t)
        } else {
            Some(s)
        },
        None => Some(s),
    }
}

/// Parsing the arguments from index `i` on, with the input and stop phase
/// seen so far.
pub open spec fn parse_from(
    args: Seq<Seq<char>>,
    i: int,
    input: Option<Seq<char>>,
    stop: Option<Stage>,
) -> Result<CommandV, ParseErrorV>
    decreases args.len() - i,
{
    if i < 0 || i >= args.len() {
        match input {
            Some(x) => Ok(
                match stop {
                    Some(s) => CommandV::Dump { stage: s, input: x },
                    None => CommandV::Compile { input: x },
                },
            ),
            None => Err(ParseErrorV::MissingInput),
        }
    } else {
        let a = args[i];
        if a == "-h"@ || a == "--help"@ {
            Ok(CommandV::Help)
        } else if a == "-V"@ || a == "--version"@ {
            Ok(CommandV::Version)
        } else if dump_flag(a) is Some {
            parse_from(args, i + 1, input, earliest(stop, dump_flag(a)->0))
        } else if is_option(a) {
            Err(ParseErrorV::UnknownOption(a))
        } else if input is Some {
            Err(ParseErrorV::UnexpectedArgument(a))
        } else {
            parse_from(args, i + 1, Some(a), stop)
        }
    }
}

/// The views of a sequence of strings.
/// A dump flag and one input that is not an option, in either order, ask to
/// dump that input after the flag's stage: `--dump-tokens` the tokens,
/// `--dump-ast` the syntax tree, `--dump-air` the AIR. When several dump
/// flags are given, the earliest stage wins whatever their order.
pub proof fn lemma_dump_flags(x: Seq<char>)
    requires
        !is_option(x),
    ensures
        parse_from(seq!["--dump-tokens"@, x], 0, None, None) == Ok::<CommandV, ParseErrorV>(
            CommandV::Dump { stage: Stage::Tokens, input: x },
        ),
        parse_from(seq!["--dump-ast"@, x], 0, None, None) == Ok::<CommandV, ParseErrorV>(
            CommandV::Dump { stage: Stage::Ast, input: x },
        ),
        parse_from(seq!["--dump-air"@, x], 0, None, None) == Ok::<CommandV, ParseErrorV>(
            CommandV::Dump { stage: Stage::Air, input: x },
        ),
        parse_from(seq![x, "--dump-air"@], 0, None, None) == Ok::<CommandV, ParseErrorV>(
            CommandV::Dump { stage: Stage::Air, input: x },
        ),
        parse_from(seq!["--dump-air"@, "--dump-ast"@, x], 0, None, None) == Ok::<CommandV, ParseErrorV>(
            CommandV::Dump { stage: Stage::Ast, input: x },
        ),
        parse_from(seq!["--dump-ast"@, "--dump-tokens"@, x], 0, None, None) == Ok::<
            CommandV,
            ParseErrorV,
        >(CommandV::Dump { stage: Stage::Tokens, input: x }),
        parse_from(seq![x], 0, None, None) == Ok::<CommandV, ParseErrorV>(CommandV::Compile { input: x }),
{
    reveal_strlit("--dump-tokens");
    reveal_strlit("--dump-ast");
    reveal_strlit("--dump-air");
    reveal_strlit("-h");
    reveal_strlit("--help");
    reveal_strlit("-V");
    reveal_strlit("--version");
    reveal_strlit("-");
    assert("-"@.len() == 1);
    assert(is_option("-h"@) && is_option("--help"@) && is_option("-V"@) && is_option("--version"@));
    assert(is_option("--dump-tokens"@) && is_option("--dump-ast"@) && is_option("--dump-air"@));
    assert(x != "-h"@ && x != "--help"@ && x != "-V"@ && x != "--version"@);
    assert(dump_flag(x) is None);
    assert("--dump-tokens"@.len() == 13 && "--dump-ast"@.len() == 10 && "--dump-air"@.len() == 10);
    assert("--dump-ast"@[8] == 's' && "--dump-air"@[8] == 'i');
    assert("-h"@.len() == 2 && "--help"@.len() == 6 && "-V"@.len() == 2 && "--version"@.len() == 9);
    assert(dump_flag("--dump-tokens"@) == Some(Stage::Tokens));
    assert(dump_flag("--dump-ast"@) == Some(Stage::Ast));
    assert(dump_flag("--dump-air"@) == Some(Stage::Air));
    assert("--dump-air"@ != "-h"@ && "--dump-air"@ != "--help"@ && "--dump-air"@ != "-V"@
        && "--dump-air"@ != "--version"@);
    assert("--dump-ast"@ != "-h"@ && "--dump-ast"@ != "--help"@ && "--dump-ast"@ != "-V"@
        && "--dump-ast"@ != "--version"@);
    assert("--dump-tokens"@ != "-h"@ && "--dump-tokens"@ != "--help"@ && "--dump-tokens"@ != "-V"@
        && "--dump-tokens"@ != "--version"@);
    reveal_with_fuel(parse_from, 4);
}

pub open spec fn args_view(args: Seq<String>) -> Seq<Seq<char>> {
    args.map_values(|a: String| a@)
}

/// The result of a parse, as a view.
pub open spec fn result_view(r: Result<Command, ParseError>) -> Result<CommandV, ParseErrorV> {
    match r {
        Ok(c) => Ok(c@),
        Err(e) => Err(e@),
    }
}

fn is_option_exec(a: &str) -> (r: bool)
    ensures
        r == is_option(a@),
{
    let n = a.unicode_len();
    if n == 0 {
        return false;
    }
    let c = a.get_char(0);
    c == '-' && !str_eq(a, "-")
}

fn dump_flag_exec(a: &str) -> (r: Option<Stage>)
    ensures
        r == dump_flag(a@),
{
    if str_eq(a, "--dump-tokens") {
        Some(Stage::Tokens)
    } else if str_eq(a, "--dump-ast") {
        Some(Stage::Ast)
    } else if str_eq(a, "--dump-air") {
        Some(Stage::Air)
    } else {
        None
    }
}

/// Parse process arguments (excluding the program name) into a [`Command`].
pub fn parse(args: &[String]) -> (r: Result<Command, ParseError>)
    ensures
        result_view(r) == parse_from(args_view(args@), 0, None, None),
{
    let ghost av = args_view(args@);
    let mut input: Option<String> = None;
    let mut stop: Option<Stage> = None;
    let mut i: usize = 0;
    while i < args.len()
        invariant
            av == args_view(args@),
            i <= args@.len(),
            parse_from(av, 0, None, None) == parse_from(
                av,
                i as int,
                match input {
                    Some(x) => Some(x@),
                    None => None,
                },
                stop,
            ),
        decreases args@.len() - i,
    {
        let a = args[i].as_str();
        assert(av[i as int] == a@);
        if str_eq(a, "-h") || str_eq(a, "--help") {
            return Ok(Command::Help);
        }
        if str_eq(a, "-V") || str_eq(a, "--version") {
            return Ok(Command::Version);
        }
        match dump_flag_exec(a) {
            Some(s) => {
                stop = match stop {
                    Some(t) => if stage_le(t, s) {
                        Some(t)
                    } else {
                        Some(s)
                    },
                    None => Some(s),
                };
            },
            None => {
                if is_option_exec(a) {
                    return Err(ParseError::UnknownOption(String::from_str(a)));
                }
                if input.is_some() {
                    return Err(ParseError::UnexpectedArgument(String::from_str(a)));
                }
                input = Some(String::from_str(a));
            },
        }
        i = i + 1;
    }
    match input {
        Some(x) => match stop {
            Some(s) => Ok(Command::Dump { stage: s, input: x }),
            None => Ok(Command::Compile { input: x }),
        },
        None => Err(ParseError::MissingInput),
    }
}

fn stage_le(a: Stage, b: Stage) -> (r: bool)
    ensures
        r == (stage_rank(a) <= stage_rank(b)),
{
    let ra: u8 = match a {
        Stage::Tokens => 0,
        Stage::Ast => 1,
        Stage::Air => 2,
    };
    let rb: u8 = match b {
        Stage::Tokens => 0,
        Stage::Ast => 1,
        Stage::Air => 2,
    };
    ra <= rb
}

/// The one-line usage summary.
pub fn usage() -> (r: String)
    ensures
        r@ == "usage: "@ + prog() + " [OPTIONS] <INPUT>"@,
{
    let mut s = String::from_str("usage: ");
    s.append("aetherc");
    s.append(" [OPTIONS] <INPUT>");
    s
}

/// The version line, e.g. `aetherc 0.1.0`.
pub fn version_string(version: &str) -> (r: String)
    ensures
        r@ == prog() + " "@ + version@,
{
    let mut s = String::from_str("aetherc");
    s.append(" ");
    s.append(version);
    s
}

/// The full help text.
pub fn help_text(version: &str) -> (r: String)
    ensures
        r@ == prog() + " "@ + version@ + "\nAether compiler driver.\n\n"@ + "usage: "@ + prog()
            + " [OPTIONS] <INPUT>"@ + "\n\nArguments:\n  <INPUT>          Path to an Aether source file (.ae) to compile and run\n\nOptions:\n  -h, --help       Print this help message and exit\n  -V, --version    Print version information and exit\n      --dump-tokens  Print the token stream and stop\n      --dump-ast     Print the syntax tree and stop\n      --dump-air     Print the AIR and stop"@,
{
    let mut s = version_string(version);
    s.append("\nAether compiler driver.\n\n");
    let u = usage();
    s.append(u.as_str());
    s.append(
        "\n\nArguments:\n  <INPUT>          Path to an Aether source file (.ae) to compile and run\n\nOptions:\n  -h, --help       Print this help message and exit\n  -V, --version    Print version information and exit\n      --dump-tokens  Print the token stream and stop\n      --dump-ast     Print the syntax tree and stop\n      --dump-air     Print the AIR and stop",
    );
    s
}

} // verus!

use aether::cli::{help_text, parse, usage, version_string, Command, ParseError, Stage};

fn args(items: &[&str]) -> Vec<String> {
    items.iter().map(|s| (*s).to_string()).collect()
}

#[test]
fn parses_help_flags() {
    assert_eq!(parse(&args(&["--help"])), Ok(Command::Help));
    assert_eq!(parse(&args(&["-h"])), Ok(Command::Help));
}

#[test]
fn parses_version_flags() {
    assert_eq!(parse(&args(&["--version"])), Ok(Command::Version));
    assert_eq!(parse(&args(&["-V"])), Ok(Command::Version));
}

#[test]
fn parses_input_file() {
    assert_eq!(
        parse(&args(&["main.ae"])),
        Ok(Command::Compile {
            input: String::from("main.ae")
        })
    );
}

#[test]
fn help_takes_precedence_over_input() {
    assert_eq!(parse(&args(&["main.ae", "--help"])), Ok(Command::Help));
}

#[test]
fn rejects_unknown_option() {
    assert_eq!(
        parse(&args(&["--nope"])),
        Err(ParseError::UnknownOption("--nope".to_string()))
    );
}

#[test]
fn rejects_missing_input() {
    assert_eq!(parse(&[]), Err(ParseError::MissingInput));
}

#[test]
fn rejects_extra_positional() {
    assert_eq!(
        parse(&args(&["a.ae", "b.ae"])),
        Err(ParseError::UnexpectedArgument("b.ae".to_string()))
    );
}

#[test]
fn dump_flags_stop_at_the_earliest_phase() {
    assert_eq!(
        parse(&args(&["--dump-air", "main.ae", "--dump-ast"])),
        Ok(Command::Dump {
            stage: Stage::Ast,
            input: String::from("main.ae")
        })
    );
    assert_eq!(
        parse(&args(&["main.ae", "--dump-tokens"])),
        Ok(Command::Dump {
            stage: Stage::Tokens,
            input: String::from("main.ae")
        })
    );
}

#[test]
fn a_bare_dash_is_an_input() {
    assert_eq!(
        parse(&args(&["-"])),
        Ok(Command::Compile {
            input: String::from("-")
        })
    );
}

#[test]
fn error_messages_name_the_argument() {
    assert_eq!(
        ParseError::UnknownOption("--x".to_string()).message(),
        "unknown option '--x'"
    );
    assert_eq!(ParseError::MissingInput.message(), "no input file provided");
    assert_eq!(
        ParseError::UnexpectedArgument("b.ae".to_string()).message(),
        "unexpected argument 'b.ae'"
    );
}

#[test]
fn usage_and_help_mention_the_program() {
    assert_eq!(usage(), "usage: aetherc [OPTIONS] <INPUT>");
    assert_eq!(version_string("1.2.3"), "aetherc 1.2.3");
    let help = help_text("1.2.3");
    assert!(help.starts_with("aetherc 1.2.3\n"));
    assert!(help.contains("usage: aetherc [OPTIONS] <INPUT>"));
    assert!(help.contains("--dump-air"));
}

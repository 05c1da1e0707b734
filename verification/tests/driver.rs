use aether::cli::Stage;
use aether::driver::drive;
use aether::source::SourceMap;

fn run(src: &str, stop: Option<Stage>) -> (String, Vec<String>, u8) {
    let mut sources = SourceMap::new();
    let file = sources.add_file("t.ae", src);
    let outcome = drive(&sources, file, stop);
    (outcome.stdout, outcome.stderr, outcome.code)
}

#[test]
fn runs_main_and_prints_its_result() {
    let (out, errs, code) = run("fn main() -> int { return 6 * 7; }", None);
    assert_eq!(out, "42");
    assert!(errs.is_empty());
    assert_eq!(code, 0);
}

#[test]
fn runs_recursive_programs() {
    let (out, _, code) = run(
        "fn fact(n: int) -> int { if n <= 1 { return 1; } return n * fact(n - 1); } \
         fn main() -> int { return fact(5); }",
        None,
    );
    assert_eq!(out, "120");
    assert_eq!(code, 0);
}

#[test]
fn lexical_errors_are_compile_errors() {
    let (out, errs, code) = run("fn main() -> int { return 1 # 2; }", None);
    assert_eq!(out, "");
    assert_eq!(code, 1);
    assert_eq!(errs.len(), 1);
    assert!(errs[0].starts_with("error: unexpected character '#'"));
    assert!(errs[0].contains(" --> t.ae:1:29"));
}

#[test]
fn syntax_errors_are_compile_errors() {
    let (_, errs, code) = run("fn main() -> int { return ; }", None);
    assert_eq!(code, 1);
    assert!(errs[0].contains("expected an expression"));
}

#[test]
fn unknown_names_are_compile_errors() {
    let (_, errs, code) = run("fn main() -> int { return y; }", None);
    assert_eq!(code, 1);
    assert!(errs[0].starts_with("error: cannot find `y` in this scope"));
}

#[test]
fn type_errors_are_reported_by_the_verifier() {
    let (_, errs, code) = run("fn main() -> int { return true; }", None);
    assert_eq!(code, 1);
    assert_eq!(errs.len(), 1);
    assert!(errs[0].starts_with("error: function `main`: block0: `ret` type bool"));
}

#[test]
fn missing_return_is_reported_by_the_verifier() {
    let (_, errs, code) = run("fn main() -> int { let x = 1; }", None);
    assert_eq!(code, 1);
    assert_eq!(errs, vec!["error: function `main`: block0 has no terminator".to_string()]);
}

#[test]
fn division_by_zero_exits_with_a_runtime_error() {
    let (out, errs, code) = run("fn main() -> int { return 1 / 0; }", None);
    assert_eq!(out, "");
    assert_eq!(code, 70);
    assert!(errs[0].starts_with("error: division by zero"));
    assert!(errs[0].contains("^^^^^ attempt to divide by zero"));
}

#[test]
fn missing_main_exits_with_a_runtime_error() {
    let (_, errs, code) = run("fn other() -> int { return 1; }", None);
    assert_eq!(code, 70);
    assert_eq!(errs, vec!["error: the program has no `main` function".to_string()]);
}

#[test]
fn dump_tokens_lists_every_token() {
    let (out, errs, code) = run("fn main", Some(Stage::Tokens));
    assert!(errs.is_empty());
    assert_eq!(code, 0);
    assert_eq!(out, "keyword `fn` 0..2\nidentifier 3..7\nend of file 7..7");
}

#[test]
fn dump_ast_prints_the_tree() {
    let (out, _, code) = run("fn main() -> int { return 1; }", Some(Stage::Ast));
    assert_eq!(code, 0);
    assert_eq!(
        out,
        "Program\n  Fn \"main\" -> \"int\"\n    Block\n      Return\n        IntLit 1"
    );
}

#[test]
fn dump_air_prints_the_module() {
    let (out, _, code) = run("fn main() -> int { return 1; }", Some(Stage::Air));
    assert_eq!(code, 0);
    assert_eq!(out, "fn main() -> int {\nblock0:\n    %0 = iconst 1\n    ret %0\n}");
}

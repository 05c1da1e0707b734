use aether::ast::Item;
use aether::diagnostics::Diagnostic;
use aether::lexer::tokenize;
use aether::parser::parse;
use aether::pretty::print;
use aether::source::{BytePos, SourceMap};

/// Parse `src` and return the pretty-printed AST plus any diagnostics.
fn parse_str(src: &str) -> (String, Vec<Diagnostic>) {
    let mut map = SourceMap::new();
    let file = map.add_file("test.ae", src);
    let tokens = tokenize(map.file(file)).tokens;
    let result = parse(map.file(file), &tokens);
    (print(&result.program), result.diagnostics)
}

/// Parse `src`, asserting there are no diagnostics, and return the tree.
fn parse_ok(src: &str) -> String {
    let (tree, diags) = parse_str(src);
    assert!(diags.is_empty(), "unexpected diagnostics: {diags:?}");
    tree
}

#[test]
fn parser_full_minimal_program() {
    let tree = parse_ok("fn main() -> int { return 1 + 2 * 3; }");
    assert_eq!(
        tree,
        "\
Program
  Fn \"main\" -> \"int\"
    Block
      Return
        Binary +
          IntLit 1
          Binary *
            IntLit 2
            IntLit 3"
    );
}

#[test]
fn multiplication_binds_tighter_than_addition() {
    // 1 + 2 * 3  =>  1 + (2 * 3)
    let tree = parse_ok("fn f() -> int { return 1 + 2 * 3; }");
    assert!(tree.contains("Binary +"));
    // The `*` node is nested under the `+` node (deeper indentation).
    let plus = tree.find("Binary +").unwrap();
    let star = tree.find("Binary *").unwrap();
    assert!(star > plus, "expected `*` nested under `+`");
}

#[test]
fn parser_subtraction_is_left_associative() {
    // 1 - 2 - 3  =>  (1 - 2) - 3
    let tree = parse_ok("fn f() -> int { return 1 - 2 - 3; }");
    assert_eq!(
        tree,
        "\
Program
  Fn \"f\" -> \"int\"
    Block
      Return
        Binary -
          Binary -
            IntLit 1
            IntLit 2
          IntLit 3"
    );
}

#[test]
fn unary_minus_binds_tighter_than_multiplication() {
    // -2 * 3  =>  (-2) * 3
    let tree = parse_ok("fn f() -> int { return -2 * 3; }");
    assert_eq!(
        tree,
        "\
Program
  Fn \"f\" -> \"int\"
    Block
      Return
        Binary *
          Unary -
            IntLit 2
          IntLit 3"
    );
}

#[test]
fn parentheses_override_precedence() {
    // (1 + 2) * 3
    let tree = parse_ok("fn f() -> int { return (1 + 2) * 3; }");
    assert_eq!(
        tree,
        "\
Program
  Fn \"f\" -> \"int\"
    Block
      Return
        Binary *
          Binary +
            IntLit 1
            IntLit 2
          IntLit 3"
    );
}

#[test]
fn captures_names_and_values() {
    let tree = parse_ok("fn answer() -> int { return 42; }");
    assert!(tree.contains("Fn \"answer\" -> \"int\""));
    assert!(tree.contains("IntLit 42"));
}

#[test]
fn missing_expression_reports_and_recovers() {
    let (tree, diags) = parse_str("fn f() -> int { return ; }");
    assert_eq!(diags.len(), 1);
    assert!(diags[0].message.contains("expected an expression"));
    // The tree still has the function and a poison node.
    assert!(tree.contains("Return"));
    assert!(tree.contains("Error"));
}

#[test]
fn missing_semicolon_reports() {
    let (_tree, diags) = parse_str("fn f() -> int { return 1 }");
    assert_eq!(diags.len(), 1);
    assert!(diags[0].message.contains("expected `;`"));
}

#[test]
fn integer_overflow_reports() {
    let (_tree, diags) = parse_str("fn f() -> int { return 99999999999999999999999; }");
    assert_eq!(diags.len(), 1);
    assert!(diags[0].message.contains("too large"));
}

#[test]
fn recovers_to_next_function_after_error() {
    // The first function is malformed (missing return type); the second is
    // fine. We should still parse the second and report the first's error.
    let (tree, diags) = parse_str("fn bad() -> { } fn good() -> int { return 1; }");
    assert!(!diags.is_empty());
    assert!(tree.contains("Fn \"good\" -> \"int\""));
    assert!(tree.contains("IntLit 1"));
}

#[test]
fn empty_input_is_empty_program() {
    let tree = parse_ok("");
    assert_eq!(tree, "Program");
}

#[test]
fn parses_let_bindings_and_name_references() {
    let tree = parse_ok("fn main() -> int { let x = 1 + 2; return x * x; }");
    assert_eq!(
        tree,
        "\
Program
  Fn \"main\" -> \"int\"
    Block
      Let \"x\"
        Binary +
          IntLit 1
          IntLit 2
      Return
        Binary *
          Name \"x\"
          Name \"x\""
    );
}

#[test]
fn multiple_statements_in_order() {
    let tree = parse_ok("fn main() -> int { let a = 1; let b = 2; return a; }");
    // Two `let`s then a `return`, in source order.
    let a = tree.find("Let \"a\"").unwrap();
    let b = tree.find("Let \"b\"").unwrap();
    let ret = tree.find("Return").unwrap();
    assert!(a < b && b < ret, "statements out of order:\n{tree}");
}

#[test]
fn let_missing_equals_reports() {
    let (_tree, diags) = parse_str("fn f() -> int { let x 5; return x; }");
    assert!(diags.iter().any(|d| d.message.contains("expected `=`")));
}

#[test]
fn parses_parameters_and_calls() {
    let tree = parse_ok("fn add(a: int, b: int) -> int { return add(a, 1); }");
    assert_eq!(
        tree,
        "\
Program
  Fn \"add\" -> \"int\"
    Param \"a\" \"int\"
    Param \"b\" \"int\"
    Block
      Return
        Call \"add\"
          Name \"a\"
          IntLit 1"
    );
}

#[test]
fn parses_else_if_chains() {
    let tree = parse_ok(
        "fn f(x: int) -> int { if x < 1 { return 0; } else if true { return 1; } else { return 2; } }",
    );
    assert_eq!(
        tree,
        "\
Program
  Fn \"f\" -> \"int\"
    Param \"x\" \"int\"
    Block
      If
        Binary <
          Name \"x\"
          IntLit 1
        Then
          Return
            IntLit 0
        Else
          If
            BoolLit true
            Then
              Return
                IntLit 1
            Else
              Return
                IntLit 2"
    );
}

#[test]
fn logical_operators_bind_looser_than_comparisons() {
    let tree = parse_ok("fn f() -> bool { return !a || b && c == d; }");
    assert_eq!(
        tree,
        "\
Program
  Fn \"f\" -> \"bool\"
    Block
      Return
        Binary ||
          Unary !
            Name \"a\"
          Binary &&
            Name \"b\"
            Binary ==
              Name \"c\"
              Name \"d\""
    );
}

#[test]
fn largest_integer_literal_is_accepted() {
    let tree = parse_ok("fn f() -> int { return 18446744073709551615; }");
    assert!(tree.contains("IntLit 18446744073709551615"));
}

#[test]
fn type_names_keep_their_spans() {
    let mut map = SourceMap::new();
    let src = "fn f(x: int) -> bool { return true; }";
    let file = map.add_file("test.ae", src);
    let tokens = tokenize(map.file(file)).tokens;
    let result = parse(map.file(file), &tokens);
    assert!(result.diagnostics.is_empty());
    let Item::Fn(f) = &result.program.items[0];
    let ty = f.params[0].ty.span();
    assert_eq!((ty.lo(), ty.hi()), (BytePos(8), BytePos(11)));
    let ret = f.return_type.span();
    assert_eq!((ret.lo(), ret.hi()), (BytePos(16), BytePos(20)));
    assert_eq!(map.span_text(ret), "bool");
}

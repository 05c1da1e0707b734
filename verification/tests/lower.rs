use aether::air::Type;
use aether::air_print::print;
use aether::air_verify::verify;
use aether::diagnostics::Diagnostic;
use aether::lexer::tokenize;
use aether::lower::{lower, try_lower, LowerResult};
use aether::parser::parse;
use aether::source::SourceMap;

/// Parse `src` and lower it, returning the printed AIR (asserting no
/// diagnostics and that the module verifies).
fn lower_str(src: &str) -> String {
    let mut map = SourceMap::new();
    let file = map.add_file("t.ae", src);
    let tokens = tokenize(map.file(file)).tokens;
    let program = parse(map.file(file), &tokens).program;
    let LowerResult {
        module,
        diagnostics,
    } = lower(&program);
    assert!(diagnostics.is_empty(), "unexpected diagnostics: {diagnostics:?}");
    let errors = verify(&module);
    assert!(errors.is_empty(), "unexpected verifier errors: {errors:?}");
    print(&module)
}

/// Parse and lower `src`, returning the printed AIR and any diagnostics.
fn lower_checked(src: &str) -> (String, Vec<Diagnostic>) {
    let mut map = SourceMap::new();
    let file = map.add_file("t.ae", src);
    let tokens = tokenize(map.file(file)).tokens;
    let program = parse(map.file(file), &tokens).program;
    let LowerResult {
        module,
        diagnostics,
    } = lower(&program);
    (print(&module), diagnostics)
}

#[test]
fn lowers_arithmetic_with_precedence() {
    assert_eq!(
        lower_str("fn main() -> int { return 1 + 2 * 3; }"),
        "\
fn main() -> int {
block0:
    %0 = iconst 1
    %1 = iconst 2
    %2 = iconst 3
    %3 = mul %1, %2
    %4 = add %0, %3
    ret %4
}"
    );
}

#[test]
fn lowers_let_bindings_reusing_the_value() {
    // `x` is the `add` result; `x * x` reuses that value (no re-computation).
    assert_eq!(
        lower_str("fn main() -> int { let x = 1 + 2; return x * x; }"),
        "\
fn main() -> int {
block0:
    %0 = iconst 1
    %1 = iconst 2
    %2 = add %0, %1
    %3 = mul %2, %2
    ret %3
}"
    );
}

#[test]
fn later_binding_shadows_earlier() {
    assert_eq!(
        lower_str("fn main() -> int { let x = 1; let x = 2; return x; }"),
        "\
fn main() -> int {
block0:
    %0 = iconst 1
    %1 = iconst 2
    ret %1
}"
    );
}

#[test]
fn lowers_boolean_literal_and_return_type() {
    assert_eq!(
        lower_str("fn main() -> bool { return true; }"),
        "\
fn main() -> bool {
block0:
    %0 = bconst true
    ret %0
}"
    );
}

#[test]
fn lowers_comparison_and_logical_not() {
    assert_eq!(
        lower_str("fn main() -> bool { return !(1 < 2); }"),
        "\
fn main() -> bool {
block0:
    %0 = iconst 1
    %1 = iconst 2
    %2 = icmp lt %0, %1
    %3 = not %2
    ret %3
}"
    );
}

#[test]
fn lowers_each_comparison_operator() {
    for (sym, mnemonic) in [
        ("==", "eq"),
        ("!=", "ne"),
        ("<", "lt"),
        ("<=", "le"),
        (">", "gt"),
        (">=", "ge"),
    ] {
        let air = lower_str(&format!("fn main() -> bool {{ return 1 {sym} 2; }}"));
        assert!(
            air.contains(&format!("icmp {mnemonic} %0, %1")),
            "operator `{sym}` did not lower to `icmp {mnemonic}`:\n{air}"
        );
    }
}

#[test]
fn lowers_if_else_both_arms_return() {
    // Both arms diverge, so no join block is emitted.
    assert_eq!(
        lower_str("fn main() -> int { if true { return 1; } else { return 2; } }"),
        "\
fn main() -> int {
block0:
    %0 = bconst true
    condbr %0, block1, block2
block1:
    %1 = iconst 1
    ret %1
block2:
    %2 = iconst 2
    ret %2
}"
    );
}

#[test]
fn lowers_if_without_else_and_falls_through_to_join() {
    // The false edge and the (here non-taken) fall-through reconverge at the
    // join block, which returns a value defined before the `if`.
    assert_eq!(
        lower_str("fn main() -> int { let x = 5; if x < 3 { return 1; } return x; }"),
        "\
fn main() -> int {
block0:
    %0 = iconst 5
    %1 = iconst 3
    %2 = icmp lt %0, %1
    condbr %2, block1, block2
block1:
    %3 = iconst 1
    ret %3
block2:
    ret %0
}"
    );
}

#[test]
fn both_arms_falling_through_reconverge_at_join() {
    // Neither arm returns; both branch to the join, which returns `x` (defined
    // in the entry, so it dominates the join).
    let air = lower_str(
        "fn main() -> int { let x = 1; if true { let a = 2; } else { let b = 3; } return x; }",
    );
    assert!(air.contains("condbr %"), "expected a condbr:\n{air}");
    // Both arms fall through, so each emits an unconditional `br` to the join.
    assert_eq!(
        air.matches("br block").count(),
        2,
        "two `br` to the join:\n{air}"
    );
    // The join returns `x` (%0), defined in the entry, which dominates it.
    assert!(air.contains("ret %0"), "join returns x:\n{air}");
}

#[test]
fn branch_local_binding_is_not_visible_after_the_if() {
    // `y` is bound inside the then-block's scope and is gone at the join.
    let (_air, diags) = lower_checked("fn main() -> int { if true { let y = 1; } return y; }");
    assert_eq!(diags.len(), 1);
    assert!(diags[0].message.contains("cannot find `y`"));
}

#[test]
fn outer_binding_visible_inside_a_branch() {
    // `x` from the enclosing scope resolves inside the then-block.
    let (_air, diags) =
        lower_checked("fn main() -> int { let x = 7; if true { return x; } return 0; }");
    assert!(diags.is_empty(), "unexpected diagnostics: {diags:?}");
}

#[test]
fn lowers_logical_and_to_a_short_circuit_merge() {
    // `a && b` branches: if `a` is false, skip `b` and merge `false`.
    assert_eq!(
        lower_str("fn main() -> bool { let a = 1 < 2; let b = 3 < 4; return a && b; }"),
        "\
fn main() -> bool {
block0:
    %0 = iconst 1
    %1 = iconst 2
    %2 = icmp lt %0, %1
    %3 = iconst 3
    %4 = iconst 4
    %5 = icmp lt %3, %4
    %7 = bconst false
    condbr %2, block1, block2(%7)
block1:
    br block2(%5)
block2(%6: bool):
    ret %6
}"
    );
}

#[test]
fn lowers_logical_or_short_circuits_on_true() {
    // `a || b`: if `a` is true, merge `true` and skip `b`.
    let air = lower_str("fn main() -> bool { let a = 1 < 2; let b = 3 < 4; return a || b; }");
    assert!(
        air.contains("bconst true"),
        "or short-circuits true:\n{air}"
    );
    // condbr's true edge carries the short-circuit constant to the merge.
    assert!(
        air.contains("condbr %2, block2("),
        "true edge to merge:\n{air}"
    );
}

#[test]
fn lowers_function_parameters_and_calls() {
    assert_eq!(
        lower_str(
            "fn add(a: int, b: int) -> int { return a + b; } \
             fn main() -> int { return add(2, 3); }"
        ),
        "\
fn add(%0: int, %1: int) -> int {
block0:
    %2 = add %0, %1
    ret %2
}

fn main() -> int {
block0:
    %0 = iconst 2
    %1 = iconst 3
    %2 = call add(%0, %1)
    ret %2
}"
    );
}

#[test]
fn parameters_are_bound_in_the_body() {
    let (_air, diags) =
        lower_checked("fn f(x: int) -> int { return x; } fn main() -> int { return 0; }");
    assert!(diags.is_empty(), "unexpected diagnostics: {diags:?}");
}

#[test]
fn call_to_unknown_function_is_a_diagnostic() {
    let (_air, diags) = lower_checked("fn main() -> int { return nope(1); }");
    assert_eq!(diags.len(), 1);
    assert!(diags[0].message.contains("cannot find function `nope`"));
}

#[test]
fn unknown_name_is_a_diagnostic() {
    let (_air, diags) = lower_checked("fn main() -> int { return y; }");
    assert_eq!(diags.len(), 1);
    assert!(diags[0].message.contains("cannot find `y`"));
}

#[test]
fn name_not_visible_in_its_own_initializer() {
    // `x` is not in scope inside its own initializer.
    let (_air, diags) = lower_checked("fn main() -> int { let x = x; return x; }");
    assert_eq!(diags.len(), 1);
    assert!(diags[0].message.contains("cannot find `x`"));
}

#[test]
fn lowering_keeps_each_function_name_and_return_type_in_order() {
    let mut map = SourceMap::new();
    let file = map.add_file(
        "t.ae",
        "fn f(x: int) -> bool { return x < 1; } fn g() -> int { return y; } fn main() -> int { return 0; }",
    );
    let tokens = tokenize(map.file(file)).tokens;
    let program = parse(map.file(file), &tokens).program;
    let LowerResult {
        module,
        diagnostics,
    } = lower(&program);
    assert_eq!(diagnostics.len(), 1);
    let sigs: Vec<(&str, Type)> = module
        .functions()
        .iter()
        .map(|f| (f.name(), f.return_type()))
        .collect();
    assert_eq!(sigs, vec![("f", Type::Bool), ("g", Type::Int), ("main", Type::Int)]);
}

#[test]
fn try_lower_lowers_programs_within_the_id_limits() {
    let mut map = SourceMap::new();
    let file = map.add_file("t.ae", "fn main() -> int { let x = 1; return x + 2; }");
    let tokens = tokenize(map.file(file)).tokens;
    let program = parse(map.file(file), &tokens).program;
    let tried = try_lower(&program).expect("a small program fits");
    let direct = lower(&program);
    assert_eq!(print(&tried.module), print(&direct.module));
    assert!(tried.diagnostics.is_empty());
}

use aether::air_verify::verify;
use aether::interp::{interpret, RunError, RunValue};
use aether::lexer::tokenize;
use aether::lower::lower;
use aether::parser::parse;
use aether::source::SourceMap;

/// Parse, lower, verify, and interpret `src`, returning the runtime value.
fn run_val(src: &str) -> Result<RunValue, RunError> {
    let mut map = SourceMap::new();
    let file = map.add_file("t.ae", src);
    let tokens = tokenize(map.file(file)).tokens;
    let program = parse(map.file(file), &tokens).program;
    let result = lower(&program);
    assert!(result.diagnostics.is_empty(), "unexpected lowering errors");
    assert!(
        verify(&result.module).is_empty(),
        "test module failed verification"
    );
    interpret(&result.module)
}

/// Like [`run_val`], but for programs whose `main` returns an `int`.
fn run_str(src: &str) -> Result<i64, RunError> {
    run_val(src).map(|v| match v {
        RunValue::Int(n) => n,
        RunValue::Bool(b) => panic!("expected an int result, got bool {b}"),
    })
}

#[test]
fn evaluates_arithmetic_with_precedence() {
    assert_eq!(run_str("fn main() -> int { return 1 + 2 * 3; }"), Ok(7));
}

#[test]
fn respects_parentheses() {
    assert_eq!(run_str("fn main() -> int { return (1 + 2) * 3; }"), Ok(9));
}

#[test]
fn evaluates_unary_negation() {
    assert_eq!(run_str("fn main() -> int { return -5 + 8; }"), Ok(3));
}

#[test]
fn interp_subtraction_is_left_associative() {
    assert_eq!(run_str("fn main() -> int { return 10 - 3 - 2; }"), Ok(5));
}

#[test]
fn integer_division_truncates_toward_zero() {
    assert_eq!(run_str("fn main() -> int { return 7 / 2; }"), Ok(3));
}

#[test]
fn division_by_zero_is_a_runtime_error() {
    assert!(matches!(
        run_str("fn main() -> int { return 1 / 0; }"),
        Err(RunError::DivisionByZero { .. })
    ));
}

#[test]
fn missing_main_is_no_entry_point() {
    assert_eq!(
        run_str("fn other() -> int { return 1; }"),
        Err(RunError::NoEntryPoint)
    );
}

#[test]
fn arithmetic_overflow_wraps() {
    // i64::MAX + 1 wraps to i64::MIN.
    let src = format!("fn main() -> int {{ return {} + 1; }}", i64::MAX);
    assert_eq!(run_str(&src), Ok(i64::MIN));
}

#[test]
fn evaluates_local_variables() {
    assert_eq!(
        run_str("fn main() -> int { let x = 1 + 2; return x * x; }"),
        Ok(9)
    );
    assert_eq!(
        run_str("fn main() -> int { let x = 10; let y = x - 3; return x * y; }"),
        Ok(70)
    );
}

#[test]
fn evaluates_boolean_literals() {
    assert_eq!(
        run_val("fn main() -> bool { return true; }"),
        Ok(RunValue::Bool(true))
    );
    assert_eq!(
        run_val("fn main() -> bool { return false; }"),
        Ok(RunValue::Bool(false))
    );
}

#[test]
fn evaluates_relational_comparisons() {
    assert_eq!(
        run_val("fn main() -> bool { return 3 < 5; }"),
        Ok(RunValue::Bool(true))
    );
    assert_eq!(
        run_val("fn main() -> bool { return 5 <= 5; }"),
        Ok(RunValue::Bool(true))
    );
    assert_eq!(
        run_val("fn main() -> bool { return 5 > 7; }"),
        Ok(RunValue::Bool(false))
    );
    assert_eq!(
        run_val("fn main() -> bool { return 2 + 2 >= 5; }"),
        Ok(RunValue::Bool(false))
    );
}

#[test]
fn evaluates_equality_over_both_types() {
    assert_eq!(
        run_val("fn main() -> bool { return 6 * 7 == 42; }"),
        Ok(RunValue::Bool(true))
    );
    assert_eq!(
        run_val("fn main() -> bool { return 1 != 2; }"),
        Ok(RunValue::Bool(true))
    );
    // Equality also works on booleans.
    assert_eq!(
        run_val("fn main() -> bool { return true == true; }"),
        Ok(RunValue::Bool(true))
    );
    assert_eq!(
        run_val("fn main() -> bool { let b = 3 < 5; return b == false; }"),
        Ok(RunValue::Bool(false))
    );
}

#[test]
fn evaluates_logical_not() {
    assert_eq!(
        run_val("fn main() -> bool { return !(1 < 2); }"),
        Ok(RunValue::Bool(false))
    );
    assert_eq!(
        run_val("fn main() -> bool { return !false; }"),
        Ok(RunValue::Bool(true))
    );
}

#[test]
fn boolean_locals_flow_through() {
    // A bool-typed `let` binding is reused like any other SSA value.
    assert_eq!(
        run_val("fn main() -> bool { let ok = 10 >= 10; return ok; }"),
        Ok(RunValue::Bool(true))
    );
}

#[test]
fn if_else_takes_the_true_branch() {
    assert_eq!(
        run_str("fn main() -> int { if 1 < 2 { return 10; } else { return 20; } }"),
        Ok(10)
    );
}

#[test]
fn if_else_takes_the_false_branch() {
    assert_eq!(
        run_str("fn main() -> int { if 2 < 1 { return 10; } else { return 20; } }"),
        Ok(20)
    );
}

#[test]
fn if_without_else_falls_through() {
    // Condition false: skip the then-block, fall through to the trailing return.
    assert_eq!(
        run_str("fn main() -> int { let x = 5; if x < 0 { return 1; } return x; }"),
        Ok(5)
    );
    // Condition true: take the then-block.
    assert_eq!(
        run_str("fn main() -> int { let x = -5; if x < 0 { return 1; } return x; }"),
        Ok(1)
    );
}

#[test]
fn else_if_chain_selects_the_right_arm() {
    let program = |n: i64| {
        format!(
            "fn main() -> int {{ let n = {n}; \
             if n < 0 {{ return 1; }} \
             else if n == 0 {{ return 2; }} \
             else {{ return 3; }} }}"
        )
    };
    assert_eq!(run_str(&program(-4)), Ok(1));
    assert_eq!(run_str(&program(0)), Ok(2));
    assert_eq!(run_str(&program(7)), Ok(3));
}

#[test]
fn value_defined_before_if_is_usable_after() {
    // `x` (defined in the entry) dominates the join and is returned there.
    assert_eq!(
        run_str(
            "fn main() -> int { let x = 42; if true { let y = 1; } else { let z = 2; } return x; }"
        ),
        Ok(42)
    );
}

#[test]
fn logical_and_or_truth_tables() {
    assert_eq!(
        run_val("fn main() -> bool { return true && true; }"),
        Ok(RunValue::Bool(true))
    );
    assert_eq!(
        run_val("fn main() -> bool { return true && false; }"),
        Ok(RunValue::Bool(false))
    );
    assert_eq!(
        run_val("fn main() -> bool { return false || true; }"),
        Ok(RunValue::Bool(true))
    );
    assert_eq!(
        run_val("fn main() -> bool { return false || false; }"),
        Ok(RunValue::Bool(false))
    );
}

#[test]
fn logical_operators_combine_comparisons() {
    assert_eq!(
        run_val("fn main() -> bool { let x = 5; return x > 0 && x < 10; }"),
        Ok(RunValue::Bool(true))
    );
    assert_eq!(
        run_val("fn main() -> bool { let x = 42; return x < 0 || x == 42; }"),
        Ok(RunValue::Bool(true))
    );
}

#[test]
fn and_short_circuits_past_division_by_zero() {
    // `false && …` must not evaluate the right operand, so the `10 / 0` in it
    // is never executed and raises no runtime error.
    assert_eq!(
        run_val("fn main() -> bool { return false && (10 / 0 == 0); }"),
        Ok(RunValue::Bool(false))
    );
}

#[test]
fn or_short_circuits_past_division_by_zero() {
    // `true || …` likewise skips the right operand.
    assert_eq!(
        run_val("fn main() -> bool { return true || (10 / 0 == 0); }"),
        Ok(RunValue::Bool(true))
    );
}

#[test]
fn and_does_evaluate_the_right_operand_when_needed() {
    // When the left operand is true, `&&` evaluates the right — and here that
    // right operand *does* divide by zero, so it is a runtime error.
    assert!(matches!(
        run_val("fn main() -> bool { return true && (10 / 0 == 0); }"),
        Err(RunError::DivisionByZero { .. })
    ));
}

#[test]
fn nested_ifs_execute_correctly() {
    let src = "fn main() -> int { \
         let a = 3; let b = 4; \
         if a < b { \
             if a == 3 { return 100; } else { return 101; } \
         } else { \
             return 200; \
         } }";
    assert_eq!(run_str(src), Ok(100));
}

#[test]
fn recursive_calls_compute_factorial() {
    assert_eq!(
        run_str(
            "fn fact(n: int) -> int { if n <= 1 { return 1; } return n * fact(n - 1); } \
             fn main() -> int { return fact(5); }"
        ),
        Ok(120)
    );
}

#[test]
fn division_by_zero_reports_its_span() {
    let err = run_str("fn main() -> int { return 1 / 0; }").unwrap_err();
    match err {
        RunError::DivisionByZero { span } => {
            assert_eq!(span.lo.0, 26);
            assert_eq!(span.hi.0, 31);
        }
        other => panic!("expected a division by zero, got {other:?}"),
    }
}

#[test]
fn minimum_divided_by_minus_one_wraps() {
    let src = format!("fn main() -> int {{ return ({} - 1) / -1; }}", -i64::MAX);
    assert_eq!(run_str(&src), Ok(i64::MIN));
}

#[test]
fn negative_division_truncates_toward_zero() {
    assert_eq!(run_str("fn main() -> int { return -7 / 2; }"), Ok(-3));
    assert_eq!(run_str("fn main() -> int { return 7 / -2; }"), Ok(-3));
}

#[test]
fn run_values_print_as_text() {
    assert_eq!(RunValue::Int(-42).to_string(), "-42");
    assert_eq!(RunValue::Bool(true).to_string(), "true");
}

use aether::air::{
    BinaryOp, Block, BranchTarget, CmpOp, Function, InstData, Module, Terminator, Type, UnaryOp,
    Value,
};
use aether::air_verify::verify;
use aether::source::{BytePos, SourceMap, Span};

fn span() -> Span {
    let mut map = SourceMap::new();
    let file = map.add_file("t.ae", "");
    Span::new(file, BytePos(0), BytePos(0))
}

fn module_with(f: Function) -> Module {
    let mut m = Module::new();
    m.add_function(f);
    m
}

#[test]
fn valid_function_verifies() {
    let s = span();
    let mut f = Function::new("main", Type::Int);
    let entry = f.entry();
    let a = f.push_inst(entry, InstData::IConst(1), Type::Int, s);
    let b = f.push_inst(entry, InstData::IConst(2), Type::Int, s);
    let sum = f.push_inst(
        entry,
        InstData::Binary {
            op: BinaryOp::Add,
            lhs: a,
            rhs: b,
        },
        Type::Int,
        s,
    );
    f.set_terminator(entry, Terminator::Ret(sum));

    assert!(verify(&module_with(f)).is_empty());
}

#[test]
fn missing_terminator_is_caught() {
    let s = span();
    let mut f = Function::new("main", Type::Int);
    let entry = f.entry();
    f.push_inst(entry, InstData::IConst(1), Type::Int, s);
    // Deliberately no terminator.

    let errors = verify(&module_with(f));
    assert_eq!(errors.len(), 1);
    assert!(errors[0].message.contains("no terminator"));
}

#[test]
fn ret_of_undefined_value_is_caught() {
    let mut f = Function::new("main", Type::Int);
    let entry = f.entry();
    // Return a value that was never defined.
    f.set_terminator(entry, Terminator::Ret(Value::from_index(0)));

    let errors = verify(&module_with(f));
    assert_eq!(errors.len(), 1);
    assert!(errors[0].message.contains("undefined value"));
}

#[test]
fn valid_boolean_function_verifies() {
    // fn f() -> bool { %0 = iconst 1; %1 = iconst 2; %2 = icmp lt %0,%1;
    //                  %3 = not %2; ret %3 }
    let s = span();
    let mut f = Function::new("f", Type::Bool);
    let entry = f.entry();
    let a = f.push_inst(entry, InstData::IConst(1), Type::Int, s);
    let b = f.push_inst(entry, InstData::IConst(2), Type::Int, s);
    let lt = f.push_inst(
        entry,
        InstData::ICmp {
            op: CmpOp::Lt,
            lhs: a,
            rhs: b,
        },
        Type::Bool,
        s,
    );
    let neg = f.push_inst(
        entry,
        InstData::Unary {
            op: UnaryOp::Not,
            operand: lt,
        },
        Type::Bool,
        s,
    );
    f.set_terminator(entry, Terminator::Ret(neg));

    assert!(verify(&module_with(f)).is_empty());
}

#[test]
fn relational_comparison_on_bool_operand_is_caught() {
    // `icmp lt` requires integer operands; feeding it a bool is a type error.
    let s = span();
    let mut f = Function::new("f", Type::Bool);
    let entry = f.entry();
    let t = f.push_inst(entry, InstData::BConst(true), Type::Bool, s);
    let bad = f.push_inst(
        entry,
        InstData::ICmp {
            op: CmpOp::Lt,
            lhs: t,
            rhs: t,
        },
        Type::Bool,
        s,
    );
    f.set_terminator(entry, Terminator::Ret(bad));

    let errors = verify(&module_with(f));
    assert!(
        errors.iter().any(|e| e.message.contains("expects a int")),
        "expected an operand-type error, got: {errors:?}"
    );
}

#[test]
fn equality_on_mismatched_types_is_caught() {
    // `1 == true` compares an int with a bool.
    let s = span();
    let mut f = Function::new("f", Type::Bool);
    let entry = f.entry();
    let i = f.push_inst(entry, InstData::IConst(1), Type::Int, s);
    let t = f.push_inst(entry, InstData::BConst(true), Type::Bool, s);
    let bad = f.push_inst(
        entry,
        InstData::ICmp {
            op: CmpOp::Eq,
            lhs: i,
            rhs: t,
        },
        Type::Bool,
        s,
    );
    f.set_terminator(entry, Terminator::Ret(bad));

    let errors = verify(&module_with(f));
    assert!(
        errors.iter().any(|e| e.message.contains("differing types")),
        "expected a differing-types error, got: {errors:?}"
    );
}

#[test]
fn logical_not_on_int_is_caught() {
    let s = span();
    let mut f = Function::new("f", Type::Bool);
    let entry = f.entry();
    let i = f.push_inst(entry, InstData::IConst(1), Type::Int, s);
    let bad = f.push_inst(
        entry,
        InstData::Unary {
            op: UnaryOp::Not,
            operand: i,
        },
        Type::Bool,
        s,
    );
    f.set_terminator(entry, Terminator::Ret(bad));

    let errors = verify(&module_with(f));
    assert!(
        errors.iter().any(|e| e.message.contains("expects a bool")),
        "expected a bool-operand error, got: {errors:?}"
    );
}

#[test]
fn returning_bool_from_int_function_is_caught() {
    // fn f() -> int { ret (true) } — result type disagrees with return type.
    let s = span();
    let mut f = Function::new("f", Type::Int);
    let entry = f.entry();
    let t = f.push_inst(entry, InstData::BConst(true), Type::Bool, s);
    f.set_terminator(entry, Terminator::Ret(t));

    let errors = verify(&module_with(f));
    assert!(
        errors
            .iter()
            .any(|e| e.message.contains("does not match return type")),
        "expected a return-type error, got: {errors:?}"
    );
}

#[test]
fn valid_branching_function_verifies() {
    // fn f() -> int { %0=true; %1=42; condbr %0, then, else;
    //                 then: br join; else: br join; join: ret %1 }
    let s = span();
    let mut f = Function::new("f", Type::Int);
    let entry = f.entry();
    let cond = f.push_inst(entry, InstData::BConst(true), Type::Bool, s);
    let v = f.push_inst(entry, InstData::IConst(42), Type::Int, s);
    let then_b = f.append_block();
    let else_b = f.append_block();
    let join = f.append_block();
    f.set_terminator(
        entry,
        Terminator::CondBr {
            cond,
            then_branch: BranchTarget::new(then_b),
            else_branch: BranchTarget::new(else_b),
        },
    );
    f.set_terminator(then_b, Terminator::Br(BranchTarget::new(join)));
    f.set_terminator(else_b, Terminator::Br(BranchTarget::new(join)));
    // `%1` is defined in the entry, which dominates the join — a legal use.
    f.set_terminator(join, Terminator::Ret(v));

    assert!(verify(&module_with(f)).is_empty());
}

#[test]
fn use_of_value_not_dominating_is_caught() {
    // A value defined only in the `then` block is used in the join, which the
    // `then` block does not dominate (the false edge skips it).
    let s = span();
    let mut f = Function::new("f", Type::Int);
    let entry = f.entry();
    let cond = f.push_inst(entry, InstData::BConst(true), Type::Bool, s);
    let then_b = f.append_block();
    let join = f.append_block();
    f.set_terminator(
        entry,
        Terminator::CondBr {
            cond,
            then_branch: BranchTarget::new(then_b),
            else_branch: BranchTarget::new(join),
        },
    );
    let only_in_then = f.push_inst(then_b, InstData::IConst(7), Type::Int, s);
    f.set_terminator(then_b, Terminator::Br(BranchTarget::new(join)));
    f.set_terminator(join, Terminator::Ret(only_in_then));

    let errors = verify(&module_with(f));
    assert!(
        errors
            .iter()
            .any(|e| e.message.contains("does not dominate")),
        "expected a dominance error, got: {errors:?}"
    );
}

#[test]
fn condbr_on_non_bool_condition_is_caught() {
    let s = span();
    let mut f = Function::new("f", Type::Int);
    let entry = f.entry();
    let n = f.push_inst(entry, InstData::IConst(1), Type::Int, s);
    let then_b = f.append_block();
    let else_b = f.append_block();
    f.set_terminator(
        entry,
        Terminator::CondBr {
            cond: n, // an int, not a bool
            then_branch: BranchTarget::new(then_b),
            else_branch: BranchTarget::new(else_b),
        },
    );
    f.set_terminator(then_b, Terminator::Ret(n));
    f.set_terminator(else_b, Terminator::Ret(n));

    let errors = verify(&module_with(f));
    assert!(
        errors.iter().any(|e| e.message.contains("must be bool")),
        "expected a condition-type error, got: {errors:?}"
    );
}

#[test]
fn branch_to_nonexistent_block_is_caught() {
    let s = span();
    let mut f = Function::new("f", Type::Int);
    let entry = f.entry();
    let v = f.push_inst(entry, InstData::IConst(1), Type::Int, s);
    // Branch to a block index that does not exist.
    f.set_terminator(entry, Terminator::Br(BranchTarget::new(Block::from_index(9))));
    let _ = v;

    let errors = verify(&module_with(f));
    assert!(
        errors.iter().any(|e| e.message.contains("nonexistent")),
        "expected a bad-target error, got: {errors:?}"
    );
}

#[test]
fn unreachable_block_is_not_verified() {
    // A dead block that is never branched to is ignored (its missing
    // terminator and undominated uses do not matter).
    let s = span();
    let mut f = Function::new("f", Type::Int);
    let entry = f.entry();
    let v = f.push_inst(entry, InstData::IConst(1), Type::Int, s);
    f.set_terminator(entry, Terminator::Ret(v));
    // Append an unreachable, unterminated block.
    let _dead = f.append_block();

    assert!(verify(&module_with(f)).is_empty());
}

#[test]
fn operand_used_before_definition_is_caught() {
    let s = span();
    let mut f = Function::new("main", Type::Int);
    let entry = f.entry();
    let a = f.push_inst(entry, InstData::IConst(1), Type::Int, s);
    // Reference a value index that is not defined.
    let bad = f.push_inst(
        entry,
        InstData::Binary {
            op: BinaryOp::Add,
            lhs: a,
            rhs: Value::from_index(9),
        },
        Type::Int,
        s,
    );
    f.set_terminator(entry, Terminator::Ret(bad));

    let errors = verify(&module_with(f));
    assert!(errors.iter().any(|e| e.message.contains("undefined value")));
}

#[test]
fn branch_argument_count_must_match_the_target_parameters() {
    let s = span();
    let mut f = Function::new("f", Type::Int);
    let entry = f.entry();
    let join = f.append_block();
    let p = f.append_block_param(join, Type::Int, s);
    f.set_terminator(entry, Terminator::Br(BranchTarget::new(join)));
    f.set_terminator(join, Terminator::Ret(p));
    let errors = verify(&module_with(f));
    assert_eq!(errors.len(), 1);
    assert_eq!(
        errors[0].message,
        "function `f`: block0: branch to block1 passes 0 arguments but it takes 1"
    );
}

#[test]
fn branch_argument_types_must_match_the_target_parameters() {
    let s = span();
    let mut f = Function::new("f", Type::Int);
    let entry = f.entry();
    let join = f.append_block();
    let p = f.append_block_param(join, Type::Int, s);
    let t = f.push_inst(entry, InstData::BConst(true), Type::Bool, s);
    f.set_terminator(
        entry,
        Terminator::Br(BranchTarget::with_args(join, vec![t])),
    );
    f.set_terminator(join, Terminator::Ret(p));
    let errors = verify(&module_with(f));
    assert_eq!(errors.len(), 1);
    assert_eq!(
        errors[0].message,
        "function `f`: block0: argument 0 to block1 has type bool but the parameter has type int"
    );
}

#[test]
fn block_parameters_define_values_in_their_block() {
    let s = span();
    let mut f = Function::new("f", Type::Int);
    let entry = f.entry();
    let join = f.append_block();
    let p = f.append_block_param(join, Type::Int, s);
    let c = f.push_inst(entry, InstData::IConst(1), Type::Int, s);
    f.set_terminator(
        entry,
        Terminator::Br(BranchTarget::with_args(join, vec![c])),
    );
    f.set_terminator(join, Terminator::Ret(p));
    assert!(verify(&module_with(f)).is_empty());
}

#[test]
fn calls_are_checked_against_the_callee_signature() {
    let s = span();
    let mut add = Function::new("add", Type::Int);
    let a = add.append_param(Type::Int, s);
    let entry = add.entry();
    add.set_terminator(entry, Terminator::Ret(a));

    let mut main = Function::new("main", Type::Int);
    let m_entry = main.entry();
    let t = main.push_inst(m_entry, InstData::BConst(true), Type::Bool, s);
    let bad_type = main.push_inst(
        m_entry,
        InstData::Call {
            callee: "add".to_string(),
            args: vec![t],
        },
        Type::Int,
        s,
    );
    let bad_arity = main.push_inst(
        m_entry,
        InstData::Call {
            callee: "add".to_string(),
            args: vec![],
        },
        Type::Int,
        s,
    );
    let unknown = main.push_inst(
        m_entry,
        InstData::Call {
            callee: "nope".to_string(),
            args: vec![],
        },
        Type::Int,
        s,
    );
    let _ = (bad_type, bad_arity);
    main.set_terminator(m_entry, Terminator::Ret(unknown));

    let mut m = Module::new();
    m.add_function(add);
    m.add_function(main);
    let messages: Vec<String> = verify(&m).into_iter().map(|e| e.message).collect();
    assert_eq!(
        messages,
        vec![
            "function `main`: %1 expects a int operand but %0 has type bool".to_string(),
            "function `main`: %2 passes 0 arguments to `add`, which takes 1".to_string(),
            "function `main`: %3 calls unknown function `nope`".to_string(),
        ]
    );
}

/// A function returning a `bool` constant from an `int` function (one error),
/// or, when `terminate` is false, leaving its block open (one error).
fn faulty(name: &str, terminate: bool) -> Function {
    let s = span();
    let mut f = Function::new(name, Type::Int);
    let entry = f.entry();
    let c = f.push_inst(entry, InstData::BConst(true), Type::Bool, s);
    if terminate {
        f.set_terminator(entry, Terminator::Ret(c));
    }
    f
}

#[test]
fn module_verifies_as_its_functions_do_alone() {
    let mut m = Module::new();
    m.add_function(faulty("f", true));
    m.add_function(faulty("g", false));
    let all: Vec<String> = verify(&m).into_iter().map(|e| e.message).collect();
    let mut alone: Vec<String> = Vec::new();
    for (name, terminate) in [("f", true), ("g", false)] {
        alone.extend(verify(&module_with(faulty(name, terminate))).into_iter().map(|e| e.message));
    }
    assert_eq!(all, alone);
    assert_eq!(all.len(), 2);
    assert!(all[0].starts_with("function `f`: "));
    assert_eq!(all[1], "function `g`: block0 has no terminator");
}

#[test]
fn a_call_verified_alone_names_an_unknown_function() {
    let s = span();
    let mut callee = Function::new("one", Type::Int);
    let e = callee.entry();
    let c = callee.push_inst(e, InstData::IConst(1), Type::Int, s);
    callee.set_terminator(e, Terminator::Ret(c));
    let mut caller = Function::new("main", Type::Int);
    let e = caller.entry();
    let r = caller.push_inst(
        e,
        InstData::Call {
            callee: "one".to_string(),
            args: Vec::new(),
        },
        Type::Int,
        s,
    );
    caller.set_terminator(e, Terminator::Ret(r));
    let alone = verify(&module_with(caller.clone()));
    let mut m = Module::new();
    m.add_function(caller);
    m.add_function(callee);
    assert!(verify(&m).is_empty());
    assert_eq!(alone.len(), 1);
    assert_eq!(alone[0].message, "function `main`: %0 calls unknown function `one`");
}

use aether::air::{BinaryOp, BranchTarget, CmpOp, Function, InstData, Module, Terminator, Type, UnaryOp};
use aether::air_print::print;
use aether::source::{BytePos, SourceMap, Span};

fn dummy_span() -> Span {
    let mut map = SourceMap::new();
    let file = map.add_file("t.ae", "");
    Span::new(file, BytePos(0), BytePos(0))
}

#[test]
fn prints_boolean_and_comparison_instructions() {
    let span = dummy_span();
    let mut f = Function::new("f", Type::Bool);
    let entry = f.entry();
    let a = f.push_inst(entry, InstData::IConst(1), Type::Int, span);
    let b = f.push_inst(entry, InstData::IConst(2), Type::Int, span);
    let lt = f.push_inst(
        entry,
        InstData::ICmp {
            op: CmpOp::Lt,
            lhs: a,
            rhs: b,
        },
        Type::Bool,
        span,
    );
    let neg = f.push_inst(
        entry,
        InstData::Unary {
            op: UnaryOp::Not,
            operand: lt,
        },
        Type::Bool,
        span,
    );
    f.set_terminator(entry, Terminator::Ret(neg));

    let mut module = Module::new();
    module.add_function(f);

    assert_eq!(
        print(&module),
        "\
fn f() -> bool {
block0:
    %0 = iconst 1
    %1 = iconst 2
    %2 = icmp lt %0, %1
    %3 = not %2
    ret %3
}"
    );
}

#[test]
fn prints_branch_terminators_and_multiple_blocks() {
    let span = dummy_span();
    let mut f = Function::new("f", Type::Int);
    let entry = f.entry();
    let cond = f.push_inst(entry, InstData::BConst(true), Type::Bool, span);
    let then_b = f.append_block();
    let else_b = f.append_block();
    let join = f.append_block();
    // The join takes a parameter — the value merged from the two arms.
    let param = f.append_block_param(join, Type::Int, span);
    f.set_terminator(
        entry,
        Terminator::CondBr {
            cond,
            then_branch: BranchTarget::new(then_b),
            else_branch: BranchTarget::new(else_b),
        },
    );
    let ten = f.push_inst(then_b, InstData::IConst(10), Type::Int, span);
    f.set_terminator(
        then_b,
        Terminator::Br(BranchTarget::with_args(join, vec![ten])),
    );
    let twenty = f.push_inst(else_b, InstData::IConst(20), Type::Int, span);
    f.set_terminator(
        else_b,
        Terminator::Br(BranchTarget::with_args(join, vec![twenty])),
    );
    f.set_terminator(join, Terminator::Ret(param));

    let mut module = Module::new();
    module.add_function(f);

    assert_eq!(
        print(&module),
        "\
fn f() -> int {
block0:
    %0 = bconst true
    condbr %0, block1, block2
block1:
    %2 = iconst 10
    br block3(%2)
block2:
    %3 = iconst 20
    br block3(%3)
block3(%1: int):
    ret %1
}"
    );
}

#[test]
fn prints_function_parameters_and_calls() {
    let span = dummy_span();
    // fn add(%0: int, %1: int) -> int { %2 = add %0, %1; ret %2 }
    let mut add = Function::new("add", Type::Int);
    let a = add.append_param(Type::Int, span);
    let b = add.append_param(Type::Int, span);
    let entry = add.entry();
    let sum = add.push_inst(
        entry,
        InstData::Binary {
            op: BinaryOp::Add,
            lhs: a,
            rhs: b,
        },
        Type::Int,
        span,
    );
    add.set_terminator(entry, Terminator::Ret(sum));

    // fn main() -> int { %0 = 2; %1 = 3; %2 = call add(%0, %1); ret %2 }
    let mut main = Function::new("main", Type::Int);
    let m_entry = main.entry();
    let two = main.push_inst(m_entry, InstData::IConst(2), Type::Int, span);
    let three = main.push_inst(m_entry, InstData::IConst(3), Type::Int, span);
    let call = main.push_inst(
        m_entry,
        InstData::Call {
            callee: "add".to_string(),
            args: vec![two, three],
        },
        Type::Int,
        span,
    );
    main.set_terminator(m_entry, Terminator::Ret(call));

    let mut module = Module::new();
    module.add_function(add);
    module.add_function(main);

    assert_eq!(
        print(&module),
        "\
fn add(%0: int, %1: int) -> int {
block0:
    %2 = add %0, %1
    ret %2
}

fn main() -> int {
block0:
    %0 = iconst 2
    %1 = iconst 3
    %2 = call add(%0, %1)
    ret %2
}"
    );
}

#[test]
fn prints_a_small_function() {
    let mut map = SourceMap::new();
    let file = map.add_file("t.ae", "");
    let span = Span::new(file, BytePos(0), BytePos(0));

    let mut f = Function::new("main", Type::Int);
    let entry = f.entry();
    let a = f.push_inst(entry, InstData::IConst(1), Type::Int, span);
    let b = f.push_inst(entry, InstData::IConst(2), Type::Int, span);
    let m = f.push_inst(
        entry,
        InstData::Binary {
            op: BinaryOp::Mul,
            lhs: a,
            rhs: b,
        },
        Type::Int,
        span,
    );
    f.set_terminator(entry, Terminator::Ret(m));

    let mut module = Module::new();
    module.add_function(f);

    assert_eq!(
        print(&module),
        "\
fn main() -> int {
block0:
    %0 = iconst 1
    %1 = iconst 2
    %2 = mul %0, %1
    ret %2
}"
    );
}

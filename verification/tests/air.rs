use aether::air::{BinaryOp, BranchTarget, Function, InstData, Module, Terminator, Type, ValueDef};
use aether::source::{BytePos, FileId, SourceMap, Span};

fn dummy_span() -> Span {
    let mut map = SourceMap::new();
    let file: FileId = map.add_file("t.ae", "");
    Span::new(file, BytePos(0), BytePos(0))
}

#[test]
fn build_a_function() {
    let span = dummy_span();
    let mut f = Function::new("main", Type::Int);
    let entry = f.entry();
    let a = f.push_inst(entry, InstData::IConst(1), Type::Int, span);
    let b = f.push_inst(entry, InstData::IConst(2), Type::Int, span);
    let sum = f.push_inst(
        entry,
        InstData::Binary {
            op: BinaryOp::Add,
            lhs: a,
            rhs: b,
        },
        Type::Int,
        span,
    );
    f.set_terminator(entry, Terminator::Ret(sum));

    assert_eq!(f.value_count(), 3);
    assert_eq!(a.index(), 0);
    assert_eq!(sum.index(), 2);
    assert_eq!(f.value_type(sum), Type::Int);
    assert_eq!(f.block(entry).body, vec![a, b, sum]);
    assert_eq!(f.block(entry).terminator, Some(Terminator::Ret(sum)));
}

#[test]
fn block_parameters_are_values() {
    let span = dummy_span();
    let mut f = Function::new("f", Type::Int);
    let entry = f.entry();
    let join = f.append_block();
    let p = f.append_block_param(join, Type::Int, span);
    let c = f.push_inst(entry, InstData::IConst(1), Type::Int, span);
    f.set_terminator(
        entry,
        Terminator::Br(BranchTarget::with_args(join, vec![c])),
    );
    f.set_terminator(join, Terminator::Ret(p));

    // The parameter is a value defined as the 0th param of `join`.
    assert_eq!(f.value_type(p), Type::Int);
    assert_eq!(
        f.value_def(p),
        &ValueDef::Param {
            block: join,
            index: 0
        }
    );
    assert_eq!(f.block(join).params, vec![p]);
    // The predecessor passes `c` as the join's argument.
    assert_eq!(
        f.block(entry).terminator,
        Some(Terminator::Br(BranchTarget::with_args(join, vec![c])))
    );
}

#[test]
fn module_holds_functions() {
    let mut m = Module::new();
    m.add_function(Function::new("a", Type::Int));
    m.add_function(Function::new("b", Type::Int));
    assert_eq!(m.functions().len(), 2);
    assert_eq!(m.functions()[1].name, "b");
}

#[test]
fn parameters_are_entry_block_parameters_in_order() {
    let mut map = SourceMap::new();
    let file = map.add_file("t.ae", "");
    let s = Span::new(file, BytePos(0), BytePos(0));
    let mut f = Function::new("f", Type::Int);
    let a = f.append_param(Type::Int, s);
    let b = f.append_param(Type::Bool, s);
    assert_eq!((a.index(), b.index()), (0, 1));
    assert_eq!(f.params(), &[a, b]);
    assert_eq!(f.block(f.entry()).params, vec![a, b]);
    assert_eq!(f.value_type(b), Type::Bool);
}

//! Lowering from the abstract syntax tree to AIR.
//!
//! Lowering is a post-order walk that emits one AIR instruction per
//! expression node, producing SSA. `if` statements become conditional
//! branches to `then`/`else` blocks that reconverge at a join block (created
//! only when some arm falls through), and `&&`/`||` short-circuit through a
//! merge block whose `bool` parameter carries the result. Names resolve
//! through a stack of lexical scopes, innermost first; calls are typed by a
//! signature table in which the first declaration of a name wins. An unknown
//! name or function is reported and lowered to the constant `0`.
//!
//! The meaning of lowering is stated as a state transformer over the views:
//! the function being built, the scope stack, the current block and the
//! diagnostics reported so far.

use vstd::prelude::*;
use crate::air::{
    BinaryOp, Block, BranchTarget, BranchTargetV, CmpOp, Function, FunctionV, InstData, InstDataV,
    Module, Terminator, TerminatorV, Type, UnaryOp, Value,
};
use crate::ast::{
    BinOp, ElseBranch, ElseV, Expr, ExprV, FnDecl, FnDeclV, IfStmt, IfStmtV, Item, Program, Stmt,
    StmtV, UnOp,
};
use crate::diagnostics::{diags_view, error_with_primary, Diagnostic, DiagnosticV};
use crate::source::Span;
use crate::text::str_eq;

verus! {

// ---------------------------------------------------------------------------
// Types, signatures and scopes.

/// The AIR type an AST type name denotes: `bool`, or `int` for any other name.
pub open spec fn type_of_name(name: Seq<char>) -> Type {
    if name == "bool"@ {
        Type::Bool
    } else {
        Type::Int
    }
}

/// The signature table of a program: each function's name and return type,
/// in declaration order.
pub open spec fn signatures(items: Seq<FnDeclV>) -> Seq<(Seq<char>, Type)> {
    items.map_values(|d: FnDeclV| (d.name.name, type_of_name(d.return_type.name)))
}

/// The return type of the first entry named `name` at or after index `i`.
pub open spec fn sig_from(sigs: Seq<(Seq<char>, Type)>, name: Seq<char>, i: int) -> Option<Type>
    decreases sigs.len() - i,
{
    if i < 0 || i >= sigs.len() {
        None
    } else if sigs[i].0 == name {
        Some(sigs[i].1)
    } else {
        sig_from(sigs, name, i + 1)
    }
}

/// The return type of the first function named `name`.
pub open spec fn sig_of(sigs: Seq<(Seq<char>, Type)>, name: Seq<char>) -> Option<Type> {
    sig_from(sigs, name, 0)
}

/// The value most recently bound to `name` in one scope.
pub open spec fn lookup_in(scope: Seq<(Seq<char>, Value)>, name: Seq<char>) -> Option<Value>
    decreases scope.len(),
{
    if scope.len() == 0 {
        None
    } else if scope.last().0 == name {
        Some(scope.last().1)
    } else {
        lookup_in(scope.drop_last(), name)
    }
}

/// The value `name` resolves to, searching the innermost scope outward.
pub open spec fn lookup(scopes: Seq<Seq<(Seq<char>, Value)>>, name: Seq<char>) -> Option<Value>
    decreases scopes.len(),
{
    if scopes.len() == 0 {
        None
    } else {
        match lookup_in(scopes.last(), name) {
            Some(v) => Some(v),
            None => lookup(scopes.drop_last(), name),
        }
    }
}

// ---------------------------------------------------------------------------
// The lowering state and its steps.

/// The state of lowering one function.
pub struct LState {
    /// The function built so far.
    pub f: FunctionV,
    /// The scope stack, innermost last.
    pub scopes: Seq<Seq<(Seq<char>, Value)>>,
    /// The block instructions are appended to.
    pub cur: int,
    /// The diagnostics reported so far.
    pub diags: Seq<DiagnosticV>,
}

impl LState {
    /// Append an instruction to the current block; the new value is returned.
    pub open spec fn inst(self, data: InstDataV, ty: Type, span: Span) -> (LState, Value) {
        (
            LState { f: self.f.with_inst(self.cur, data, ty, span), ..self },
            Value(self.f.values.len() as u32),
        )
    }

    /// Report a diagnostic.
    pub open spec fn report(self, d: DiagnosticV) -> LState {
        LState { diags: self.diags.push(d), ..self }
    }

    /// Bind `name` in the innermost scope.
    pub open spec fn bind(self, name: Seq<char>, v: Value) -> LState {
        LState {
            scopes: self.scopes.update(self.scopes.len() - 1, self.scopes.last().push((name, v))),
            ..self
        }
    }

    /// Append an empty block.
    pub open spec fn new_block(self) -> LState {
        LState {
            f: FunctionV {
                blocks: self.f.blocks.push(
                    crate::air::BlockDataV { params: seq![], body: seq![], terminator: None },
                ),
                ..self.f
            },
            ..self
        }
    }

    /// Set the terminator of block `b`.
    pub open spec fn terminate(self, b: int, t: TerminatorV) -> LState {
        LState { f: self.f.with_terminator(b, t), ..self }
    }

    /// Continue in block `b`.
    pub open spec fn goto(self, b: int) -> LState {
        LState { cur: b, ..self }
    }

    /// Enter a new innermost scope.
    pub open spec fn push_scope(self) -> LState {
        LState { scopes: self.scopes.push(seq![]), ..self }
    }

    /// Leave the innermost scope.
    pub open spec fn pop_scope(self) -> LState {
        LState { scopes: self.scopes.drop_last(), ..self }
    }
}

/// The diagnostic for a name that resolves to nothing.
pub open spec fn unknown_name(name: Seq<char>, span: Span) -> DiagnosticV {
    error_with_primary(
        "cannot find `"@ + name + "` in this scope"@,
        span,
        "not found in this scope"@,
    )
}

/// The diagnostic for a call of an unknown function.
pub open spec fn unknown_function(name: Seq<char>, span: Span) -> DiagnosticV {
    error_with_primary("cannot find function `"@ + name + "`"@, span, "not found in this scope"@)
}

/// The AIR instruction for an arithmetic or comparison operator applied to
/// `lhs` and `rhs`, with its result type.
pub open spec fn binary_inst(op: BinOp, lhs: Value, rhs: Value) -> (InstDataV, Type) {
    match op {
        BinOp::Add => (InstDataV::Binary { op: BinaryOp::Add, lhs, rhs }, Type::Int),
        BinOp::Sub => (InstDataV::Binary { op: BinaryOp::Sub, lhs, rhs }, Type::Int),
        BinOp::Mul => (InstDataV::Binary { op: BinaryOp::Mul, lhs, rhs }, Type::Int),
        BinOp::Div => (InstDataV::Binary { op: BinaryOp::Div, lhs, rhs }, Type::Int),
        BinOp::Eq => (InstDataV::ICmp { op: CmpOp::Eq, lhs, rhs }, Type::Bool),
        BinOp::Ne => (InstDataV::ICmp { op: CmpOp::Ne, lhs, rhs }, Type::Bool),
        BinOp::Lt => (InstDataV::ICmp { op: CmpOp::Lt, lhs, rhs }, Type::Bool),
        BinOp::Le => (InstDataV::ICmp { op: CmpOp::Le, lhs, rhs }, Type::Bool),
        BinOp::Gt => (InstDataV::ICmp { op: CmpOp::Gt, lhs, rhs }, Type::Bool),
        _ => (InstDataV::ICmp { op: CmpOp::Ge, lhs, rhs }, Type::Bool),
    }
}

/// The AIR operator and result type of a unary AST operator.
pub open spec fn unary_inst(op: UnOp) -> (UnaryOp, Type) {
    match op {
        UnOp::Neg => (UnaryOp::Neg, Type::Int),
        UnOp::Not => (UnaryOp::Not, Type::Bool),
    }
}

/// Lowering an expression: the state afterwards and the value holding the
/// expression's result.
pub open spec fn lower_expr_s(sigs: Seq<(Seq<char>, Type)>, st: LState, e: ExprV) -> (LState, Value)
    decreases e,
{
    match e {
        ExprV::IntLit { value, span } => st.inst(InstDataV::IConst(value as i64), Type::Int, span),
        ExprV::BoolLit { value, span } => st.inst(InstDataV::BConst(value), Type::Bool, span),
        ExprV::Unary { op, operand, span } => {
            let (s1, v) = lower_expr_s(sigs, st, *operand);
            s1.inst(InstDataV::Unary { op: unary_inst(op).0, operand: v }, unary_inst(op).1, span)
        },
        ExprV::Binary { op, lhs, rhs, span } => if op is And || op is Or {
            // Short circuit: the left operand, then a branch either to the
            // right operand or straight to the merge with the short value.
            let (s1, l) = lower_expr_s(sigs, st, *lhs);
            let pred = s1.cur;
            let rhs_block = s1.f.blocks.len() as int;
            let merge = rhs_block + 1;
            let (s2, param) = (
                LState { f: s1.new_block().new_block().f.with_param(merge, Type::Bool, span), ..s1 },
                Value(s1.f.values.len() as u32),
            );
            let (s3, short) = s2.goto(pred).inst(InstDataV::BConst(op is Or), Type::Bool, span);
            let short_edge = BranchTargetV { block: Block(merge as u32), args: seq![short] };
            let eval_edge = BranchTargetV { block: Block(rhs_block as u32), args: seq![] };
            let s4 = s3.terminate(
                pred,
                if op is And {
                    TerminatorV::CondBr { cond: l, then_branch: eval_edge, else_branch: short_edge }
                } else {
                    TerminatorV::CondBr { cond: l, then_branch: short_edge, else_branch: eval_edge }
                },
            ).goto(rhs_block);
            let (s5, r) = lower_expr_s(sigs, s4, *rhs);
            (
                s5.terminate(
                    s5.cur,
                    TerminatorV::Br(BranchTargetV { block: Block(merge as u32), args: seq![r] }),
                ).goto(merge),
                param,
            )
        } else {
            let (s1, l) = lower_expr_s(sigs, st, *lhs);
            let (s2, r) = lower_expr_s(sigs, s1, *rhs);
            s2.inst(binary_inst(op, l, r).0, binary_inst(op, l, r).1, span)
        },
        ExprV::Name { name, span } => match lookup(st.scopes, name) {
            Some(v) => (st, v),
            None => st.report(unknown_name(name, span)).inst(InstDataV::IConst(0), Type::Int, span),
        },
        ExprV::Call { callee, args, span } => {
            let (s1, vs) = lower_args_s(sigs, st, args);
            match sig_of(sigs, callee) {
                Some(t) => s1.inst(InstDataV::Call { callee, args: vs }, t, span),
                None => s1.report(unknown_function(callee, span)).inst(
                    InstDataV::IConst(0),
                    Type::Int,
                    span,
                ),
            }
        },
        ExprV::Error { span } => st.inst(InstDataV::IConst(0), Type::Int, span),
    }
}

/// Lowering call arguments left to right.
pub open spec fn lower_args_s(sigs: Seq<(Seq<char>, Type)>, st: LState, args: Seq<ExprV>) -> (
    LState,
    Seq<Value>,
)
    decreases args,
{
    if args.len() == 0 {
        (st, seq![])
    } else {
        let (s1, vs) = lower_args_s(sigs, st, args.drop_last());
        let (s2, v) = lower_expr_s(sigs, s1, args.last());
        (s2, vs.push(v))
    }
}

/// Lowering a statement: the state afterwards and whether control falls
/// through past it.
pub open spec fn lower_stmt_s(sigs: Seq<(Seq<char>, Type)>, st: LState, s: StmtV) -> (LState, bool)
    decreases s, 0int,
{
    match s {
        StmtV::Let { name, init, .. } => {
            let (s1, v) = lower_expr_s(sigs, st, init);
            (s1.bind(name.name, v), true)
        },
        StmtV::Return { expr, .. } => {
            let (s1, v) = lower_expr_s(sigs, st, expr);
            (s1.terminate(s1.cur, TerminatorV::Ret(v)), false)
        },
        StmtV::If(i) => lower_if_s(sigs, st, i),
    }
}

/// Lowering the statements of `ss` from index `k` on, stopping after one
/// that does not fall through.
pub open spec fn lower_stmts_s(
    sigs: Seq<(Seq<char>, Type)>,
    st: LState,
    ss: Seq<StmtV>,
    k: int,
) -> (LState, bool)
    decreases ss, ss.len() - k,
{
    if k < 0 || k >= ss.len() {
        (st, true)
    } else {
        let (s1, falls) = lower_stmt_s(sigs, st, ss[k]);
        if !falls {
            (s1, false)
        } else {
            lower_stmts_s(sigs, s1, ss, k + 1)
        }
    }
}

/// A branch to `b` passing no arguments.
pub open spec fn edge_to(b: int) -> BranchTargetV {
    BranchTargetV { block: Block(b as u32), args: seq![] }
}

/// Lowering an `if` statement: the condition, a `then` block and an `else`
/// block (or the join when there is no `else`), each arm in its own scope;
/// the arms that fall through branch to a join block, which is created
/// only when some path falls through.
pub open spec fn lower_if_s(sigs: Seq<(Seq<char>, Type)>, st: LState, i: IfStmtV) -> (LState, bool)
    decreases i, 0int,
{
    let (s1, cond) = lower_expr_s(sigs, st, i.cond);
    let pred = s1.cur;
    let then_b = s1.f.blocks.len() as int;
    let (s3, then_falls) = lower_stmts_s(
        sigs,
        s1.new_block().goto(then_b).push_scope(),
        i.then_block.stmts,
        0,
    );
    let s4 = s3.pop_scope();
    let then_exit = s4.cur;
    match i.else_branch {
        None => {
            let join = s4.f.blocks.len() as int;
            let s6 = s4.new_block().terminate(
                pred,
                TerminatorV::CondBr { cond, then_branch: edge_to(then_b), else_branch: edge_to(join) },
            );
            let s7 = if then_falls {
                s6.terminate(then_exit, TerminatorV::Br(edge_to(join)))
            } else {
                s6
            };
            (s7.goto(join), true)
        },
        Some(eb) => {
            let else_b = s4.f.blocks.len() as int;
            let s5 = s4.new_block().goto(else_b).push_scope();
            let (s6, else_falls) = match eb {
                ElseV::Block(b) => lower_stmts_s(sigs, s5, b.stmts, 0),
                ElseV::If(n) => lower_if_s(sigs, s5, *n),
            };
            let s7 = s6.pop_scope();
            let else_exit = s7.cur;
            let branch = TerminatorV::CondBr {
                cond,
                then_branch: edge_to(then_b),
                else_branch: edge_to(else_b),
            };
            if !then_falls && !else_falls {
                (s7.terminate(pred, branch), false)
            } else {
                let join = s7.f.blocks.len() as int;
                let s8 = s7.new_block().terminate(pred, branch);
                let s9 = if then_falls {
                    s8.terminate(then_exit, TerminatorV::Br(edge_to(join)))
                } else {
                    s8
                };
                let s10 = if else_falls {
                    s9.terminate(else_exit, TerminatorV::Br(edge_to(join)))
                } else {
                    s9
                };
                (s10.goto(join), true)
            }
        },
    }
}

/// A fresh function for declaration `d`: its name and return type and an
/// empty entry block.
pub open spec fn new_function(d: FnDeclV) -> FunctionV {
    FunctionV {
        name: d.name.name,
        return_type: type_of_name(d.return_type.name),
        values: seq![],
        blocks: seq![crate::air::BlockDataV { params: seq![], body: seq![], terminator: None }],
    }
}

/// Binding the first `n` parameters: each becomes a parameter of the entry
/// block, bound by name.
pub open spec fn bind_params_s(st: LState, ps: Seq<crate::ast::ParamV>, n: int) -> LState
    decreases n,
{
    if n <= 0 {
        st
    } else {
        let s1 = bind_params_s(st, ps, n - 1);
        let p = ps[n - 1];
        LState { f: s1.f.with_param(0, type_of_name(p.ty.name), p.span), ..s1 }.bind(
            p.name.name,
            Value(s1.f.values.len() as u32),
        )
    }
}

/// Lowering one function: its parameters, then its body in the function's
/// scope. The function built and the diagnostics reported.
pub open spec fn lower_fn_s(sigs: Seq<(Seq<char>, Type)>, d: FnDeclV) -> (FunctionV, Seq<DiagnosticV>) {
    let st0 = LState { f: new_function(d), scopes: seq![seq![]], cur: 0, diags: seq![] };
    let st1 = bind_params_s(st0, d.params, d.params.len() as int);
    let st2 = lower_stmts_s(sigs, st1, d.body.stmts, 0).0;
    (st2.f, st2.diags)
}

/// Lowering the first `n` functions.
pub open spec fn lower_items_s(sigs: Seq<(Seq<char>, Type)>, items: Seq<FnDeclV>, n: int) -> (
    Seq<FunctionV>,
    Seq<DiagnosticV>,
)
    decreases n,
{
    if n <= 0 {
        (seq![], seq![])
    } else {
        let (fs, ds) = lower_items_s(sigs, items, n - 1);
        let (f, d) = lower_fn_s(sigs, items[n - 1]);
        (fs.push(f), ds + d)
    }
}

/// Lowering a program: its functions in order, with the diagnostics of all.
pub open spec fn lower_program_s(items: Seq<FnDeclV>) -> (Seq<FunctionV>, Seq<DiagnosticV>) {
    lower_items_s(signatures(items), items, items.len() as int)
}

/// The function built so far has at most `u32::MAX` values and blocks, so
/// every index fits AIR's 32-bit ids.
pub open spec fn fits(st: LState) -> bool {
    st.f.values.len() <= u32::MAX && st.f.blocks.len() <= u32::MAX
}

/// A function has at most `u32::MAX` values and blocks.
pub open spec fn fits_fn(f: FunctionV) -> bool {
    f.values.len() <= u32::MAX && f.blocks.len() <= u32::MAX
}

/// Lowering every function of the program stays within AIR's 32-bit value
/// and block ids.
pub open spec fn lowers_within_limits(items: Seq<FnDeclV>) -> bool {
    forall|i: int| 0 <= i < items.len() ==> fits_fn(#[trigger] lower_fn_s(signatures(items), items[i]).0)
}

// ---------------------------------------------------------------------------
// What lowering keeps and how it grows.

/// Two lowering states build a function with the same name and return type.
pub open spec fn same_signature(a: LState, b: LState) -> bool {
    a.f.name == b.f.name && a.f.return_type == b.f.return_type
}

/// The current block of a lowering state exists.
pub open spec fn placed(st: LState) -> bool {
    0 <= st.cur < st.f.blocks.len()
}

/// State `b` comes from `a` by lowering: same signature, no fewer values or
/// blocks, and a current block that exists.
pub open spec fn extends(a: LState, b: LState) -> bool {
    &&& same_signature(a, b)
    &&& a.f.values.len() <= b.f.values.len()
    &&& a.f.blocks.len() <= b.f.blocks.len()
    &&& placed(b)
}

proof fn lemma_expr_grows(sigs: Seq<(Seq<char>, Type)>, st: LState, e: ExprV)
    requires
        placed(st),
    ensures
        extends(st, lower_expr_s(sigs, st, e).0),
        match e {
            ExprV::Unary { operand, .. } => extends(
                lower_expr_s(sigs, st, *operand).0,
                lower_expr_s(sigs, st, e).0,
            ),
            ExprV::Binary { op, lhs, rhs, .. } => {
                let s1 = lower_expr_s(sigs, st, *lhs).0;
                let w = lower_expr_s(sigs, st, e).0;
                &&& extends(s1, w)
                &&& (op is And || op is Or) ==> w.f.values.len() >= s1.f.values.len() + 2
                    && w.f.blocks.len() >= s1.f.blocks.len() + 2
                &&& !(op is And || op is Or) ==> extends(lower_expr_s(sigs, s1, *rhs).0, w)
            },
            ExprV::Call { args, .. } => extends(
                lower_args_s(sigs, st, args).0,
                lower_expr_s(sigs, st, e).0,
            ),
            _ => true,
        },
    decreases e,
{
    match e {
        ExprV::Unary { operand, .. } => lemma_expr_grows(sigs, st, *operand),
        ExprV::Binary { op, lhs, rhs, span } => {
            lemma_expr_grows(sigs, st, *lhs);
            let (s1, l) = lower_expr_s(sigs, st, *lhs);
            if op is And || op is Or {
                let pred = s1.cur;
                let rhs_block = s1.f.blocks.len() as int;
                let merge = rhs_block + 1;
                let s2 = LState {
                    f: s1.new_block().new_block().f.with_param(merge, Type::Bool, span),
                    ..s1
                };
                let (s3, short) = s2.goto(pred).inst(InstDataV::BConst(op is Or), Type::Bool, span);
                let short_edge = BranchTargetV { block: Block(merge as u32), args: seq![short] };
                let eval_edge = BranchTargetV { block: Block(rhs_block as u32), args: seq![] };
                let s4 = s3.terminate(
                    pred,
                    if op is And {
                        TerminatorV::CondBr { cond: l, then_branch: eval_edge, else_branch: short_edge }
                    } else {
                        TerminatorV::CondBr { cond: l, then_branch: short_edge, else_branch: eval_edge }
                    },
                ).goto(rhs_block);
                assert(s4.f.blocks.len() == s1.f.blocks.len() + 2);
                assert(s4.f.values.len() == s1.f.values.len() + 2);
                lemma_expr_grows(sigs, s4, *rhs);
            } else {
                lemma_expr_grows(sigs, s1, *rhs);
            }
        },
        ExprV::Call { args, .. } => lemma_args_grows(sigs, st, args),
        _ => {},
    }
}

proof fn lemma_args_grows(sigs: Seq<(Seq<char>, Type)>, st: LState, args: Seq<ExprV>)
    requires
        placed(st),
    ensures
        extends(st, lower_args_s(sigs, st, args).0),
    decreases args,
{
    if args.len() > 0 {
        lemma_args_grows(sigs, st, args.drop_last());
        lemma_expr_grows(sigs, lower_args_s(sigs, st, args.drop_last()).0, args.last());
    }
}

proof fn lemma_stmt_grows(sigs: Seq<(Seq<char>, Type)>, st: LState, s: StmtV)
    requires
        placed(st),
    ensures
        extends(st, lower_stmt_s(sigs, st, s).0),
        match s {
            StmtV::Let { init, .. } => extends(
                lower_expr_s(sigs, st, init).0,
                lower_stmt_s(sigs, st, s).0,
            ),
            StmtV::Return { expr, .. } => extends(
                lower_expr_s(sigs, st, expr).0,
                lower_stmt_s(sigs, st, s).0,
            ),
            StmtV::If(_) => true,
        },
    decreases s, 0int,
{
    match s {
        StmtV::Let { init, .. } => lemma_expr_grows(sigs, st, init),
        StmtV::Return { expr, .. } => lemma_expr_grows(sigs, st, expr),
        StmtV::If(i) => lemma_if_grows(sigs, st, i),
    }
}

proof fn lemma_stmts_grows(sigs: Seq<(Seq<char>, Type)>, st: LState, ss: Seq<StmtV>, k: int)
    requires
        placed(st),
    ensures
        extends(st, lower_stmts_s(sigs, st, ss, k).0),
    decreases ss, ss.len() - k,
{
    if 0 <= k < ss.len() {
        lemma_stmt_grows(sigs, st, ss[k]);
        let (s1, falls) = lower_stmt_s(sigs, st, ss[k]);
        if falls {
            lemma_stmts_grows(sigs, s1, ss, k + 1);
        }
    }
}

/// The state after lowering the `else` arm of an `if` from `s5`.
pub open spec fn else_s(sigs: Seq<(Seq<char>, Type)>, s5: LState, eb: ElseV) -> (LState, bool) {
    match eb {
        ElseV::Block(b) => lower_stmts_s(sigs, s5, b.stmts, 0),
        ElseV::If(n) => lower_if_s(sigs, s5, *n),
    }
}

proof fn lemma_if_grows(sigs: Seq<(Seq<char>, Type)>, st: LState, i: IfStmtV)
    requires
        placed(st),
    ensures
        ({
            let s1 = lower_expr_s(sigs, st, i.cond).0;
            let w = lower_if_s(sigs, st, i).0;
            let s2 = s1.new_block().goto(s1.f.blocks.len() as int).push_scope();
            let (s3, then_falls) = lower_stmts_s(sigs, s2, i.then_block.stmts, 0);
            let s4 = s3.pop_scope();
            &&& extends(st, w)
            &&& extends(s1, w)
            &&& w.f.blocks.len() >= s1.f.blocks.len() + 1
            &&& extends(s3, w)
            &&& match i.else_branch {
                None => w.f.blocks.len() >= s4.f.blocks.len() + 1,
                Some(eb) => {
                    let s5 = s4.new_block().goto(s4.f.blocks.len() as int).push_scope();
                    let (s6, else_falls) = else_s(sigs, s5, eb);
                    &&& w.f.blocks.len() >= s4.f.blocks.len() + 1
                    &&& extends(s6, w)
                    &&& (then_falls || else_falls) ==> w.f.blocks.len() >= s6.f.blocks.len() + 1
                },
            }
        }),
    decreases i, 0int,
{
    lemma_expr_grows(sigs, st, i.cond);
    let s1 = lower_expr_s(sigs, st, i.cond).0;
    let then_b = s1.f.blocks.len() as int;
    let s2 = s1.new_block().goto(then_b).push_scope();
    lemma_stmts_grows(sigs, s2, i.then_block.stmts, 0);
    let s4 = lower_stmts_s(sigs, s2, i.then_block.stmts, 0).0.pop_scope();
    match i.else_branch {
        None => {},
        Some(eb) => {
            let else_b = s4.f.blocks.len() as int;
            let s5 = s4.new_block().goto(else_b).push_scope();
            match eb {
                ElseV::Block(b) => lemma_stmts_grows(sigs, s5, b.stmts, 0),
                ElseV::If(n) => lemma_if_grows(sigs, s5, *n),
            }
        },
    }
}

proof fn lemma_params_grow(st: LState, ps: Seq<crate::ast::ParamV>, n: int)
    requires
        placed(st),
        0 <= n,
    ensures
        same_signature(st, bind_params_s(st, ps, n)),
        bind_params_s(st, ps, n).f.values.len() == st.f.values.len() + n,
        bind_params_s(st, ps, n).f.blocks.len() == st.f.blocks.len(),
        bind_params_s(st, ps, n).cur == st.cur,
    decreases n,
{
    if n > 0 {
        lemma_params_grow(st, ps, n - 1);
    }
}

/// The state lowering of declaration `d` starts from.
pub open spec fn fn_start(d: FnDeclV) -> LState {
    LState { f: new_function(d), scopes: seq![seq![]], cur: 0, diags: seq![] }
}

proof fn lemma_fn_grows(sigs: Seq<(Seq<char>, Type)>, d: FnDeclV)
    ensures
        lower_fn_s(sigs, d).0.name == d.name.name,
        lower_fn_s(sigs, d).0.return_type == type_of_name(d.return_type.name),
        lower_fn_s(sigs, d).0.values.len() >= d.params.len(),
{
    let st0 = fn_start(d);
    lemma_params_grow(st0, d.params, d.params.len() as int);
    let st1 = bind_params_s(st0, d.params, d.params.len() as int);
    lemma_stmts_grows(sigs, st1, d.body.stmts, 0);
}

proof fn lemma_items_keep(sigs: Seq<(Seq<char>, Type)>, items: Seq<FnDeclV>, n: int)
    requires
        0 <= n <= items.len(),
    ensures
        lower_items_s(sigs, items, n).0.len() == n,
        forall|i: int|
            0 <= i < n ==> (#[trigger] lower_items_s(sigs, items, n).0[i]).name == items[i].name.name
                && lower_items_s(sigs, items, n).0[i].return_type == type_of_name(
                items[i].return_type.name,
            ),
        forall|i: int|
            0 <= i < n ==> #[trigger] lower_items_s(sigs, items, n).0[i] == lower_fn_s(sigs, items[i]).0,
    decreases n,
{
    if n > 0 {
        lemma_items_keep(sigs, items, n - 1);
        lemma_fn_grows(sigs, items[n - 1]);
        let fs = lower_items_s(sigs, items, n - 1).0;
        assert forall|i: int| 0 <= i < n implies (#[trigger] lower_items_s(sigs, items, n).0[i]).name
            == items[i].name.name && lower_items_s(sigs, items, n).0[i].return_type == type_of_name(
            items[i].return_type.name,
        ) && lower_items_s(sigs, items, n).0[i] == lower_fn_s(sigs, items[i]).0 by {
            if i < n - 1 {
                assert(lower_items_s(sigs, items, n).0[i] == fs[i]);
            }
        }
    }
}

/// Lowering makes one function per item, in the items' order, each named
/// as its item and returning the item's declared type.
pub proof fn lemma_lowering_keeps_signatures(items: Seq<FnDeclV>)
    ensures
        lower_program_s(items).0.len() == items.len(),
        forall|i: int|
            0 <= i < items.len() ==> (#[trigger] lower_program_s(items).0[i]).name == items[i].name.name
                && lower_program_s(items).0[i].return_type == type_of_name(items[i].return_type.name),
{
    lemma_items_keep(signatures(items), items, items.len() as int);
}

// ---------------------------------------------------------------------------
// The lowering pass.

/// The views of a signature table.
pub open spec fn sigs_view(sigs: Seq<(String, Type)>) -> Seq<(Seq<char>, Type)> {
    sigs.map_values(|p: (String, Type)| (p.0@, p.1))
}

/// The views of a scope stack.
pub open spec fn scopes_view(s: Seq<Vec<(String, Value)>>) -> Seq<Seq<(Seq<char>, Value)>> {
    s.map_values(|sc: Vec<(String, Value)>| sc@.map_values(|p: (String, Value)| (p.0@, p.1)))
}

/// The state of lowering one function.
struct Lowerer {
    function: Function,
    scopes: Vec<Vec<(String, Value)>>,
    current: Block,
    diagnostics: Vec<Diagnostic>,
    /// Set once the function has run out of 32-bit value or block ids, at
    /// which point lowering stops.
    full: bool,
}

impl Lowerer {
    /// The lowering state this value represents.
    closed spec fn st(&self) -> LState {
        LState {
            f: self.function@,
            scopes: scopes_view(self.scopes@),
            cur: self.current.0 as int,
            diags: diags_view(self.diagnostics@),
        }
    }

    /// The function is well formed, the current block exists and a scope is
    /// open.
    closed spec fn ok(&self) -> bool {
        &&& self.function@.wf()
        &&& self.current.0 < self.function@.blocks.len()
        &&& self.scopes@.len() >= 1
    }

    /// Append an instruction to the current block.
    fn inst(&mut self, data: InstData, ty: Type, span: Span) -> (r: Value)
        requires
            old(self).ok(),
            !old(self).full,
        ensures
            final(self).ok(),
            final(self).scopes@ == old(self).scopes@,
            !final(self).full ==> (final(self).st(), r) == old(self).st().inst(data@, ty, span),
            final(self).full ==> !fits(old(self).st().inst(data@, ty, span).0),
    {
        if self.function.value_count() < 4294967295usize {
            self.function.push_inst(self.current, data, ty, span)
        } else {
            self.full = true;
            Value(0)
        }
    }

    /// Append an empty block.
    fn new_block(&mut self) -> (r: Block)
        requires
            old(self).ok(),
            !old(self).full,
        ensures
            final(self).ok(),
            final(self).scopes@ == old(self).scopes@,
            final(self).current == old(self).current,
            !final(self).full ==> final(self).st() == old(self).st().new_block() && r.0
                == old(self).st().f.blocks.len(),
            final(self).full ==> old(self).st().f.blocks.len() == u32::MAX,
    {
        if self.function.blocks().len() < 4294967295usize {
            self.function.append_block()
        } else {
            self.full = true;
            Block(0)
        }
    }

    /// Report a diagnostic.
    fn report(&mut self, d: Diagnostic)
        requires
            old(self).ok(),
        ensures
            final(self).ok(),
            final(self).st() == old(self).st().report(d@),
            final(self).scopes@ == old(self).scopes@,
            final(self).full == old(self).full,
    {
        let ghost dv = d@;
        self.diagnostics.push(d);
        assert(diags_view(self.diagnostics@) =~= diags_view(old(self).diagnostics@).push(dv));
    }

    /// The value `name` resolves to, searching the innermost scope outward.
    fn resolve(&self, name: &str) -> (r: Option<Value>)
        ensures
            r == lookup(self.st().scopes, name@),
    {
        let ghost sv = scopes_view(self.scopes@);
        let mut i = self.scopes.len();
        assert(sv.take(i as int) =~= sv);
        while i > 0
            invariant
                i <= self.scopes@.len(),
                sv == scopes_view(self.scopes@),
                lookup(sv, name@) == lookup(sv.take(i as int), name@),
            decreases i,
        {
            let scope = &self.scopes[i - 1];
            let ghost sc = sv[i - 1];
            assert(sc == scope@.map_values(|p: (String, Value)| (p.0@, p.1)));
            let mut j = scope.len();
            assert(sc.take(j as int) =~= sc);
            while j > 0
                invariant
                    1 <= i <= self.scopes@.len(),
                    sv == scopes_view(self.scopes@),
                    sc == sv[i - 1],
                    lookup(sv, name@) == lookup(sv.take(i as int), name@),
                    j <= scope@.len(),
                    sc == scope@.map_values(|p: (String, Value)| (p.0@, p.1)),
                    lookup_in(sc, name@) == lookup_in(sc.take(j as int), name@),
                decreases j,
            {
                let entry = &scope[j - 1];
                proof {
                    assert(sc.take(j as int).drop_last() =~= sc.take(j - 1));
                    assert(sc.take(j as int).last() == (entry.0@, entry.1));
                }
                if str_eq(entry.0.as_str(), name) {
                    proof {
                        assert(lookup_in(sc, name@) == Some(entry.1));
                        assert(sv.take(i as int).last() == sc);
                        assert(lookup(sv.take(i as int), name@) == Some(entry.1));
                    }
                    return Some(entry.1);
                }
                j = j - 1;
            }
            proof {
                assert(sv.take(i as int).drop_last() =~= sv.take(i - 1));
                assert(sv.take(i as int).last() == sc);
            }
            i = i - 1;
        }
        None
    }

    /// Lower an expression into the current block, returning the value that
    /// holds its result.
    fn lower_expr(&mut self, sigs: &Vec<(String, Type)>, e: &Expr) -> (r: Value)
        requires
            old(self).ok(),
            !old(self).full,
        ensures
            final(self).ok(),
            !final(self).full ==> (final(self).st(), r) == lower_expr_s(
                sigs_view(sigs@),
                old(self).st(),
                e@,
            ) && final(self).scopes@ == old(self).scopes@,
            final(self).full ==> !fits(lower_expr_s(sigs_view(sigs@), old(self).st(), e@).0),
        decreases e, 1nat,
    {
        let ghost s0 = self.st();
        match e {
            Expr::IntLit { value, span } => self.inst(InstData::IConst(*value as i64), Type::Int, *span),
            Expr::BoolLit { value, span } => self.inst(InstData::BConst(*value), Type::Bool, *span),
            Expr::Unary { op, operand, span } => {
                let v = self.lower_expr(sigs, operand);
                if self.full {
                    proof {
                        lemma_expr_grows(sigs_view(sigs@), s0, e@);
                    }
                    return Value(0);
                }
                let (aop, ty) = match op {
                    UnOp::Neg => (UnaryOp::Neg, Type::Int),
                    UnOp::Not => (UnaryOp::Not, Type::Bool),
                };
                self.inst(InstData::Unary { op: aop, operand: v }, ty, *span)
            },
            Expr::Binary { op, lhs, rhs, span } => {
                match op {
                    BinOp::And | BinOp::Or => self.lower_short_circuit(sigs, e),
                    _ => {
                        let l = self.lower_expr(sigs, lhs);
                        if self.full {
                            proof {
                                lemma_expr_grows(sigs_view(sigs@), s0, e@);
                            }
                            return Value(0);
                        }
                        let r = self.lower_expr(sigs, rhs);
                        if self.full {
                            proof {
                                lemma_expr_grows(sigs_view(sigs@), s0, e@);
                            }
                            return Value(0);
                        }
                        let (data, ty) = binary_data(*op, l, r);
                        self.inst(data, ty, *span)
                    },
                }
            },
            Expr::Name { name, span } => {
                match self.resolve(name.as_str()) {
                    Some(v) => v,
                    None => {
                        let mut msg = String::from_str("cannot find `");
                        msg.append(name.as_str());
                        msg.append("` in this scope");
                        let d = Diagnostic::error(msg.as_str()).with_primary(
                            *span,
                            "not found in this scope",
                        );
                        self.report(d);
                        self.inst(InstData::IConst(0), Type::Int, *span)
                    },
                }
            },
            Expr::Call { callee, args, span } => {
                let ret = find_sig(sigs, callee.as_str());
                let vs = self.lower_args(sigs, args);
                if self.full {
                    proof {
                        lemma_expr_grows(sigs_view(sigs@), s0, e@);
                    }
                    return Value(0);
                }
                match ret {
                    Some(t) => self.inst(
                        InstData::Call { callee: String::from_str(callee.as_str()), args: vs },
                        t,
                        *span,
                    ),
                    None => {
                        let mut msg = String::from_str("cannot find function `");
                        msg.append(callee.as_str());
                        msg.append("`");
                        let d = Diagnostic::error(msg.as_str()).with_primary(
                            *span,
                            "not found in this scope",
                        );
                        self.report(d);
                        self.inst(InstData::IConst(0), Type::Int, *span)
                    },
                }
            },
            Expr::Error { span } => self.inst(InstData::IConst(0), Type::Int, *span),
        }
    }

    /// Enter a new innermost scope.
    fn push_scope(&mut self)
        requires
            old(self).ok(),
        ensures
            final(self).ok(),
            final(self).st() == old(self).st().push_scope(),
            final(self).scopes@.len() == old(self).scopes@.len() + 1,
            final(self).full == old(self).full,
    {
        self.scopes.push(Vec::new());
        proof {
            let l = self.scopes@.last();
            assert(l@.map_values(|p: (String, Value)| (p.0@, p.1)) =~= Seq::<(Seq<char>, Value)>::empty());
            assert(scopes_view(self.scopes@) =~= scopes_view(old(self).scopes@).push(seq![]));
        }
    }

    /// Leave the innermost scope, which must not be the only one.
    fn pop_scope(&mut self)
        requires
            old(self).ok(),
            old(self).scopes@.len() >= 2,
        ensures
            final(self).ok(),
            final(self).st() == old(self).st().pop_scope(),
            final(self).scopes@.len() == old(self).scopes@.len() - 1,
            final(self).full == old(self).full,
    {
        self.scopes.pop();
        assert(scopes_view(self.scopes@) =~= scopes_view(old(self).scopes@).drop_last());
    }

    /// Bind `name` to `v` in the innermost scope.
    fn bind(&mut self, name: &str, v: Value)
        requires
            old(self).ok(),
        ensures
            final(self).ok(),
            final(self).st() == old(self).st().bind(name@, v),
            final(self).scopes@.len() == old(self).scopes@.len(),
            final(self).full == old(self).full,
    {
        let last = self.scopes.len() - 1;
        let ghost before = self.scopes@[last as int];
        self.scopes[last].push((String::from_str(name), v));
        proof {
            let sv = scopes_view(old(self).scopes@);
            let g = |p: (String, Value)| (p.0@, p.1);
            assert(self.scopes@[last as int]@.last().0@ == name@);
            assert(self.scopes@[last as int]@.map_values(g) =~= before@.map_values(g).push((name@, v)));
            assert(scopes_view(self.scopes@) =~= sv.update(
                sv.len() - 1,
                sv.last().push((name@, v)),
            ));
        }
    }

    /// Lower a statement; returns whether control falls through past it.
    fn lower_stmt(&mut self, sigs: &Vec<(String, Type)>, s: &Stmt) -> (falls: bool)
        requires
            old(self).ok(),
            !old(self).full,
        ensures
            final(self).ok(),
            !final(self).full ==> (final(self).st(), falls) == lower_stmt_s(
                sigs_view(sigs@),
                old(self).st(),
                s@,
            ) && final(self).scopes@.len() == old(self).scopes@.len(),
            final(self).full ==> !fits(lower_stmt_s(sigs_view(sigs@), old(self).st(), s@).0),
        decreases s,
    {
        let ghost s0 = self.st();
        match s {
            Stmt::Let(l) => {
                let v = self.lower_expr(sigs, &l.init);
                if self.full {
                    proof {
                        lemma_stmt_grows(sigs_view(sigs@), s0, s@);
                    }
                    return false;
                }
                self.bind(l.name.name.as_str(), v);
                true
            },
            Stmt::Return(r) => {
                let v = self.lower_expr(sigs, &r.expr);
                if self.full {
                    proof {
                        lemma_stmt_grows(sigs_view(sigs@), s0, s@);
                    }
                    return false;
                }
                self.function.set_terminator(self.current, Terminator::Ret(v));
                false
            },
            Stmt::If(i) => self.lower_if(sigs, i),
        }
    }

    /// Lower a sequence of statements, stopping after one that does not fall
    /// through; returns whether control falls through past them all.
    fn lower_stmts(&mut self, sigs: &Vec<(String, Type)>, stmts: &Vec<Stmt>) -> (falls: bool)
        requires
            old(self).ok(),
            !old(self).full,
        ensures
            final(self).ok(),
            !final(self).full ==> (final(self).st(), falls) == lower_stmts_s(
                sigs_view(sigs@),
                old(self).st(),
                crate::ast::stmts_view(stmts@),
                0,
            ) && final(self).scopes@.len() == old(self).scopes@.len(),
            final(self).full ==> !fits(
                lower_stmts_s(sigs_view(sigs@), old(self).st(), crate::ast::stmts_view(stmts@), 0).0,
            ),
        decreases stmts,
    {
        let ghost ssv = crate::ast::stmts_view(stmts@);
        proof {
            lemma_stmts_view(stmts@);
        }
        let mut k: usize = 0;
        while k < stmts.len()
            invariant
                self.ok(),
                !self.full,
                ssv == crate::ast::stmts_view(stmts@),
                ssv.len() == stmts@.len(),
                forall|j: int| 0 <= j < stmts@.len() ==> #[trigger] ssv[j] == stmts@[j]@,
                k <= stmts@.len(),
                lower_stmts_s(sigs_view(sigs@), old(self).st(), ssv, 0) == lower_stmts_s(
                    sigs_view(sigs@),
                    self.st(),
                    ssv,
                    k as int,
                ),
                self.scopes@.len() == old(self).scopes@.len(),
            decreases stmts@.len() - k,
        {
            let ghost sk = self.st();
            let falls = self.lower_stmt(sigs, &stmts[k]);
            if self.full {
                proof {
                    let sv = sigs_view(sigs@);
                    lemma_stmt_grows(sv, sk, ssv[k as int]);
                    lemma_stmts_grows(sv, lower_stmt_s(sv, sk, ssv[k as int]).0, ssv, k + 1);
                }
                return false;
            }
            if !falls {
                return false;
            }
            k = k + 1;
        }
        true
    }

    /// Lower an `if` statement into a conditional branch and its arms;
    /// returns whether control falls through past it.
    fn lower_if(&mut self, sigs: &Vec<(String, Type)>, i: &IfStmt) -> (falls: bool)
        requires
            old(self).ok(),
            !old(self).full,
        ensures
            final(self).ok(),
            !final(self).full ==> (final(self).st(), falls) == lower_if_s(
                sigs_view(sigs@),
                old(self).st(),
                i@,
            ) && final(self).scopes@.len() == old(self).scopes@.len(),
            final(self).full ==> !fits(lower_if_s(sigs_view(sigs@), old(self).st(), i@).0),
        decreases i,
    {
        let ghost s0 = self.st();
        proof {
            lemma_if_grows(sigs_view(sigs@), s0, i@);
        }
        assert(i@ == crate::ast::if_view(*i));
        assert(i@.then_block == crate::ast::block_view(i.then_block));
        assert(i@.then_block.stmts == crate::ast::stmts_view(i.then_block.stmts@));
        assert(i@.cond == i.cond@);
        let cond = self.lower_expr(sigs, &i.cond);
        if self.full {
            return false;
        }
        let pred = self.current;
        let then_b = self.new_block();
        if self.full {
            return false;
        }
        self.current = then_b;
        self.push_scope();
        let ghost s2 = self.st();
        let then_falls = self.lower_stmts(sigs, &i.then_block.stmts);
        if self.full {
            return false;
        }
        proof {
            lemma_stmts_grows(sigs_view(sigs@), s2, i@.then_block.stmts, 0);
        }
        self.pop_scope();
        let then_exit = self.current;
        match &i.else_branch {
            None => {
                let join = self.new_block();
                if self.full {
                    return false;
                }
                self.function.set_terminator(
                    pred,
                    Terminator::CondBr {
                        cond,
                        then_branch: BranchTarget::new(then_b),
                        else_branch: BranchTarget::new(join),
                    },
                );
                if then_falls {
                    self.function.set_terminator(then_exit, Terminator::Br(BranchTarget::new(join)));
                }
                self.current = join;
                true
            },
            Some(eb) => {
                let else_b = self.new_block();
                if self.full {
                    return false;
                }
                self.current = else_b;
                self.push_scope();
                let ghost s5 = self.st();
                let else_falls = match eb {
                    ElseBranch::Block(b) => {
                        assert(i@.else_branch == Some(ElseV::Block(crate::ast::block_view(*b))));
                        assert(crate::ast::block_view(*b).stmts == crate::ast::stmts_view(b.stmts@));
                        self.lower_stmts(sigs, &b.stmts)
                    },
                    ElseBranch::If(n) => {
                        assert(i@.else_branch == Some(ElseV::If(Box::new(crate::ast::if_view(**n)))));
                        self.lower_if(sigs, n)
                    },
                };
                if self.full {
                    return false;
                }
                proof {
                    match i@.else_branch {
                        Some(ElseV::Block(b)) => lemma_stmts_grows(sigs_view(sigs@), s5, b.stmts, 0),
                        Some(ElseV::If(n)) => lemma_if_grows(sigs_view(sigs@), s5, *n),
                        None => {},
                    }
                }
                self.pop_scope();
                let else_exit = self.current;
                if !then_falls && !else_falls {
                    self.function.set_terminator(
                        pred,
                        Terminator::CondBr {
                            cond,
                            then_branch: BranchTarget::new(then_b),
                            else_branch: BranchTarget::new(else_b),
                        },
                    );
                    false
                } else {
                    let join = self.new_block();
                    if self.full {
                        return false;
                    }
                    self.function.set_terminator(
                        pred,
                        Terminator::CondBr {
                            cond,
                            then_branch: BranchTarget::new(then_b),
                            else_branch: BranchTarget::new(else_b),
                        },
                    );
                    if then_falls {
                        self.function.set_terminator(
                            then_exit,
                            Terminator::Br(BranchTarget::new(join)),
                        );
                    }
                    if else_falls {
                        self.function.set_terminator(
                            else_exit,
                            Terminator::Br(BranchTarget::new(join)),
                        );
                    }
                    self.current = join;
                    true
                }
            },
        }
    }

    /// Lower a short-circuiting `&&` or `||`: the left operand, then a branch
    /// either to a block evaluating the right operand or straight to a merge
    /// block, whose `bool` parameter is the result.
    fn lower_short_circuit(&mut self, sigs: &Vec<(String, Type)>, e: &Expr) -> (r: Value)
        requires
            old(self).ok(),
            !old(self).full,
            e matches Expr::Binary { op, .. } && (op is And || op is Or),
        ensures
            final(self).ok(),
            !final(self).full ==> (final(self).st(), r) == lower_expr_s(
                sigs_view(sigs@),
                old(self).st(),
                e@,
            ) && final(self).scopes@ == old(self).scopes@,
            final(self).full ==> !fits(lower_expr_s(sigs_view(sigs@), old(self).st(), e@).0),
        decreases e, 0nat,
    {
        match e {
            Expr::Binary { op, lhs, rhs, span } => {
                let is_and = match op {
                    BinOp::And => true,
                    _ => false,
                };
                let span = *span;
                let ghost s0 = self.st();
                proof {
                    lemma_expr_grows(sigs_view(sigs@), s0, e@);
                }
                let l = self.lower_expr(sigs, lhs);
                if self.full {
                    return Value(0);
                }
                let ghost s1 = self.st();
                if self.function.value_count() >= 4294967294usize || self.function.blocks().len()
                    >= 4294967294usize {
                    self.full = true;
                    return Value(0);
                }
                let pred = self.current;
                let rhs_block = self.function.append_block();
                let merge = self.function.append_block();
                let param = self.function.append_block_param(merge, Type::Bool, span);
                let short = self.function.push_inst(pred, InstData::BConst(!is_and), Type::Bool, span);
                let mut sargs: Vec<Value> = Vec::new();
                sargs.push(short);
                let short_edge = BranchTarget::with_args(merge, sargs);
                let eval_edge = BranchTarget::new(rhs_block);
                let term = if is_and {
                    Terminator::CondBr { cond: l, then_branch: eval_edge, else_branch: short_edge }
                } else {
                    Terminator::CondBr { cond: l, then_branch: short_edge, else_branch: eval_edge }
                };
                self.function.set_terminator(pred, term);
                self.current = rhs_block;
                let ghost s4 = self.st();
                proof {
                    let rb = s1.f.blocks.len() as int;
                    let s2 = LState {
                        f: s1.new_block().new_block().f.with_param(rb + 1, Type::Bool, span),
                        ..s1
                    };
                    let (s3, sh) = s2.goto(s1.cur).inst(InstDataV::BConst(op is Or), Type::Bool, span);
                    assert(sh == short);
                    assert(sargs@ =~= seq![short]);
                    assert(s4.f =~= s3.terminate(
                        s1.cur,
                        if op is And {
                            TerminatorV::CondBr {
                                cond: l,
                                then_branch: BranchTargetV { block: Block(rb as u32), args: seq![] },
                                else_branch: BranchTargetV { block: Block((rb + 1) as u32), args: seq![short] },
                            }
                        } else {
                            TerminatorV::CondBr {
                                cond: l,
                                then_branch: BranchTargetV { block: Block((rb + 1) as u32), args: seq![short] },
                                else_branch: BranchTargetV { block: Block(rb as u32), args: seq![] },
                            }
                        },
                    ).goto(rb).f);
                }
                let r = self.lower_expr(sigs, rhs);
                if self.full {
                    proof {
                        lemma_expr_grows(sigs_view(sigs@), s4, rhs@);
                    }
                    return Value(0);
                }
                let exit = self.current;
                let mut rargs: Vec<Value> = Vec::new();
                rargs.push(r);
                assert(rargs@ =~= seq![r]);
                self.function.set_terminator(exit, Terminator::Br(BranchTarget::with_args(merge, rargs)));
                self.current = merge;
                param
            },
            _ => {
                proof {
                    assert(false);
                }
                Value(0)
            },
        }
    }

    /// Lower call arguments left to right.
    fn lower_args(&mut self, sigs: &Vec<(String, Type)>, args: &Vec<Expr>) -> (r: Vec<Value>)
        requires
            old(self).ok(),
            !old(self).full,
        ensures
            final(self).ok(),
            !final(self).full ==> (final(self).st(), r@) == lower_args_s(
                sigs_view(sigs@),
                old(self).st(),
                crate::ast::exprs_view(args@),
            ) && final(self).scopes@ == old(self).scopes@,
            final(self).full ==> !fits(
                lower_args_s(sigs_view(sigs@), old(self).st(), crate::ast::exprs_view(args@)).0,
            ),
        decreases args, 0nat,
    {
        let mut vs: Vec<Value> = Vec::new();
        let mut i: usize = 0;
        assert(crate::ast::exprs_view(args@.take(0)) =~= Seq::<ExprV>::empty());
        while i < args.len()
            invariant
                self.ok(),
                !self.full,
                i <= args@.len(),
                (self.st(), vs@) == lower_args_s(
                    sigs_view(sigs@),
                    old(self).st(),
                    crate::ast::exprs_view(args@.take(i as int)),
                ),
                placed(old(self).st()),
                self.scopes@ == old(self).scopes@,
            decreases args@.len() - i,
        {
            let v = self.lower_expr(sigs, &args[i]);
            proof {
                let t = args@.take(i + 1);
                assert(t.drop_last() =~= args@.take(i as int));
                let xs = crate::ast::exprs_view(t);
                assert(xs.drop_last() =~= crate::ast::exprs_view(args@.take(i as int)));
                assert(xs.last() == args@[i as int]@);
            }
            if self.full {
                proof {
                    lemma_args_view_prefix(sigs_view(sigs@), old(self).st(), args@, i + 1);
                }
                return vs;
            }
            vs.push(v);
            i = i + 1;
        }
        assert(args@.take(i as int) =~= args@);
        vs
    }
}

/// Lowering more of a call's arguments gives a state that extends lowering
/// fewer.
proof fn lemma_args_view_prefix(sigs: Seq<(Seq<char>, Type)>, st: LState, args: Seq<Expr>, i: int)
    requires
        placed(st),
        0 <= i <= args.len(),
    ensures
        extends(
            lower_args_s(sigs, st, crate::ast::exprs_view(args.take(i))).0,
            lower_args_s(sigs, st, crate::ast::exprs_view(args)).0,
        ),
    decreases args.len() - i,
{
    let a = lower_args_s(sigs, st, crate::ast::exprs_view(args.take(i))).0;
    lemma_args_grows(sigs, st, crate::ast::exprs_view(args.take(i)));
    if i == args.len() {
        assert(args.take(i) =~= args);
    } else {
        lemma_args_view_prefix(sigs, st, args, i + 1);
        let t = args.take(i + 1);
        assert(t.drop_last() =~= args.take(i));
        let xs = crate::ast::exprs_view(t);
        assert(xs.drop_last() =~= crate::ast::exprs_view(args.take(i)));
        lemma_expr_grows(sigs, a, xs.last());
    }
}

/// The view of a statement sequence has one entry per statement.
proof fn lemma_stmts_view(ss: Seq<Stmt>)
    ensures
        crate::ast::stmts_view(ss).len() == ss.len(),
        forall|k: int| 0 <= k < ss.len() ==> #[trigger] crate::ast::stmts_view(ss)[k] == ss[k]@,
    decreases ss.len(),
{
    if ss.len() > 0 {
        lemma_stmts_view(ss.drop_last());
        assert forall|k: int| 0 <= k < ss.len() implies #[trigger] crate::ast::stmts_view(ss)[k]
            == ss[k]@ by {
            if k < ss.len() - 1 {
                assert(ss.drop_last()[k] == ss[k]);
            }
        }
    }
}

/// The AIR instruction for an arithmetic or comparison operator.
fn binary_data(op: BinOp, lhs: Value, rhs: Value) -> (r: (InstData, Type))
    requires
        !(op is And || op is Or),
    ensures
        (r.0@, r.1) == binary_inst(op, lhs, rhs),
{
    match op {
        BinOp::Add => (InstData::Binary { op: BinaryOp::Add, lhs, rhs }, Type::Int),
        BinOp::Sub => (InstData::Binary { op: BinaryOp::Sub, lhs, rhs }, Type::Int),
        BinOp::Mul => (InstData::Binary { op: BinaryOp::Mul, lhs, rhs }, Type::Int),
        BinOp::Div => (InstData::Binary { op: BinaryOp::Div, lhs, rhs }, Type::Int),
        BinOp::Eq => (InstData::ICmp { op: CmpOp::Eq, lhs, rhs }, Type::Bool),
        BinOp::Ne => (InstData::ICmp { op: CmpOp::Ne, lhs, rhs }, Type::Bool),
        BinOp::Lt => (InstData::ICmp { op: CmpOp::Lt, lhs, rhs }, Type::Bool),
        BinOp::Le => (InstData::ICmp { op: CmpOp::Le, lhs, rhs }, Type::Bool),
        BinOp::Gt => (InstData::ICmp { op: CmpOp::Gt, lhs, rhs }, Type::Bool),
        _ => (InstData::ICmp { op: CmpOp::Ge, lhs, rhs }, Type::Bool),
    }
}

/// The return type of the first function named `name` in `sigs`.
fn find_sig(sigs: &Vec<(String, Type)>, name: &str) -> (r: Option<Type>)
    ensures
        r == sig_of(sigs_view(sigs@), name@),
{
    let ghost sv = sigs_view(sigs@);
    let mut i: usize = 0;
    while i < sigs.len()
        invariant
            i <= sigs@.len(),
            sv == sigs_view(sigs@),
            sig_of(sv, name@) == sig_from(sv, name@, i as int),
        decreases sigs@.len() - i,
    {
        if str_eq(sigs[i].0.as_str(), name) {
            return Some(sigs[i].1);
        }
        i = i + 1;
    }
    None
}

/// The result of lowering: the AIR module and any diagnostics produced.
#[derive(Debug)]
pub struct LowerResult {
    /// The lowered module (best effort if diagnostics were produced).
    pub module: Module,
    /// Diagnostics emitted during lowering.
    pub diagnostics: Vec<Diagnostic>,
}

/// The AIR type an AST type name denotes.
fn lower_type(name: &str) -> (r: Type)
    ensures
        r == type_of_name(name@),
{
    if str_eq(name, "bool") {
        Type::Bool
    } else {
        Type::Int
    }
}

/// Lower one function, or find that it needs more than `u32::MAX` values or
/// blocks.
fn lower_fn(sigs: &Vec<(String, Type)>, decl: &FnDecl) -> (r: Option<(Function, Vec<Diagnostic>)>)
    ensures
        match r {
            Some(p) => p.0@.wf() && (p.0@, diags_view(p.1@)) == lower_fn_s(sigs_view(sigs@), decl@),
            None => !fits_fn(lower_fn_s(sigs_view(sigs@), decl@).0),
        },
{
    let f = Function::new(decl.name.name.as_str(), lower_type(decl.return_type.name.name.as_str()));
    let mut scopes: Vec<Vec<(String, Value)>> = Vec::new();
    scopes.push(Vec::new());
    let mut lw = Lowerer { function: f, scopes, current: Block(0), diagnostics: Vec::new(), full: false };
    let ghost st0 = fn_start(decl@);
    proof {
        let l = lw.scopes@[0];
        assert(l@.map_values(|p: (String, Value)| (p.0@, p.1)) =~= Seq::<(Seq<char>, Value)>::empty());
        assert(scopes_view(lw.scopes@) =~= seq![seq![]]);
        assert(diags_view(lw.diagnostics@) =~= Seq::<DiagnosticV>::empty());
        assert(lw.st() == st0);
        lemma_fn_grows(sigs_view(sigs@), decl@);
    }
    let ghost ps = decl@.params;
    let mut i: usize = 0;
    while i < decl.params.len()
        invariant
            lw.ok(),
            !lw.full,
            ps == decl@.params,
            ps.len() == decl.params@.len(),
            i <= decl.params@.len(),
            lw.st() == bind_params_s(st0, ps, i as int),
            lw.st().f.values.len() == i,
            lw.st().f.blocks.len() == 1,
            lower_fn_s(sigs_view(sigs@), decl@).0.values.len() >= ps.len(),
        decreases decl.params@.len() - i,
    {
        let p = &decl.params[i];
        assert(ps[i as int] == p@);
        if lw.function.value_count() >= 4294967295usize {
            return None;
        }
        let ty = lower_type(p.ty.name.name.as_str());
        let v = lw.function.append_param(ty, p.span);
        lw.bind(p.name.name.as_str(), v);
        i = i + 1;
    }
    assert(decl@.body.stmts == crate::ast::stmts_view(decl.body.stmts@));
    lw.lower_stmts(sigs, &decl.body.stmts);
    if lw.full {
        return None;
    }
    Some((lw.function, lw.diagnostics))
}

/// Lower a parsed program into an AIR module, reporting names and functions
/// that cannot be found; `None` when some function would need more than
/// `u32::MAX` values or blocks, more than AIR's 32-bit ids can name.
pub fn try_lower(program: &Program) -> (r: Option<LowerResult>)
    ensures
        match r {
            None => !lowers_within_limits(program@),
            Some(res) => lowers_within_limits(program@) && res.module@ == lower_program_s(program@).0
                && diags_view(res.diagnostics@) == lower_program_s(program@).1,
        },
{
    let items = &program.items;
    let mut sigs: Vec<(String, Type)> = Vec::new();
    let mut i: usize = 0;
    while i < items.len()
        invariant
            i <= items@.len(),
            program@ == crate::ast::items_view(items@),
            sigs_view(sigs@) =~= signatures(program@).take(i as int),
        decreases items@.len() - i,
    {
        match &items[i] {
            Item::Fn(decl) => {
                let name = String::from_str(decl.name.name.as_str());
                let ty = lower_type(decl.return_type.name.name.as_str());
                let ghost before = sigs_view(sigs@);
                let ghost nv = name@;
                sigs.push((name, ty));
                proof {
                    assert(program@[i as int] == decl@);
                    assert(sigs_view(sigs@) =~= before.push((nv, ty)));
                    assert(signatures(program@).take(i + 1) =~= signatures(program@).take(
                        i as int,
                    ).push(signatures(program@)[i as int]));
                }
            },
        }
        i = i + 1;
    }
    assert(signatures(program@).take(i as int) =~= signatures(program@));
    let ghost sv = signatures(program@);
    let mut module = Module::new();
    let mut diagnostics: Vec<Diagnostic> = Vec::new();
    let mut k: usize = 0;
    while k < items.len()
        invariant
            k <= items@.len(),
            program@ == crate::ast::items_view(items@),
            sigs_view(sigs@) == sv,
            sv == signatures(program@),
            (module@, diags_view(diagnostics@)) == lower_items_s(sv, program@, k as int),
            forall|j: int| 0 <= j < k ==> fits_fn(#[trigger] lower_fn_s(sv, program@[j]).0),
        decreases items@.len() - k,
    {
        match &items[k] {
            Item::Fn(decl) => {
                assert(program@[k as int] == decl@);
                match lower_fn(&sigs, decl) {
                    None => {
                        return None;
                    },
                    Some((f, mut ds)) => {
                        let ghost dv = diags_view(diagnostics@);
                        let ghost fdv = diags_view(ds@);
                        module.add_function(f);
                        diagnostics.append(&mut ds);
                        assert(diags_view(diagnostics@) =~= dv + fdv);
                    },
                }
            },
        }
        k = k + 1;
    }
    Some(LowerResult { module, diagnostics })
}

/// Lower a parsed program into an AIR module, reporting names and functions
/// that cannot be found. Every function's lowering must stay within AIR's
/// 32-bit value and block ids.
pub fn lower(program: &Program) -> (r: LowerResult)
    requires
        lowers_within_limits(program@),
    ensures
        r.module@ == lower_program_s(program@).0,
        diags_view(r.diagnostics@) == lower_program_s(program@).1,
{
    match try_lower(program) {
        Some(r) => r,
        None => {
            proof {
                assert(false);
            }
            LowerResult { module: Module::new(), diagnostics: Vec::new() }
        },
    }
}

} // verus!

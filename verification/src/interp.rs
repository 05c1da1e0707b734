//! An interpreter over AIR.
//!
//! Execution walks the control-flow graph of a function: it binds the
//! current block's parameters from the arguments of the edge taken into it,
//! evaluates the block's values in order, then follows its terminator. A
//! call runs the callee in a fresh frame with the arguments bound to its
//! entry-block parameters. Integer arithmetic wraps (two's complement) and
//! division by zero is a runtime error carrying the division's span.
//!
//! The meaning of execution is stated as a big-step semantics with a budget
//! that bounds both the nesting of calls and the number of blocks a frame
//! runs; the executable interpreter runs with the largest budget. A module
//! that fails verification can leave execution stuck (a missing terminator,
//! an operand of the wrong type or out of range, an unknown callee); such a
//! run ends with [`RunError::Malformed`].

use vstd::prelude::*;
use vstd::wrapping::i64_specs::{wrapping_add, wrapping_mul, wrapping_sub};
use crate::air::{
    find_function, BinaryOp, Block, BranchTarget, BranchTargetV, CmpOp, Function, FunctionV, InstData,
    InstDataV, Module, Terminator, TerminatorV, Type, UnaryOp, Value, ValueDef, ValueDefV,
};
use crate::source::Span;
use crate::text::{push_i64, signed_decimal};

verus! {

/// A runtime value: a 64-bit signed integer or a boolean.
#[derive(Clone, Copy, PartialEq, Eq, Structural, Debug)]
pub enum RunValue {
    /// A 64-bit signed integer.
    Int(i64),
    /// A boolean.
    Bool(bool),
}

/// The text of a runtime value.
pub open spec fn run_value_text(v: RunValue) -> Seq<char> {
    match v {
        RunValue::Int(n) => signed_decimal(n as int),
        RunValue::Bool(b) => if b {
            "true"@
        } else {
            "false"@
        },
    }
}

impl RunValue {
    /// The value as text: the decimal integer, or `true`/`false`.
    pub fn to_string(&self) -> (r: String)
        ensures
            r@ == run_value_text(*self),
    {
        match self {
            RunValue::Int(n) => {
                let mut s = String::new();
                push_i64(&mut s, *n);
                assert(s@ =~= run_value_text(*self));
                s
            },
            RunValue::Bool(b) => if *b {
                String::from_str("true")
            } else {
                String::from_str("false")
            },
        }
    }
}

/// A failure encountered while executing AIR.
#[derive(Clone, Copy, PartialEq, Eq, Debug)]
pub enum RunError {
    /// The module has no `main` function to execute.
    NoEntryPoint,
    /// A division had a zero divisor.
    DivisionByZero {
        /// The span of the offending division.
        span: Span,
    },
    /// Execution reached a state that verified AIR never reaches.
    Malformed,
    /// The execution budget ran out.
    OutOfSteps,
}

// ---------------------------------------------------------------------------
// The semantics.

/// Division truncating toward zero.
pub open spec fn trunc_div(x: int, d: int) -> int {
    if x == 0 {
        0
    } else if x > 0 && d > 0 {
        x / d
    } else if x < 0 && d < 0 {
        (x * -1) / (d * -1)
    } else if x < 0 {
        ((x * -1) / d) * -1
    } else {
        (x / (d * -1)) * -1
    }
}

/// Two's-complement division of a nonzero divisor: truncating, with
/// `i64::MIN / -1` wrapping to `i64::MIN`.
pub open spec fn wrapping_div(a: i64, b: i64) -> i64 {
    if trunc_div(a as int, b as int) > i64::MAX {
        i64::MIN
    } else {
        trunc_div(a as int, b as int) as i64
    }
}

/// The value of an operand, if it is one of the frame's values.
pub open spec fn operand(env: Seq<RunValue>, v: Value) -> Option<RunValue> {
    if v.0 < env.len() {
        Some(env[v.0 as int])
    } else {
        None
    }
}

/// The integer value of an operand.
pub open spec fn int_operand(env: Seq<RunValue>, v: Value) -> Option<i64> {
    match operand(env, v) {
        Some(RunValue::Int(n)) => Some(n),
        _ => None,
    }
}

/// The boolean value of an operand.
pub open spec fn bool_operand(env: Seq<RunValue>, v: Value) -> Option<bool> {
    match operand(env, v) {
        Some(RunValue::Bool(b)) => Some(b),
        _ => None,
    }
}

/// The values of the first `n` arguments.
pub open spec fn args_values(env: Seq<RunValue>, args: Seq<Value>, n: int) -> Option<Seq<RunValue>>
    decreases n,
{
    if n <= 0 {
        Some(seq![])
    } else {
        match (args_values(env, args, n - 1), operand(env, args[n - 1])) {
            (Some(vs), Some(v)) => Some(vs.push(v)),
            _ => None,
        }
    }
}

/// The result of a comparison.
pub open spec fn compare(op: CmpOp, a: RunValue, b: RunValue) -> Option<bool> {
    match (op, a, b) {
        (CmpOp::Eq, _, _) => Some(a == b),
        (CmpOp::Ne, _, _) => Some(a != b),
        (CmpOp::Lt, RunValue::Int(x), RunValue::Int(y)) => Some(x < y),
        (CmpOp::Le, RunValue::Int(x), RunValue::Int(y)) => Some(x <= y),
        (CmpOp::Gt, RunValue::Int(x), RunValue::Int(y)) => Some(x > y),
        (CmpOp::Ge, RunValue::Int(x), RunValue::Int(y)) => Some(x >= y),
        _ => None,
    }
}

/// The result of an arithmetic operation; `span` locates a division by zero.
pub open spec fn arith(op: BinaryOp, a: i64, b: i64, span: Span) -> Result<RunValue, RunError> {
    match op {
        BinaryOp::Add => Ok(RunValue::Int(wrapping_add(a, b))),
        BinaryOp::Sub => Ok(RunValue::Int(wrapping_sub(a, b))),
        BinaryOp::Mul => Ok(RunValue::Int(wrapping_mul(a, b))),
        BinaryOp::Div => if b == 0 {
            Err(RunError::DivisionByZero { span })
        } else {
            Ok(RunValue::Int(wrapping_div(a, b)))
        },
    }
}

/// Evaluating the instruction that defines `v` in a frame holding `env`.
pub open spec fn eval_s(fs: Seq<FunctionV>, f: FunctionV, env: Seq<RunValue>, v: Value, fuel: nat) -> Result<
    RunValue,
    RunError,
>
    decreases fuel, 0int, 0int,
{
    if v.0 >= f.values.len() {
        Err(RunError::Malformed)
    } else {
        match f.values[v.0 as int].def {
            ValueDefV::Inst(InstDataV::IConst(n)) => Ok(RunValue::Int(n)),
            ValueDefV::Inst(InstDataV::BConst(b)) => Ok(RunValue::Bool(b)),
            ValueDefV::Inst(InstDataV::Unary { op, operand: o }) => match op {
                UnaryOp::Neg => match int_operand(env, o) {
                    Some(n) => Ok(RunValue::Int(wrapping_sub(0, n))),
                    None => Err(RunError::Malformed),
                },
                UnaryOp::Not => match bool_operand(env, o) {
                    Some(b) => Ok(RunValue::Bool(!b)),
                    None => Err(RunError::Malformed),
                },
            },
            ValueDefV::Inst(InstDataV::Binary { op, lhs, rhs }) => match (
                int_operand(env, lhs),
                int_operand(env, rhs),
            ) {
                (Some(a), Some(b)) => arith(op, a, b, f.values[v.0 as int].span),
                _ => Err(RunError::Malformed),
            },
            ValueDefV::Inst(InstDataV::ICmp { op, lhs, rhs }) => match (
                operand(env, lhs),
                operand(env, rhs),
            ) {
                (Some(a), Some(b)) => match compare(op, a, b) {
                    Some(r) => Ok(RunValue::Bool(r)),
                    None => Err(RunError::Malformed),
                },
                _ => Err(RunError::Malformed),
            },
            ValueDefV::Inst(InstDataV::Call { callee, args }) => match (
                args_values(env, args, args.len() as int),
                find_function(fs, callee),
            ) {
                (Some(vals), Some(gi)) => if fuel == 0 {
                    Err(RunError::OutOfSteps)
                } else {
                    run_s(fs, fs[gi], vals, (fuel - 1) as nat)
                },
                _ => Err(RunError::Malformed),
            },
            ValueDefV::Param { .. } => Err(RunError::Malformed),
        }
    }
}

/// Evaluating the values of `body` from index `k` on, in order.
pub open spec fn body_s(
    fs: Seq<FunctionV>,
    f: FunctionV,
    body: Seq<Value>,
    k: int,
    env: Seq<RunValue>,
    fuel: nat,
) -> Result<Seq<RunValue>, RunError>
    decreases fuel, 1int, body.len() - k,
{
    if k < 0 || k >= body.len() {
        Ok(env)
    } else {
        let v = body[k];
        match eval_s(fs, f, env, v, fuel) {
            Err(e) => Err(e),
            Ok(r) => if v.0 < env.len() {
                body_s(fs, f, body, k + 1, env.update(v.0 as int, r), fuel)
            } else {
                Err(RunError::Malformed)
            },
        }
    }
}

/// Binding the first `n` parameters to incoming arguments (as many as both
/// lists have).
pub open spec fn bind_s(env: Seq<RunValue>, params: Seq<Value>, incoming: Seq<RunValue>, n: int) -> Option<
    Seq<RunValue>,
>
    decreases n,
{
    if n <= 0 {
        Some(env)
    } else {
        match bind_s(env, params, incoming, n - 1) {
            Some(e) => if params[n - 1].0 < e.len() {
                Some(e.update(params[n - 1].0 as int, incoming[n - 1]))
            } else {
                None
            },
            None => None,
        }
    }
}

/// The smaller of two lengths.
pub open spec fn min_len(a: nat, b: nat) -> int {
    if a < b {
        a as int
    } else {
        b as int
    }
}

/// Running block `b` of `f`, entered with `incoming` arguments, and the
/// blocks control reaches from it.
pub open spec fn block_s(
    fs: Seq<FunctionV>,
    f: FunctionV,
    b: int,
    incoming: Seq<RunValue>,
    env: Seq<RunValue>,
    fuel: nat,
) -> Result<RunValue, RunError>
    decreases fuel, 2int, 0int,
{
    if b < 0 || b >= f.blocks.len() {
        Err(RunError::Malformed)
    } else {
        let bd = f.blocks[b];
        match bind_s(env, bd.params, incoming, min_len(bd.params.len(), incoming.len())) {
            None => Err(RunError::Malformed),
            Some(env1) => match body_s(fs, f, bd.body, 0, env1, fuel) {
                Err(e) => Err(e),
                Ok(env2) => match bd.terminator {
                    None => Err(RunError::Malformed),
                    Some(TerminatorV::Ret(v)) => match operand(env2, v) {
                        Some(r) => Ok(r),
                        None => Err(RunError::Malformed),
                    },
                    Some(TerminatorV::Br(t)) => edge_s(fs, f, t, env2, fuel),
                    Some(TerminatorV::CondBr { cond, then_branch, else_branch }) => match bool_operand(
                        env2,
                        cond,
                    ) {
                        Some(true) => edge_s(fs, f, then_branch, env2, fuel),
                        Some(false) => edge_s(fs, f, else_branch, env2, fuel),
                        None => Err(RunError::Malformed),
                    },
                },
            },
        }
    }
}

/// Following a branch edge: its arguments are read, then its target runs.
pub open spec fn edge_s(
    fs: Seq<FunctionV>,
    f: FunctionV,
    t: BranchTargetV,
    env: Seq<RunValue>,
    fuel: nat,
) -> Result<RunValue, RunError>
    decreases fuel, 1int, 0int,
{
    match args_values(env, t.args, t.args.len() as int) {
        None => Err(RunError::Malformed),
        Some(vals) => if fuel == 0 {
            Err(RunError::OutOfSteps)
        } else {
            block_s(fs, f, t.block.0 as int, vals, env, (fuel - 1) as nat)
        },
    }
}

/// A fresh frame for `f`: every value starts as the integer `0`.
pub open spec fn fresh_env(f: FunctionV) -> Seq<RunValue> {
    Seq::new(f.values.len(), |i: int| RunValue::Int(0))
}

/// Running function `f` of module `fs` with arguments bound to its entry
/// block's parameters.
pub open spec fn run_s(fs: Seq<FunctionV>, f: FunctionV, args: Seq<RunValue>, fuel: nat) -> Result<
    RunValue,
    RunError,
>
    decreases fuel, 3int, 0int,
{
    if fuel == 0 {
        Err(RunError::OutOfSteps)
    } else {
        block_s(fs, f, 0, args, fresh_env(f), (fuel - 1) as nat)
    }
}

/// The budget the interpreter runs with.
pub open spec fn budget() -> nat {
    u64::MAX as nat
}

// ---------------------------------------------------------------------------
// Arithmetic wraps; division truncates.

/// `+` and `-` give the mathematical result when it fits in 64 bits and
/// otherwise wrap it once around by 2^64; `*` gives the mathematical result
/// when it fits.
pub proof fn lemma_arith_wraps(a: i64, b: i64, span: Span)
    ensures
        arith(BinaryOp::Add, a, b, span) is Ok,
        arith(BinaryOp::Sub, a, b, span) is Ok,
        arith(BinaryOp::Mul, a, b, span) is Ok,
        ({
            let s = a + b;
            let r = arith(BinaryOp::Add, a, b, span)->Ok_0;
            &&& r is Int
            &&& i64::MIN <= s <= i64::MAX ==> r->Int_0 == s
            &&& s > i64::MAX ==> r->Int_0 == s - 0x1_0000_0000_0000_0000
            &&& s < i64::MIN ==> r->Int_0 == s + 0x1_0000_0000_0000_0000
        }),
        ({
            let s = a - b;
            let r = arith(BinaryOp::Sub, a, b, span)->Ok_0;
            &&& r is Int
            &&& i64::MIN <= s <= i64::MAX ==> r->Int_0 == s
            &&& s > i64::MAX ==> r->Int_0 == s - 0x1_0000_0000_0000_0000
            &&& s < i64::MIN ==> r->Int_0 == s + 0x1_0000_0000_0000_0000
        }),
        ({
            let p = a * b;
            let r = arith(BinaryOp::Mul, a, b, span)->Ok_0;
            &&& r is Int
            &&& i64::MIN <= p <= i64::MAX ==> r->Int_0 == p
        }),
{
    let p = a * b;
    if i64::MIN <= p <= i64::MAX {
        let m: int = 0x1_0000_0000_0000_0000;
        if p >= 0 {
            assert(p % m == p) by (nonlinear_arith)
                requires
                    0 <= p < m,
            ;
        } else {
            assert(p % m == p + m) by (nonlinear_arith)
                requires
                    -m < p < 0,
            ;
        }
    }
}

/// Division by zero is the division-by-zero error at the operation's span;
/// any other division truncates toward zero: quotient times divisor plus a
/// remainder smaller than the divisor in size, and of the dividend's sign,
/// gives the dividend (the one quotient too large for 64 bits,
/// `i64::MIN / -1`, wraps to `i64::MIN`).
pub proof fn lemma_division(a: i64, b: i64, span: Span)
    ensures
        b == 0 ==> arith(BinaryOp::Div, a, b, span) == Err::<RunValue, RunError>(
            RunError::DivisionByZero { span },
        ),
        b != 0 && !(a == i64::MIN && b == -1) ==> ({
            let r = arith(BinaryOp::Div, a, b, span);
            let q = r->Ok_0->Int_0;
            let rem = a - q * b;
            &&& r is Ok && r->Ok_0 is Int
            &&& (if rem >= 0 { rem } else { -rem }) < (if b >= 0 { b as int } else { -b })
            &&& (rem == 0 || (rem > 0) == (a > 0))
        }),
        a == i64::MIN && b == -1 ==> arith(BinaryOp::Div, a, b, span) == Ok::<RunValue, RunError>(
            RunValue::Int(i64::MIN),
        ),
{
    if b != 0 && !(a == i64::MIN && b == -1) {
        let x = a as int;
        let d = b as int;
        let t = trunc_div(x, d);
        let rem = x - t * d;
        if x == 0 {
            assert(t == 0);
            assert(t * d == 0) by (nonlinear_arith)
                requires
                    t == 0,
            ;
        } else if x > 0 && d > 0 {
            assert(t == x / d);
            assert(0 <= x - (x / d) * d < d) by (nonlinear_arith)
                requires
                    x > 0,
                    d > 0,
            ;
            assert(0 <= x / d <= x) by (nonlinear_arith)
                requires
                    x > 0,
                    d > 0,
            ;
            assert(rem == x - (x / d) * d);
            assert(0 <= rem < d);
        } else if x < 0 && d < 0 {
            let xn = x * -1;
            let dn = d * -1;
            assert(t == xn / dn);
            assert(0 <= xn - (xn / dn) * dn < dn) by (nonlinear_arith)
                requires
                    xn > 0,
                    dn > 0,
            ;
            assert(0 <= xn / dn <= xn) by (nonlinear_arith)
                requires
                    xn > 0,
                    dn > 0,
            ;
            assert(rem == -(xn - (xn / dn) * dn)) by (nonlinear_arith)
                requires
                    rem == x - t * d,
                    t == xn / dn,
                    xn == -x,
                    dn == -d,
            ;
            assert(-dn < rem <= 0);
            if dn >= 2 {
                assert((xn / dn) * 2 <= xn) by (nonlinear_arith)
                    requires
                        xn > 0,
                        dn >= 2,
                ;
            }
        } else if x < 0 {
            let xn = x * -1;
            assert(t == (xn / d) * -1);
            assert(0 <= xn - (xn / d) * d < d) by (nonlinear_arith)
                requires
                    xn > 0,
                    d > 0,
            ;
            assert(0 <= xn / d <= xn) by (nonlinear_arith)
                requires
                    xn > 0,
                    d > 0,
            ;
            assert(rem == -(xn - (xn / d) * d)) by (nonlinear_arith)
                requires
                    rem == x - t * d,
                    t == (xn / d) * -1,
                    xn == -x,
            ;
            assert(-d < rem <= 0);
        } else {
            let dn = d * -1;
            assert(t == (x / dn) * -1);
            assert(0 <= x - (x / dn) * dn < dn) by (nonlinear_arith)
                requires
                    x > 0,
                    dn > 0,
            ;
            assert(0 <= x / dn <= x) by (nonlinear_arith)
                requires
                    x > 0,
                    dn > 0,
            ;
            assert(rem == x - (x / dn) * dn) by (nonlinear_arith)
                requires
                    rem == x - t * d,
                    t == (x / dn) * -1,
                    dn == -d,
            ;
            assert(0 <= rem < dn);
        }
        assert((if rem >= 0 { rem } else { -rem }) < (if d >= 0 { d } else { -d }));
        assert(rem == 0 || (rem > 0) == (x > 0));
        assert(i64::MIN <= t <= i64::MAX);
        let q = t as i64;
        assert(arith(BinaryOp::Div, a, b, span) == Ok::<RunValue, RunError>(RunValue::Int(q)));
        assert(a - q * b == rem);
    }
    if a == i64::MIN && b == -1 {
        assert(trunc_div(a as int, b as int) == 0x8000_0000_0000_0000) by (nonlinear_arith)
            requires
                a == i64::MIN,
                b == -1,
        ;
    }
}

// ---------------------------------------------------------------------------
// Comparisons follow the integer order.

/// Comparing two integers follows their order: `<`, `<=`, `>`, `>=` hold
/// exactly when the left value is below, at most, above or at least the
/// right one, `==` and `!=` compare the values; so `>` is the converse of
/// `<`, `>=` the negation of `<`, `<=` the negation of `>`, and no integer
/// is greater or less than itself.
pub proof fn lemma_compare_integers(x: i64, y: i64)
    ensures
        compare(CmpOp::Lt, RunValue::Int(x), RunValue::Int(y)) == Some(x < y),
        compare(CmpOp::Le, RunValue::Int(x), RunValue::Int(y)) == Some(x <= y),
        compare(CmpOp::Gt, RunValue::Int(x), RunValue::Int(y)) == Some(y < x),
        compare(CmpOp::Ge, RunValue::Int(x), RunValue::Int(y)) == Some(y <= x),
        compare(CmpOp::Eq, RunValue::Int(x), RunValue::Int(y)) == Some(x == y),
        compare(CmpOp::Ne, RunValue::Int(x), RunValue::Int(y)) == Some(x != y),
        compare(CmpOp::Gt, RunValue::Int(x), RunValue::Int(y)) == compare(
            CmpOp::Lt,
            RunValue::Int(y),
            RunValue::Int(x),
        ),
        compare(CmpOp::Ge, RunValue::Int(x), RunValue::Int(y)) == Some(
            !(compare(CmpOp::Lt, RunValue::Int(x), RunValue::Int(y))->0),
        ),
        compare(CmpOp::Le, RunValue::Int(x), RunValue::Int(y)) == Some(
            !(compare(CmpOp::Gt, RunValue::Int(x), RunValue::Int(y))->0),
        ),
        compare(CmpOp::Gt, RunValue::Int(x), RunValue::Int(x)) == Some(false),
        compare(CmpOp::Lt, RunValue::Int(x), RunValue::Int(x)) == Some(false),
{
}

/// The definition of value `v` of `f`, if `f` has such a value.
pub open spec fn def_of(f: FunctionV, v: Value) -> Option<ValueDefV> {
    if v.0 < f.values.len() {
        Some(f.values[v.0 as int].def)
    } else {
        None
    }
}

/// Whether relation `op` holds between two integers, by the integer order.
pub open spec fn relation_holds(op: CmpOp, x: i64, y: i64) -> bool {
    match op {
        CmpOp::Eq => x == y,
        CmpOp::Ne => x != y,
        CmpOp::Lt => x < y,
        CmpOp::Le => x <= y,
        CmpOp::Gt => y < x,
        CmpOp::Ge => y <= x,
    }
}

/// A comparison instruction on two integer operands evaluates to whether
/// its relation holds between their values.
pub proof fn lemma_eval_relation(
    fs: Seq<FunctionV>,
    f: FunctionV,
    env: Seq<RunValue>,
    v: Value,
    fuel: nat,
    op: CmpOp,
    lhs: Value,
    rhs: Value,
    x: i64,
    y: i64,
)
    requires
        def_of(f, v) == Some(ValueDefV::Inst(InstDataV::ICmp { op, lhs, rhs })),
        operand(env, lhs) == Some(RunValue::Int(x)),
        operand(env, rhs) == Some(RunValue::Int(y)),
    ensures
        eval_s(fs, f, env, v, fuel) == Ok::<RunValue, RunError>(RunValue::Bool(relation_holds(op, x, y))),
{
}

// ---------------------------------------------------------------------------
// Running never lacks an entry point.

/// Whether a result is the "no entry point" error.
pub open spec fn lacks_entry(r: Result<RunValue, RunError>) -> bool {
    r matches Err(RunError::NoEntryPoint)
}

proof fn lemma_eval_has_entry(fs: Seq<FunctionV>, f: FunctionV, env: Seq<RunValue>, v: Value, fuel: nat)
    ensures
        !lacks_entry(eval_s(fs, f, env, v, fuel)),
    decreases fuel, 0int, 0int,
{
    if v.0 < f.values.len() {
        if let ValueDefV::Inst(InstDataV::Call { callee, args }) = f.values[v.0 as int].def {
            if let (Some(vals), Some(gi)) = (
                args_values(env, args, args.len() as int),
                find_function(fs, callee),
            ) {
                if fuel > 0 {
                    lemma_run_has_entry(fs, fs[gi], vals, (fuel - 1) as nat);
                }
            }
        }
    }
}

proof fn lemma_body_has_entry(
    fs: Seq<FunctionV>,
    f: FunctionV,
    body: Seq<Value>,
    k: int,
    env: Seq<RunValue>,
    fuel: nat,
)
    ensures
        match body_s(fs, f, body, k, env, fuel) {
            Ok(_) => true,
            Err(e) => !(e is NoEntryPoint),
        },
    decreases fuel, 1int, body.len() - k,
{
    if 0 <= k < body.len() {
        let v = body[k];
        lemma_eval_has_entry(fs, f, env, v, fuel);
        if let Ok(r) = eval_s(fs, f, env, v, fuel) {
            if v.0 < env.len() {
                lemma_body_has_entry(fs, f, body, k + 1, env.update(v.0 as int, r), fuel);
            }
        }
    }
}

proof fn lemma_edge_has_entry(
    fs: Seq<FunctionV>,
    f: FunctionV,
    t: BranchTargetV,
    env: Seq<RunValue>,
    fuel: nat,
)
    ensures
        !lacks_entry(edge_s(fs, f, t, env, fuel)),
    decreases fuel, 1int, 0int,
{
    if let Some(vals) = args_values(env, t.args, t.args.len() as int) {
        if fuel > 0 {
            lemma_block_has_entry(fs, f, t.block.0 as int, vals, env, (fuel - 1) as nat);
        }
    }
}

proof fn lemma_block_has_entry(
    fs: Seq<FunctionV>,
    f: FunctionV,
    b: int,
    incoming: Seq<RunValue>,
    env: Seq<RunValue>,
    fuel: nat,
)
    ensures
        !lacks_entry(block_s(fs, f, b, incoming, env, fuel)),
    decreases fuel, 2int, 0int,
{
    if 0 <= b < f.blocks.len() {
        let bd = f.blocks[b];
        if let Some(env1) = bind_s(env, bd.params, incoming, min_len(bd.params.len(), incoming.len())) {
            lemma_body_has_entry(fs, f, bd.body, 0, env1, fuel);
            if let Ok(env2) = body_s(fs, f, bd.body, 0, env1, fuel) {
                match bd.terminator {
                    Some(TerminatorV::Br(t)) => lemma_edge_has_entry(fs, f, t, env2, fuel),
                    Some(TerminatorV::CondBr { then_branch, else_branch, .. }) => {
                        lemma_edge_has_entry(fs, f, then_branch, env2, fuel);
                        lemma_edge_has_entry(fs, f, else_branch, env2, fuel);
                    },
                    _ => {},
                }
            }
        }
    }
}

/// Running a function never fails for want of an entry point: that error
/// comes only from looking up `main`.
pub proof fn lemma_run_has_entry(fs: Seq<FunctionV>, f: FunctionV, args: Seq<RunValue>, fuel: nat)
    ensures
        !lacks_entry(run_s(fs, f, args, fuel)),
    decreases fuel, 3int, 0int,
{
    if fuel > 0 {
        lemma_block_has_entry(fs, f, 0, args, fresh_env(f), (fuel - 1) as nat);
    }
}

// ---------------------------------------------------------------------------
// The interpreter.

fn operand_exec(env: &Vec<RunValue>, v: Value) -> (r: Option<RunValue>)
    ensures
        r == operand(env@, v),
{
    if v.index() < env.len() {
        Some(env[v.index()])
    } else {
        None
    }
}

fn int_operand_exec(env: &Vec<RunValue>, v: Value) -> (r: Option<i64>)
    ensures
        r == int_operand(env@, v),
{
    match operand_exec(env, v) {
        Some(RunValue::Int(n)) => Some(n),
        _ => None,
    }
}

fn bool_operand_exec(env: &Vec<RunValue>, v: Value) -> (r: Option<bool>)
    ensures
        r == bool_operand(env@, v),
{
    match operand_exec(env, v) {
        Some(RunValue::Bool(b)) => Some(b),
        _ => None,
    }
}

fn args_exec(env: &Vec<RunValue>, args: &Vec<Value>) -> (r: Option<Vec<RunValue>>)
    ensures
        match args_values(env@, args@, args@.len() as int) {
            Some(vs) => r is Some && r->0@ == vs,
            None => r is None,
        },
{
    let mut vals: Vec<RunValue> = Vec::new();
    let mut i: usize = 0;
    while i < args.len()
        invariant
            i <= args@.len(),
            args_values(env@, args@, i as int) == Some(vals@),
        decreases args@.len() - i,
    {
        match operand_exec(env, args[i]) {
            Some(v) => vals.push(v),
            None => {
                proof {
                    lemma_args_values_none(env@, args@, i as int + 1, args@.len() as int);
                }
                return None;
            },
        }
        i = i + 1;
    }
    Some(vals)
}

/// Once an argument is missing, every longer prefix is missing too.
proof fn lemma_args_values_none(env: Seq<RunValue>, args: Seq<Value>, i: int, n: int)
    requires
        1 <= i <= n,
        args_values(env, args, i) is None,
    ensures
        args_values(env, args, n) is None,
    decreases n - i,
{
    if i < n {
        lemma_args_values_none(env, args, i + 1, n);
    }
}

fn compare_exec(op: CmpOp, a: RunValue, b: RunValue) -> (r: Option<bool>)
    ensures
        r == compare(op, a, b),
{
    match (op, a, b) {
        (CmpOp::Eq, _, _) => Some(a == b),
        (CmpOp::Ne, _, _) => Some(a != b),
        (CmpOp::Lt, RunValue::Int(x), RunValue::Int(y)) => Some(x < y),
        (CmpOp::Le, RunValue::Int(x), RunValue::Int(y)) => Some(x <= y),
        (CmpOp::Gt, RunValue::Int(x), RunValue::Int(y)) => Some(x > y),
        (CmpOp::Ge, RunValue::Int(x), RunValue::Int(y)) => Some(x >= y),
        _ => None,
    }
}

/// Two's-complement division by a nonzero divisor.
fn div_exec(a: i64, b: i64) -> (r: i64)
    requires
        b != 0,
    ensures
        r == wrapping_div(a, b),
{
    let ghost x = a as int;
    let ghost d = b as int;
    proof {
        if x > 0 && d > 0 {
            assert(0 <= x / d <= x) by (nonlinear_arith)
                requires
                    x > 0,
                    d > 0,
            ;
        } else if x < 0 && d < 0 {
            assert(0 <= (x * -1) / (d * -1) <= x * -1) by (nonlinear_arith)
                requires
                    x < 0,
                    d < 0,
            ;
        } else if x < 0 && d > 0 {
            assert(0 <= (x * -1) / d <= x * -1) by (nonlinear_arith)
                requires
                    x < 0,
                    d > 0,
            ;
        } else if x > 0 && d < 0 {
            assert(0 <= x / (d * -1) <= x) by (nonlinear_arith)
                requires
                    x > 0,
                    d < 0,
            ;
        }
    }
    match a.checked_div(b) {
        Some(q) => q,
        None => i64::MIN,
    }
}

fn arith_exec(op: BinaryOp, a: i64, b: i64, span: Span) -> (r: Result<RunValue, RunError>)
    ensures
        r == arith(op, a, b, span),
{
    match op {
        BinaryOp::Add => Ok(RunValue::Int(a.wrapping_add(b))),
        BinaryOp::Sub => Ok(RunValue::Int(a.wrapping_sub(b))),
        BinaryOp::Mul => Ok(RunValue::Int(a.wrapping_mul(b))),
        BinaryOp::Div => if b == 0 {
            Err(RunError::DivisionByZero { span })
        } else {
            Ok(RunValue::Int(div_exec(a, b)))
        },
    }
}

/// Evaluate the instruction that defines `v`.
fn eval(m: &Module, f: &Function, env: &Vec<RunValue>, v: Value, fuel: u64) -> (r: Result<
    RunValue,
    RunError,
>)
    ensures
        r == eval_s(m@, f@, env@, v, fuel as nat),
    decreases fuel, 0nat, 0nat,
{
    if v.index() >= f.value_count() {
        return Err(RunError::Malformed);
    }
    match f.value_def(v) {
        ValueDef::Inst(InstData::IConst(n)) => Ok(RunValue::Int(*n)),
        ValueDef::Inst(InstData::BConst(b)) => Ok(RunValue::Bool(*b)),
        ValueDef::Inst(InstData::Unary { op, operand: o }) => match op {
            UnaryOp::Neg => match int_operand_exec(env, *o) {
                Some(n) => Ok(RunValue::Int(0i64.wrapping_sub(n))),
                None => Err(RunError::Malformed),
            },
            UnaryOp::Not => match bool_operand_exec(env, *o) {
                Some(b) => Ok(RunValue::Bool(!b)),
                None => Err(RunError::Malformed),
            },
        },
        ValueDef::Inst(InstData::Binary { op, lhs, rhs }) => match (
            int_operand_exec(env, *lhs),
            int_operand_exec(env, *rhs),
        ) {
            (Some(a), Some(b)) => arith_exec(*op, a, b, f.value_span(v)),
            _ => Err(RunError::Malformed),
        },
        ValueDef::Inst(InstData::ICmp { op, lhs, rhs }) => match (
            operand_exec(env, *lhs),
            operand_exec(env, *rhs),
        ) {
            (Some(a), Some(b)) => match compare_exec(*op, a, b) {
                Some(r) => Ok(RunValue::Bool(r)),
                None => Err(RunError::Malformed),
            },
            _ => Err(RunError::Malformed),
        },
        ValueDef::Inst(InstData::Call { callee, args }) => {
            let vals = args_exec(env, args);
            let g = m.function_by_name(callee.as_str());
            match (vals, g) {
                (Some(vals), Some(g)) => if fuel == 0 {
                    Err(RunError::OutOfSteps)
                } else {
                    run_fuel(m, g, vals, fuel - 1)
                },
                _ => Err(RunError::Malformed),
            }
        },
        ValueDef::Param { .. } => Err(RunError::Malformed),
    }
}

/// Evaluate the values of `body` in order, storing each result in `env`.
fn eval_body(m: &Module, f: &Function, body: &Vec<Value>, env: &mut Vec<RunValue>, fuel: u64) -> (r:
    Result<(), RunError>)
    ensures
        match body_s(m@, f@, body@, 0, old(env)@, fuel as nat) {
            Ok(e) => r is Ok && final(env)@ == e,
            Err(x) => r == Err::<(), RunError>(x),
        },
    decreases fuel, 1nat, 0nat,
{
    let mut k: usize = 0;
    while k < body.len()
        invariant
            k <= body@.len(),
            body_s(m@, f@, body@, 0, old(env)@, fuel as nat) == body_s(
                m@,
                f@,
                body@,
                k as int,
                env@,
                fuel as nat,
            ),
        decreases body@.len() - k,
    {
        let v = body[k];
        match eval(m, f, env, v, fuel) {
            Err(e) => {
                return Err(e);
            },
            Ok(x) => {
                if v.index() < env.len() {
                    env.set(v.index(), x);
                } else {
                    return Err(RunError::Malformed);
                }
            },
        }
        k = k + 1;
    }
    Ok(())
}

/// Bind the parameters of a block to the incoming arguments.
fn bind_exec(env: &mut Vec<RunValue>, params: &Vec<Value>, incoming: &Vec<RunValue>) -> (ok: bool)
    ensures
        match bind_s(old(env)@, params@, incoming@, min_len(params@.len(), incoming@.len())) {
            Some(e) => ok && final(env)@ == e,
            None => !ok,
        },
{
    let n = if params.len() < incoming.len() {
        params.len()
    } else {
        incoming.len()
    };
    let mut i: usize = 0;
    while i < n
        invariant
            n == min_len(params@.len(), incoming@.len()),
            i <= n,
            bind_s(old(env)@, params@, incoming@, i as int) == Some(env@),
        decreases n - i,
    {
        let p = params[i];
        if p.index() < env.len() {
            env.set(p.index(), incoming[i]);
        } else {
            proof {
                lemma_bind_none(old(env)@, params@, incoming@, i as int + 1, n as int);
            }
            return false;
        }
        i = i + 1;
    }
    true
}

/// Once a parameter is out of range, every longer binding fails too.
proof fn lemma_bind_none(env: Seq<RunValue>, params: Seq<Value>, incoming: Seq<RunValue>, i: int, n: int)
    requires
        1 <= i <= n,
        bind_s(env, params, incoming, i) is None,
    ensures
        bind_s(env, params, incoming, n) is None,
    decreases n - i,
{
    if i < n {
        lemma_bind_none(env, params, incoming, i + 1, n);
    }
}

/// Run block `b` and the blocks control reaches from it.
fn run_block(
    m: &Module,
    f: &Function,
    b: Block,
    incoming: Vec<RunValue>,
    env: &mut Vec<RunValue>,
    fuel: u64,
) -> (r: Result<RunValue, RunError>)
    ensures
        r == block_s(m@, f@, b.0 as int, incoming@, old(env)@, fuel as nat),
    decreases fuel, 2nat, 0nat,
{
    let mut cur = b;
    let mut inc = incoming;
    let mut fu = fuel;
    loop
        invariant
            fu <= fuel,
            block_s(m@, f@, b.0 as int, incoming@, old(env)@, fuel as nat) == block_s(
                m@,
                f@,
                cur.0 as int,
                inc@,
                env@,
                fu as nat,
            ),
        decreases fu,
    {
        if cur.index() >= f.blocks().len() {
            return Err(RunError::Malformed);
        }
        let block = f.block(cur);
        if !bind_exec(env, &block.params, &inc) {
            return Err(RunError::Malformed);
        }
        match eval_body(m, f, &block.body, env, fu) {
            Err(e) => {
                return Err(e);
            },
            Ok(()) => {},
        }
        let target = match &block.terminator {
            None => {
                return Err(RunError::Malformed);
            },
            Some(Terminator::Ret(v)) => {
                return match operand_exec(env, *v) {
                    Some(r) => Ok(r),
                    None => Err(RunError::Malformed),
                };
            },
            Some(Terminator::Br(t)) => t,
            Some(Terminator::CondBr { cond, then_branch, else_branch }) => match bool_operand_exec(
                env,
                *cond,
            ) {
                Some(true) => then_branch,
                Some(false) => else_branch,
                None => {
                    return Err(RunError::Malformed);
                },
            },
        };
        match args_exec(env, &target.args) {
            None => {
                return Err(RunError::Malformed);
            },
            Some(vals) => {
                if fu == 0 {
                    return Err(RunError::OutOfSteps);
                }
                cur = target.block;
                inc = vals;
                fu = fu - 1;
            },
        }
    }
}

/// Run `f` with `args` bound to its entry block's parameters.
fn run_fuel(m: &Module, f: &Function, args: Vec<RunValue>, fuel: u64) -> (r: Result<RunValue, RunError>)
    ensures
        r == run_s(m@, f@, args@, fuel as nat),
    decreases fuel, 3nat, 0nat,
{
    if fuel == 0 {
        return Err(RunError::OutOfSteps);
    }
    let n = f.value_count();
    let mut env: Vec<RunValue> = Vec::new();
    let mut i: usize = 0;
    while i < n
        invariant
            i <= n,
            n == f@.values.len(),
            env@ =~= fresh_env(f@).take(i as int),
        decreases n - i,
    {
        env.push(RunValue::Int(0));
        i = i + 1;
    }
    assert(fresh_env(f@).take(n as int) =~= fresh_env(f@));
    run_block(m, f, Block(0), args, &mut env, fuel - 1)
}

/// Execute `function` of `module` with `args` bound to its parameters, and
/// return its result.
pub fn run_function(module: &Module, function: &Function, args: &[RunValue]) -> (r: Result<
    RunValue,
    RunError,
>)
    ensures
        r == run_s(module@, function@, args@, budget()),
{
    let mut a: Vec<RunValue> = Vec::new();
    let mut i: usize = 0;
    while i < args.len()
        invariant
            i <= args@.len(),
            a@ =~= args@.take(i as int),
        decreases args@.len() - i,
    {
        a.push(args[i]);
        i = i + 1;
    }
    assert(args@.take(i as int) =~= args@);
    run_fuel(module, function, a, 18446744073709551615u64)
}

/// Execute a module's `main` function (with no arguments) and return its
/// result, or [`RunError::NoEntryPoint`] when there is no `main`.
pub fn interpret(module: &Module) -> (r: Result<RunValue, RunError>)
    ensures
        match find_function(module@, "main"@) {
            None => r == Err::<RunValue, RunError>(RunError::NoEntryPoint),
            Some(i) => r == run_s(module@, module@[i], seq![], budget()),
        },
        lacks_entry(r) == (find_function(module@, "main"@) is None),
{
    proof {
        if let Some(i) = find_function(module@, "main"@) {
            lemma_run_has_entry(module@, module@[i], seq![], budget());
        }
    }
    match module.function_by_name("main") {
        None => Err(RunError::NoEntryPoint),
        Some(main) => run_fuel(module, main, Vec::new(), 18446744073709551615u64),
    }
}

} // verus!

//! Verified AIR does not go wrong.
//!
//! The verifier checks dominance and types; the interpreter relies on them.
//! The theorem here connects the two: when a module passes verification,
//! running one of its functions with arguments of the parameters' types
//! never reaches a malformed state, and a result it returns has the
//! function's return type. (A run may still stop on a division by zero or
//! when its budget runs out.)

use vstd::prelude::*;
use crate::air::{find_function, lemma_find_function_from, FunctionV, InstDataV, TerminatorV, Type, UnaryOp, Value, ValueDefV};
use crate::air_verify::{
    available, block_msgs, blocks_msgs, body_msgs, call_args_msgs, call_msgs, defined_at, defines,
    edge, function_msgs, inst_msgs, is_walk, module_msgs, operand_msgs, operand_ok, param_types,
    reachable, reaches, relation_msgs, require_msgs, result_msgs, target_args_msgs, target_fits,
    target_msgs, targets, term_msgs, term_operand_msgs, unary_type,
};
use crate::interp::{
    args_values, bind_s, block_s, body_s, bool_operand, edge_s, eval_s, fresh_env, int_operand,
    min_len, operand, run_s, RunError, RunValue,
};

verus! {

/// A runtime value of the given type.
pub open spec fn has_type(v: RunValue, t: Type) -> bool {
    match t {
        Type::Int => v is Int,
        Type::Bool => v is Bool,
    }
}

/// An outcome that is not malformed and, when it is a value, has type `t`.
pub open spec fn run_ok(t: Type, r: Result<RunValue, RunError>) -> bool {
    match r {
        Ok(v) => has_type(v, t),
        Err(e) => e != RunError::Malformed,
    }
}

/// A module that verification accepts, made of well-formed functions.
pub open spec fn verified_module(fs: Seq<FunctionV>) -> bool {
    &&& module_msgs(fs, fs.len() as int).len() == 0
    &&& forall|i: int| 0 <= i < fs.len() ==> (#[trigger] fs[i]).wf()
}

/// Arguments matching a function's parameters in number and type.
pub open spec fn typed_args(f: FunctionV, args: Seq<RunValue>) -> bool {
    &&& args.len() == f.params().len()
    &&& forall|i: int| 0 <= i < args.len() ==> has_type(#[trigger] args[i], f.ty(f.params()[i]))
}

/// Some block a path passes before its end defines `v`.
pub open spec fn path_defines(f: FunctionV, p: Seq<int>, v: Value) -> bool {
    exists|i: int| 0 <= i < p.len() - 1 && #[trigger] defines(f, p[i], v)
}

/// `v` is defined at position `k` of block `b`, reached along path `p`.
pub open spec fn defined_here(f: FunctionV, p: Seq<int>, b: int, k: int, v: Value) -> bool {
    path_defines(f, p, v) || f.blocks[b].params.contains(v) || f.blocks[b].body.take(k).contains(v)
}

/// Every value defined at position `k` of block `b` holds a value of its type.
pub open spec fn env_typed(f: FunctionV, p: Seq<int>, b: int, k: int, env: Seq<RunValue>) -> bool {
    &&& env.len() == f.values.len()
    &&& forall|v: Value|
        v.0 < f.values.len() && #[trigger] defined_here(f, p, b, k, v) ==> has_type(
            env[v.0 as int],
            f.ty(v),
        )
}

/// A path from the entry that ends at `b`.
pub open spec fn path_to(f: FunctionV, p: Seq<int>, b: int) -> bool {
    is_walk(f, p, |x: int| false) && p.last() == b
}

// ---------------------------------------------------------------------------
// What verification says of each reachable block.

proof fn lemma_module_clean(fs: Seq<FunctionV>, n: int, i: int)
    requires
        module_msgs(fs, n).len() == 0,
        0 <= i < n,
    ensures
        blocks_msgs(fs, fs[i], fs[i].blocks.len() as int).len() == 0,
    decreases n,
{
    if i < n - 1 {
        lemma_module_clean(fs, n - 1, i);
    } else {
        assert(function_msgs(fs, fs[i]).len() == 0);
    }
}

proof fn lemma_blocks_clean(fs: Seq<FunctionV>, f: FunctionV, n: int, b: int)
    requires
        blocks_msgs(fs, f, n).len() == 0,
        0 <= b < n,
    ensures
        block_msgs(fs, f, b).len() == 0,
    decreases n,
{
    if b < n - 1 {
        lemma_blocks_clean(fs, f, n - 1, b);
    }
}

proof fn lemma_body_clean(fs: Seq<FunctionV>, f: FunctionV, b: int, k: int, j: int)
    requires
        body_msgs(fs, f, b, k).len() == 0,
        0 <= j < k,
    ensures
        inst_msgs(fs, f, b, j, f.blocks[b].body[j]).len() == 0,
    decreases k,
{
    if j < k - 1 {
        lemma_body_clean(fs, f, b, k - 1, j);
    }
}

/// A block reached along a path from the entry is checked, and passes.
proof fn lemma_block_clean(fs: Seq<FunctionV>, fi: int, p: Seq<int>, b: int)
    requires
        verified_module(fs),
        0 <= fi < fs.len(),
        path_to(fs[fi], p, b),
    ensures
        0 <= b < fs[fi].blocks.len(),
        reachable(fs[fi], b),
        body_msgs(fs, fs[fi], b, fs[fi].blocks[b].body.len() as int).len() == 0,
        term_msgs(fs[fi], b).len() == 0,
{
    let f = fs[fi];
    if p.len() == 1 {
        assert(p.last() == p[0]);
    } else {
        assert(edge(f, p[p.len() - 2], p[p.len() - 1]));
    }
    assert(reaches(f, b, |x: int| false));
    lemma_module_clean(fs, fs.len() as int, fi);
    lemma_blocks_clean(fs, f, f.blocks.len() as int, b);
}

/// Dominance: a value available on entry to a block is defined by some
/// block that every path from the entry passes before reaching it.
pub proof fn lemma_available_on_path(f: FunctionV, p: Seq<int>, b: int, v: Value)
    requires
        path_to(f, p, b),
        available(f, b, v),
    ensures
        path_defines(f, p, v),
{
    if !path_defines(f, p, v) {
        let blocked = |x: int| defines(f, x, v);
        assert forall|i: int| 0 <= i < p.len() - 1 implies edge(f, #[trigger] p[i], p[i + 1])
            && !blocked(p[i]) by {
            assert(!defines(f, p[i], v));
        }
        assert(is_walk(f, p, blocked));
        assert(reaches(f, b, blocked));
    }
}

/// An operand that verification accepts holds a value of its type.
proof fn lemma_operand(f: FunctionV, p: Seq<int>, b: int, k: int, env: Seq<RunValue>, o: Value)
    requires
        path_to(f, p, b),
        env_typed(f, p, b, k, env),
        operand_ok(f, b, k, o),
    ensures
        operand(env, o) == Some(env[o.0 as int]),
        has_type(env[o.0 as int], f.ty(o)),
{
    if available(f, b, o) {
        lemma_available_on_path(f, p, b, o);
    }
    assert(defined_here(f, p, b, k, o));
}

/// Binding parameters to typed arguments gives each parameter a value of its
/// type and leaves every other value alone.
proof fn lemma_bind(f: FunctionV, env: Seq<RunValue>, params: Seq<Value>, incoming: Seq<RunValue>, n: int)
    requires
        0 <= n <= params.len(),
        n <= incoming.len(),
        env.len() == f.values.len(),
        forall|i: int| 0 <= i < params.len() ==> (#[trigger] params[i]).0 < f.values.len(),
        forall|i: int| 0 <= i < n ==> has_type(#[trigger] incoming[i], f.ty(params[i])),
    ensures
        bind_s(env, params, incoming, n) is Some,
        bind_s(env, params, incoming, n)->0.len() == env.len(),
        forall|v: Value|
            v.0 < f.values.len() ==> if #[trigger] params.take(n).contains(v) {
                has_type(bind_s(env, params, incoming, n)->0[v.0 as int], f.ty(v))
            } else {
                bind_s(env, params, incoming, n)->0[v.0 as int] == env[v.0 as int]
            },
    decreases n,
{
    if n > 0 {
        lemma_bind(f, env, params, incoming, n - 1);
        let e = bind_s(env, params, incoming, n - 1)->0;
        let q = params[n - 1];
        assert(params.take(n) =~= params.take(n - 1).push(q));
        assert forall|v: Value| v.0 < f.values.len() implies if #[trigger] params.take(n).contains(v) {
            has_type(bind_s(env, params, incoming, n)->0[v.0 as int], f.ty(v))
        } else {
            bind_s(env, params, incoming, n)->0[v.0 as int] == env[v.0 as int]
        } by {
            crate::air_verify::lemma_contains_push(params.take(n - 1), q, v);
            if v.0 == q.0 {
                assert(v == q);
            }
        }
    }
}

proof fn lemma_call_args_clean(
    f: FunctionV,
    b: int,
    k: int,
    user: Value,
    args: Seq<Value>,
    sig: Option<Seq<Type>>,
    n: int,
    i: int,
)
    requires
        call_args_msgs(f, b, k, user, args, sig, n).len() == 0,
        0 <= i < n,
    ensures
        (match sig {
            Some(ts) => require_msgs(f, b, k, user, args[i], ts[i]),
            None => operand_msgs(f, b, k, user, args[i]),
        }).len() == 0,
    decreases n,
{
    if i < n - 1 {
        lemma_call_args_clean(f, b, k, user, args, sig, n - 1, i);
    }
}

proof fn lemma_target_args_clean(
    f: FunctionV,
    b: int,
    t: crate::air::BranchTargetV,
    mnem: Seq<char>,
    n: int,
    i: int,
)
    requires
        target_args_msgs(f, b, t, mnem, n).len() == 0,
        0 <= i < n,
    ensures
        term_operand_msgs(f, b, t.args[i], mnem).len() == 0,
        target_fits(f, t) && operand_ok(f, b, f.blocks[b].body.len() as int, t.args[i]) ==> f.ty(
            t.args[i],
        ) == f.ty(f.blocks[t.block.0 as int].params[i]),
    decreases n,
{
    if i < n - 1 {
        lemma_target_args_clean(f, b, t, mnem, n - 1, i);
    }
}

/// Reading arguments that are all values of the frame.
proof fn lemma_args_values(env: Seq<RunValue>, args: Seq<Value>, n: int)
    requires
        0 <= n <= args.len(),
        forall|i: int| 0 <= i < n ==> (#[trigger] args[i]).0 < env.len(),
    ensures
        args_values(env, args, n) is Some,
        args_values(env, args, n)->0.len() == n,
        forall|i: int|
            0 <= i < n ==> #[trigger] args_values(env, args, n)->0[i] == env[args[i].0 as int],
    decreases n,
{
    if n > 0 {
        lemma_args_values(env, args, n - 1);
    }
}

/// A term operand that verification accepts is an operand defined at the end
/// of its block.
proof fn lemma_term_operand(f: FunctionV, b: int, o: Value, mnem: Seq<char>)
    requires
        term_operand_msgs(f, b, o, mnem).len() == 0,
    ensures
        operand_ok(f, b, f.blocks[b].body.len() as int, o),
{
}

// ---------------------------------------------------------------------------
// The theorem.

/// Running a function of a verified module on arguments of its parameters'
/// types never reaches a malformed state, and a value it returns has the
/// function's return type.
pub proof fn lemma_verified_run(fs: Seq<FunctionV>, fi: int, args: Seq<RunValue>, fuel: nat)
    requires
        verified_module(fs),
        0 <= fi < fs.len(),
        typed_args(fs[fi], args),
    ensures
        run_ok(fs[fi].return_type, run_s(fs, fs[fi], args, fuel)),
    decreases fuel, 3int, 0int,
{
    let f = fs[fi];
    if fuel > 0 {
        let p = seq![0int];
        assert(is_walk(f, p, |x: int| false));
        assert(path_to(f, p, 0));
        assert(fresh_env(f).len() == f.values.len());
        lemma_block(fs, fi, 0, args, fresh_env(f), p, (fuel - 1) as nat);
    }
}

proof fn lemma_block(
    fs: Seq<FunctionV>,
    fi: int,
    b: int,
    incoming: Seq<RunValue>,
    env: Seq<RunValue>,
    p: Seq<int>,
    fuel: nat,
)
    requires
        verified_module(fs),
        0 <= fi < fs.len(),
        path_to(fs[fi], p, b),
        env.len() == fs[fi].values.len(),
        forall|v: Value|
            v.0 < fs[fi].values.len() && #[trigger] path_defines(fs[fi], p, v) ==> has_type(
                env[v.0 as int],
                fs[fi].ty(v),
            ),
        incoming.len() == fs[fi].blocks[b].params.len(),
        forall|i: int|
            0 <= i < incoming.len() ==> has_type(
                #[trigger] incoming[i],
                fs[fi].ty(fs[fi].blocks[b].params[i]),
            ),
    ensures
        run_ok(fs[fi].return_type, block_s(fs, fs[fi], b, incoming, env, fuel)),
    decreases fuel, 2int, 0int,
{
    let f = fs[fi];
    lemma_block_clean(fs, fi, p, b);
    let bd = f.blocks[b];
    let l = bd.body.len() as int;
    assert forall|i: int| 0 <= i < bd.params.len() implies (#[trigger] bd.params[i]).0
        < f.values.len() by {
        assert(f.blocks[b].params[i] == bd.params[i]);
    }
    lemma_bind(f, env, bd.params, incoming, bd.params.len() as int);
    assert(min_len(bd.params.len(), incoming.len()) == bd.params.len());
    let env1 = bind_s(env, bd.params, incoming, bd.params.len() as int)->0;
    assert(bd.params.take(bd.params.len() as int) =~= bd.params);
    assert(bd.body.take(0) =~= Seq::<Value>::empty());
    assert forall|v: Value| v.0 < f.values.len() && #[trigger] defined_here(f, p, b, 0, v) implies has_type(
        env1[v.0 as int],
        f.ty(v),
    ) by {
        if !bd.params.contains(v) {
            assert(env1[v.0 as int] == env[v.0 as int]);
            assert(path_defines(f, p, v));
        }
    }
    assert(env_typed(f, p, b, 0, env1));
    lemma_body(fs, fi, b, p, 0, env1, fuel);
    match body_s(fs, f, bd.body, 0, env1, fuel) {
        Err(e) => {},
        Ok(env2) => {
            match bd.terminator {
                None => {
                    assert(term_msgs(f, b).len() == 1);
                },
                Some(TerminatorV::Ret(v)) => {
                    lemma_term_operand(f, b, v, "ret"@);
                    lemma_operand(f, p, b, l, env2, v);
                },
                Some(TerminatorV::Br(t)) => {
                    lemma_edge(fs, fi, b, t, "br"@, env2, p, fuel);
                },
                Some(TerminatorV::CondBr { cond, then_branch, else_branch }) => {
                    lemma_term_operand(f, b, cond, "condbr"@);
                    lemma_operand(f, p, b, l, env2, cond);
                    lemma_edge(fs, fi, b, then_branch, "condbr"@, env2, p, fuel);
                    lemma_edge(fs, fi, b, else_branch, "condbr"@, env2, p, fuel);
                },
            }
        },
    }
}

proof fn lemma_edge(
    fs: Seq<FunctionV>,
    fi: int,
    b: int,
    t: crate::air::BranchTargetV,
    mnem: Seq<char>,
    env: Seq<RunValue>,
    p: Seq<int>,
    fuel: nat,
)
    requires
        verified_module(fs),
        0 <= fi < fs.len(),
        path_to(fs[fi], p, b),
        0 <= b < fs[fi].blocks.len(),
        env_typed(fs[fi], p, b, fs[fi].blocks[b].body.len() as int, env),
        target_msgs(fs[fi], b, t, mnem).len() == 0,
        match fs[fi].blocks[b].terminator {
            Some(term) => targets(term, t.block.0 as int),
            None => false,
        },
    ensures
        run_ok(fs[fi].return_type, edge_s(fs, fs[fi], t, env, fuel)),
    decreases fuel, 1int, 0int,
{
    let f = fs[fi];
    let l = f.blocks[b].body.len() as int;
    let n = t.args.len() as int;
    let tb = t.block.0 as int;
    assert(tb < f.blocks.len());
    assert(target_fits(f, t));
    assert forall|i: int| 0 <= i < n implies (#[trigger] t.args[i]).0 < env.len() by {
        lemma_target_args_clean(f, b, t, mnem, n, i);
        lemma_term_operand(f, b, t.args[i], mnem);
    }
    lemma_args_values(env, t.args, n);
    let vals = args_values(env, t.args, n)->0;
    if fuel > 0 {
        let q = p.push(tb);
        assert(edge(f, b, tb));
        assert forall|i: int| 0 <= i < q.len() - 1 implies edge(f, #[trigger] q[i], q[i + 1])
            && !((|x: int| false)(q[i])) by {
            if i < p.len() - 1 {
                assert(q[i] == p[i] && q[i + 1] == p[i + 1]);
            } else {
                assert(q[i] == b);
            }
        }
        assert(path_to(f, q, tb));
        assert forall|v: Value| v.0 < f.values.len() && #[trigger] path_defines(f, q, v) implies has_type(
            env[v.0 as int],
            f.ty(v),
        ) by {
            let i = choose|i: int| 0 <= i < q.len() - 1 && #[trigger] defines(f, q[i], v);
            if i < p.len() - 1 {
                assert(q[i] == p[i]);
                assert(path_defines(f, p, v));
            } else {
                assert(q[i] == b);
                assert(f.blocks[b].body.take(l) =~= f.blocks[b].body);
            }
            assert(defined_here(f, p, b, l, v));
        }
        assert forall|i: int| 0 <= i < vals.len() implies has_type(
            #[trigger] vals[i],
            f.ty(f.blocks[tb].params[i]),
        ) by {
            lemma_target_args_clean(f, b, t, mnem, n, i);
            lemma_term_operand(f, b, t.args[i], mnem);
            lemma_operand(f, p, b, l, env, t.args[i]);
        }
        lemma_block(fs, fi, tb, vals, env, q, (fuel - 1) as nat);
    }
}

proof fn lemma_body(
    fs: Seq<FunctionV>,
    fi: int,
    b: int,
    p: Seq<int>,
    k: int,
    env: Seq<RunValue>,
    fuel: nat,
)
    requires
        verified_module(fs),
        0 <= fi < fs.len(),
        path_to(fs[fi], p, b),
        0 <= b < fs[fi].blocks.len(),
        body_msgs(fs, fs[fi], b, fs[fi].blocks[b].body.len() as int).len() == 0,
        0 <= k <= fs[fi].blocks[b].body.len(),
        env_typed(fs[fi], p, b, k, env),
    ensures
        match body_s(fs, fs[fi], fs[fi].blocks[b].body, k, env, fuel) {
            Ok(e) => env_typed(fs[fi], p, b, fs[fi].blocks[b].body.len() as int, e),
            Err(x) => x != RunError::Malformed,
        },
    decreases fuel, 1int, fs[fi].blocks[b].body.len() - k,
{
    let f = fs[fi];
    let body = f.blocks[b].body;
    let l = body.len() as int;
    if k < l {
        let v = body[k];
        lemma_body_clean(fs, f, b, l, k);
        lemma_eval(fs, fi, b, p, k, env, fuel);
        match eval_s(fs, f, env, v, fuel) {
            Err(e) => {},
            Ok(r) => {
                assert(v.0 < f.values.len());
                let env2 = env.update(v.0 as int, r);
                assert(body.take(k + 1) =~= body.take(k).push(v));
                assert forall|w: Value| w.0 < f.values.len() && #[trigger] defined_here(
                    f,
                    p,
                    b,
                    k + 1,
                    w,
                ) implies has_type(env2[w.0 as int], f.ty(w)) by {
                    crate::air_verify::lemma_contains_push(body.take(k), v, w);
                    if w.0 == v.0 {
                        assert(w == v);
                    } else {
                        assert(defined_here(f, p, b, k, w));
                    }
                }
                lemma_body(fs, fi, b, p, k + 1, env2, fuel);
            },
        }
    } else {
        assert(body.take(k) =~= body.take(l));
    }
}

proof fn lemma_eval(
    fs: Seq<FunctionV>,
    fi: int,
    b: int,
    p: Seq<int>,
    k: int,
    env: Seq<RunValue>,
    fuel: nat,
)
    requires
        verified_module(fs),
        0 <= fi < fs.len(),
        path_to(fs[fi], p, b),
        0 <= b < fs[fi].blocks.len(),
        0 <= k < fs[fi].blocks[b].body.len(),
        inst_msgs(fs, fs[fi], b, k, fs[fi].blocks[b].body[k]).len() == 0,
        env_typed(fs[fi], p, b, k, env),
    ensures
        run_ok(
            fs[fi].ty(fs[fi].blocks[b].body[k]),
            eval_s(fs, fs[fi], env, fs[fi].blocks[b].body[k], fuel),
        ),
    decreases fuel, 0int, 0int,
{
    reveal(inst_msgs);
    let f = fs[fi];
    let v = f.blocks[b].body[k];
    assert(v.0 < f.values.len() && f.values[v.0 as int].def is Inst);
    let ty = f.ty(v);
    match f.values[v.0 as int].def {
        ValueDefV::Inst(InstDataV::Unary { op, operand: o }) => {
            lemma_operand(f, p, b, k, env, o);
        },
        ValueDefV::Inst(InstDataV::Binary { lhs, rhs, .. }) => {
            lemma_operand(f, p, b, k, env, lhs);
            lemma_operand(f, p, b, k, env, rhs);
        },
        ValueDefV::Inst(InstDataV::ICmp { op, lhs, rhs }) => {
            lemma_operand(f, p, b, k, env, lhs);
            lemma_operand(f, p, b, k, env, rhs);
        },
        ValueDefV::Inst(InstDataV::Call { callee, args }) => {
            let n = args.len() as int;
            lemma_find_function_from(fs, callee, 0);
            match find_function(fs, callee) {
                None => {
                    assert(call_msgs(fs, f, b, k, v, callee, args, ty).len() >= 1);
                },
                Some(gi) => {
                    let g = fs[gi];
                    let ts = param_types(g);
                    assert(n == ts.len());
                    assert forall|i: int| 0 <= i < n implies (#[trigger] args[i]).0 < env.len()
                        && has_type(env[args[i].0 as int], ts[i]) by {
                        lemma_call_args_clean(f, b, k, v, args, Some(ts), n, i);
                        lemma_operand(f, p, b, k, env, args[i]);
                    }
                    lemma_args_values(env, args, n);
                    let vals = args_values(env, args, n)->0;
                    if fuel > 0 {
                        assert(typed_args(g, vals));
                        lemma_verified_run(fs, gi, vals, (fuel - 1) as nat);
                    }
                },
            }
        },
        _ => {},
    }
}

/// Executing `main` of a verified module, when `main` takes no parameters,
/// never reaches a malformed state, and a value it returns has `main`'s
/// return type.
pub proof fn lemma_verified_main(fs: Seq<FunctionV>, fuel: nat)
    requires
        verified_module(fs),
        find_function(fs, "main"@) is Some,
        fs[find_function(fs, "main"@)->0].params().len() == 0,
    ensures
        run_ok(
            fs[find_function(fs, "main"@)->0].return_type,
            run_s(fs, fs[find_function(fs, "main"@)->0], seq![], fuel),
        ),
{
    lemma_find_function_from(fs, "main"@, 0);
    let i = find_function(fs, "main"@)->0;
    assert(typed_args(fs[i], seq![]));
    lemma_verified_run(fs, i, seq![], fuel);
}

} // verus!

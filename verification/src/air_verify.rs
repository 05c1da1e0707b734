//! The AIR verifier: checks the structural invariants of a module.
//!
//! Only blocks reachable from the entry are checked. For each of them: every
//! operand is a value whose definition dominates the use (a value is
//! available at a block when every path from the entry to the block passes a
//! definition of it; block parameters define values at their block),
//! operand and result types agree, a `condbr` condition is a `bool`, branch
//! and call arguments match the parameters of their target, a `ret` returns
//! the function's return type, and every block has a terminator whose branch
//! targets exist.

use vstd::prelude::*;
use crate::air::{
    find_function, relation_is_equality, relation_mnemonic, ty_name, Block, BranchTarget, BranchTargetV,
    Function, FunctionV, InstData, InstDataV, Module, Terminator, TerminatorV, Type, UnaryOp, Value,
    ValueDef, ValueDefV,
};
use crate::air_print::{push_vref, vref};
use crate::text::{decimal, push_usize};

verus! {

// ---------------------------------------------------------------------------
// Paths through the control-flow graph.

/// Whether terminator `t` names block `b` as a successor.
pub open spec fn targets(t: TerminatorV, b: int) -> bool {
    match t {
        TerminatorV::Ret(_) => false,
        TerminatorV::Br(x) => x.block.0 == b,
        TerminatorV::CondBr { then_branch, else_branch, .. } => then_branch.block.0 == b
            || else_branch.block.0 == b,
    }
}

/// An edge of the control-flow graph between two existing blocks.
pub open spec fn edge(f: FunctionV, a: int, b: int) -> bool {
    &&& 0 <= a < f.blocks.len()
    &&& 0 <= b < f.blocks.len()
    &&& match f.blocks[a].terminator {
        Some(t) => targets(t, b),
        None => false,
    }
}

/// A path from the entry block that leaves no `blocked` block before its end.
pub open spec fn is_walk(f: FunctionV, p: Seq<int>, blocked: spec_fn(int) -> bool) -> bool {
    &&& p.len() >= 1
    &&& p[0] == 0
    &&& forall|i: int|
        0 <= i < p.len() - 1 ==> edge(f, #[trigger] p[i], p[i + 1]) && !blocked(p[i])
}

/// Whether some path from the entry reaches `b` without leaving a `blocked`
/// block before its end.
pub open spec fn reaches(f: FunctionV, b: int, blocked: spec_fn(int) -> bool) -> bool {
    exists|p: Seq<int>| #[trigger] is_walk(f, p, blocked) && p.last() == b
}

/// Whether block `b` is reachable from the entry.
pub open spec fn reachable(f: FunctionV, b: int) -> bool {
    reaches(f, b, |x: int| false)
}

/// Whether block `x` defines `v`, as a parameter or in its body.
pub open spec fn defines(f: FunctionV, x: int, v: Value) -> bool {
    f.blocks[x].params.contains(v) || f.blocks[x].body.contains(v)
}

/// Whether `v` is available on entry to block `b`: every path from the entry
/// to `b` passes a definition of `v` before reaching `b`.
pub open spec fn available(f: FunctionV, b: int, v: Value) -> bool {
    !reaches(f, b, |x: int| defines(f, x, v))
}

/// The number of `false` entries.
pub open spec fn count_false(s: Seq<bool>) -> nat
    decreases s.len(),
{
    if s.len() == 0 {
        0
    } else {
        count_false(s.drop_last()) + if s.last() {
            0nat
        } else {
            1nat
        }
    }
}

proof fn lemma_count_false_set(s: Seq<bool>, i: int)
    requires
        0 <= i < s.len(),
        !s[i],
    ensures
        count_false(s.update(i, true)) + 1 == count_false(s),
    decreases s.len(),
{
    let t = s.update(i, true);
    if i == s.len() - 1 {
        assert(t.drop_last() =~= s.drop_last());
    } else {
        assert(t.drop_last() =~= s.drop_last().update(i, true));
        lemma_count_false_set(s.drop_last(), i);
    }
}

/// Extending a walk to `x` by an edge out of an unblocked `x` gives a walk.
proof fn lemma_walk_extend(f: FunctionV, x: int, y: int, blocked: spec_fn(int) -> bool)
    requires
        reaches(f, x, blocked),
        !blocked(x),
        edge(f, x, y),
    ensures
        reaches(f, y, blocked),
{
    let p = choose|p: Seq<int>| #[trigger] is_walk(f, p, blocked) && p.last() == x;
    let q = p.push(y);
    assert forall|i: int| 0 <= i < q.len() - 1 implies edge(f, #[trigger] q[i], q[i + 1])
        && !blocked(q[i]) by {
        if i < p.len() - 1 {
            assert(q[i] == p[i] && q[i + 1] == p[i + 1]);
        }
    }
    assert(is_walk(f, q, blocked));
}

/// A set of blocks that holds the entry and is closed under edges out of
/// unblocked blocks holds the end of every walk.
proof fn lemma_closed_holds_walks(
    f: FunctionV,
    seen: Seq<bool>,
    blocked: spec_fn(int) -> bool,
    p: Seq<int>,
)
    requires
        seen.len() == f.blocks.len(),
        seen.len() >= 1,
        seen[0],
        forall|x: int, y: int|
            0 <= x < seen.len() && #[trigger] seen[x] && !blocked(x) && #[trigger] edge(f, x, y)
                ==> seen[y],
        is_walk(f, p, blocked),
    ensures
        0 <= p.last() < seen.len() && seen[p.last()],
    decreases p.len(),
{
    if p.len() == 1 {
        assert(p.last() == p[0]);
    } else {
        let q = p.drop_last();
        assert forall|i: int| 0 <= i < q.len() - 1 implies edge(f, #[trigger] q[i], q[i + 1])
            && !blocked(q[i]) by {
            assert(q[i] == p[i] && q[i + 1] == p[i + 1]);
        }
        lemma_closed_holds_walks(f, seen, blocked, q);
        assert(p[p.len() - 2] == q.last());
        let x = p[p.len() - 2];
        assert(edge(f, x, p[p.len() - 1]) && !blocked(x));
        assert(seen[x]);
        assert(seen[p[p.len() - 1]]);
    }
}

// ---------------------------------------------------------------------------
// Availability as a dataflow solution.

/// An assignment `s` of available values to blocks solves the availability
/// equations: nothing is available on entry to the entry block, and a value
/// is available on entry to any other reachable block exactly when every
/// reachable predecessor has it on the way out, being available on entry to
/// that predecessor or defined by it.
pub open spec fn solves_availability(f: FunctionV, s: spec_fn(int, Value) -> bool) -> bool {
    &&& forall|v: Value| !#[trigger] s(0, v)
    &&& forall|b: int, v: Value|
        b != 0 && #[trigger] reachable(f, b) ==> (#[trigger] s(b, v) <==> forall|p: int|
            #[trigger] edge(f, p, b) && reachable(f, p) ==> s(p, v) || defines(f, p, v))
}

/// The end of a walk is reachable.
proof fn lemma_walk_reachable(f: FunctionV, p: Seq<int>, blocked: spec_fn(int) -> bool)
    requires
        is_walk(f, p, blocked),
    ensures
        reachable(f, p.last()),
{
    let open = |x: int| false;
    assert forall|i: int| 0 <= i < p.len() - 1 implies edge(f, #[trigger] p[i], p[i + 1])
        && !open(p[i]) by {
        assert(edge(f, p[i], p[i + 1]));
    }
    assert(is_walk(f, p, open));
}

/// A walk without its last block is a walk.
proof fn lemma_walk_prefix(f: FunctionV, p: Seq<int>, blocked: spec_fn(int) -> bool)
    requires
        is_walk(f, p, blocked),
        p.len() >= 2,
    ensures
        is_walk(f, p.drop_last(), blocked),
        p.drop_last().last() == p[p.len() - 2],
        edge(f, p[p.len() - 2], p.last()),
        !blocked(p[p.len() - 2]),
{
    let q = p.drop_last();
    assert forall|i: int| 0 <= i < q.len() - 1 implies edge(f, #[trigger] q[i], q[i + 1])
        && !blocked(q[i]) by {
        assert(q[i] == p[i] && q[i + 1] == p[i + 1]);
    }
    assert(edge(f, p[p.len() - 2], p[p.len() - 1]) && !blocked(p[p.len() - 2]));
}

/// Availability solves the availability equations: on entry to the entry
/// block nothing is available, and on entry to any other reachable block a
/// value is available exactly when it is available on entry to, or defined
/// by, each of the block's reachable predecessors.
pub proof fn lemma_availability_solves(f: FunctionV)
    ensures
        solves_availability(f, |b: int, v: Value| available(f, b, v)),
{
    let s = |b: int, v: Value| available(f, b, v);
    assert forall|v: Value| !#[trigger] s(0, v) by {
        let blocked = |x: int| defines(f, x, v);
        let w = seq![0int];
        assert(w.last() == 0);
        assert(is_walk(f, w, blocked));
    }
    assert forall|b: int, v: Value| b != 0 && #[trigger] reachable(f, b) implies (#[trigger] s(b, v)
        <==> forall|p: int| #[trigger] edge(f, p, b) && reachable(f, p) ==> s(p, v) || defines(
        f,
        p,
        v,
    )) by {
        let blocked = |x: int| defines(f, x, v);
        if available(f, b, v) {
            assert forall|p: int| #[trigger] edge(f, p, b) && reachable(f, p) implies s(p, v)
                || defines(f, p, v) by {
                if !available(f, p, v) && !defines(f, p, v) {
                    lemma_walk_extend(f, p, b, blocked);
                }
            }
        } else {
            let w = choose|w: Seq<int>| #[trigger] is_walk(f, w, blocked) && w.last() == b;
            if w.len() == 1 {
                assert(w.last() == w[0]);
            }
            lemma_walk_prefix(f, w, blocked);
            let p = w[w.len() - 2];
            lemma_walk_reachable(f, w.drop_last(), blocked);
            assert(reaches(f, p, blocked));
            assert(!(s(p, v) || defines(f, p, v)));
        }
    }
}

/// No value that a solution of the availability equations holds at a block
/// is missing at the end of a walk that passes no definition of it.
proof fn lemma_solution_misses_walk(f: FunctionV, s: spec_fn(int, Value) -> bool, v: Value, p: Seq<int>)
    requires
        solves_availability(f, s),
        is_walk(f, p, |x: int| defines(f, x, v)),
    ensures
        !s(p.last(), v),
    decreases p.len(),
{
    let blocked = |x: int| defines(f, x, v);
    if p.len() == 1 {
        assert(p.last() == p[0]);
    } else {
        lemma_walk_prefix(f, p, blocked);
        let q = p.drop_last();
        lemma_solution_misses_walk(f, s, v, q);
        let x = p[p.len() - 2];
        let y = p.last();
        if y != 0 {
            lemma_walk_reachable(f, p, blocked);
            lemma_walk_reachable(f, q, blocked);
            assert(edge(f, x, y) && reachable(f, x));
        }
    }
}

/// Availability is the greatest solution of the availability equations:
/// whatever any solution holds available on entry to a reachable block is
/// available there.
pub proof fn lemma_availability_greatest(f: FunctionV, s: spec_fn(int, Value) -> bool, b: int, v: Value)
    requires
        solves_availability(f, s),
        reachable(f, b),
        s(b, v),
    ensures
        available(f, b, v),
{
    if !available(f, b, v) {
        let blocked = |x: int| defines(f, x, v);
        let w = choose|w: Seq<int>| #[trigger] is_walk(f, w, blocked) && w.last() == b;
        lemma_solution_misses_walk(f, s, v, w);
    }
}

// ---------------------------------------------------------------------------
// Reachability.

/// One pass over the blocks, marking the in-range successors of every seen,
/// unblocked block.
fn reach_round(f: &Function, blocked: &Vec<bool>, seen: &mut Vec<bool>) -> (changed: bool)
    requires
        f@.wf(),
        blocked@.len() == f@.blocks.len(),
        old(seen)@.len() == f@.blocks.len(),
        forall|x: int|
            0 <= x < old(seen)@.len() && #[trigger] old(seen)@[x] ==> reaches(
                f@,
                x,
                |y: int| blocked@[y],
            ),
    ensures
        final(seen)@.len() == f@.blocks.len(),
        forall|x: int| 0 <= x < old(seen)@.len() && old(seen)@[x] ==> #[trigger] final(seen)@[x],
        forall|x: int|
            0 <= x < final(seen)@.len() && #[trigger] final(seen)@[x] ==> reaches(
                f@,
                x,
                |y: int| blocked@[y],
            ),
        changed ==> count_false(final(seen)@) < count_false(old(seen)@),
        !changed ==> final(seen)@ == old(seen)@,
        !changed ==> forall|x: int, y: int|
            0 <= x < final(seen)@.len() && #[trigger] final(seen)@[x] && !blocked@[x]
                && #[trigger] edge(f@, x, y) ==> final(seen)@[y],
{
    let ghost bl = |y: int| blocked@[y];
    let blocks = f.blocks();
    let n = blocks.len();
    let mut changed = false;
    let mut x: usize = 0;
    while x < n
        invariant
            f@.wf(),
            n == f@.blocks.len(),
            crate::air::blocks_view(blocks@) == f@.blocks,
            blocked@.len() == n,
            bl == (|y: int| blocked@[y]),
            seen@.len() == n,
            x <= n,
            forall|z: int| 0 <= z < n && old(seen)@[z] ==> #[trigger] seen@[z],
            forall|z: int| 0 <= z < n && #[trigger] seen@[z] ==> reaches(f@, z, bl),
            changed ==> count_false(seen@) < count_false(old(seen)@),
            !changed ==> seen@ == old(seen)@,
            !changed ==> forall|z: int, y: int|
                0 <= z < x && #[trigger] seen@[z] && !blocked@[z] && #[trigger] edge(f@, z, y)
                    ==> seen@[y],
        decreases n - x,
    {
        assert(blocks@[x as int]@ == f@.blocks[x as int]);
        if seen[x] && !blocked[x] {
            match &blocks[x].terminator {
                Some(t) => {
                    let succs = t.successors();
                    let mut k: usize = 0;
                    while k < succs.len()
                        invariant
                            f@.wf(),
                            n == f@.blocks.len(),
                            x < n,
                            seen@[x as int],
                            !blocked@[x as int],
                            blocked@.len() == n,
                            bl == (|y: int| blocked@[y]),
                            f@.blocks[x as int].terminator == Some(t@),
                            succs@ == crate::air::successors_of(t@),
                            seen@.len() == n,
                            k <= succs@.len(),
                            forall|z: int| 0 <= z < n && old(seen)@[z] ==> #[trigger] seen@[z],
                            forall|z: int| 0 <= z < n && #[trigger] seen@[z] ==> reaches(f@, z, bl),
                            changed ==> count_false(seen@) < count_false(old(seen)@),
                            !changed ==> seen@ == old(seen)@,
                            !changed ==> forall|z: int, y: int|
                                0 <= z < x && #[trigger] seen@[z] && !blocked@[z] && #[trigger] edge(
                                    f@,
                                    z,
                                    y,
                                ) ==> seen@[y],
                            !changed ==> forall|j: int|
                                0 <= j < k && succs@[j].0 < n ==> seen@[#[trigger] succs@[j].0 as int],
                        decreases succs@.len() - k,
                    {
                        let s = succs[k].index();
                        if s < n && !seen[s] {
                            proof {
                                assert(edge(f@, x as int, s as int));
                                lemma_walk_extend(f@, x as int, s as int, bl);
                                lemma_count_false_set(seen@, s as int);
                            }
                            seen.set(s, true);
                            changed = true;
                        }
                        k = k + 1;
                    }
                    proof {
                        if !changed {
                            assert forall|z: int, y: int|
                                0 <= z < x + 1 && #[trigger] seen@[z] && !blocked@[z] && #[trigger] edge(
                                    f@,
                                    z,
                                    y,
                                ) implies seen@[y] by {
                                if z == x {
                                    if succs@.len() == 1 {
                                        assert(succs@[0].0 == y);
                                    } else {
                                        assert(succs@[0].0 == y || succs@[1].0 == y);
                                    }
                                }
                            }
                        }
                    }
                },
                None => {
                    proof {
                        if !changed {
                            assert forall|z: int, y: int|
                                0 <= z < x + 1 && #[trigger] seen@[z] && !blocked@[z] && #[trigger] edge(
                                    f@,
                                    z,
                                    y,
                                ) implies seen@[y] by {
                                if z == x {
                                    assert(!edge(f@, z, y));
                                }
                            }
                        }
                    }
                },
            }
        } else {
            proof {
                if !changed {
                    assert forall|z: int, y: int|
                        0 <= z < x + 1 && #[trigger] seen@[z] && !blocked@[z] && #[trigger] edge(
                            f@,
                            z,
                            y,
                        ) implies seen@[y] by {
                        if z == x {
                            assert(!(seen@[z] && !blocked@[z]));
                        }
                    }
                }
            }
        }
        x = x + 1;
    }
    changed
}

/// The blocks that some path from the entry reaches without leaving a
/// `blocked` block before its end.
fn reach(f: &Function, blocked: &Vec<bool>) -> (r: Vec<bool>)
    requires
        f@.wf(),
        blocked@.len() == f@.blocks.len(),
    ensures
        r@.len() == f@.blocks.len(),
        forall|b: int| 0 <= b < r@.len() ==> #[trigger] r@[b] == reaches(f@, b, |y: int| blocked@[y]),
{
    let ghost bl = |y: int| blocked@[y];
    let n = f.blocks().len();
    let mut seen: Vec<bool> = Vec::new();
    let mut i: usize = 0;
    while i < n
        invariant
            i <= n,
            seen@.len() == i,
            forall|z: int| 0 <= z < i ==> !#[trigger] seen@[z],
        decreases n - i,
    {
        seen.push(false);
        i = i + 1;
    }
    proof {
        let p = seq![0int];
        assert(is_walk(f@, p, bl));
        assert(reaches(f@, 0, bl));
    }
    seen.set(0, true);
    loop
        invariant
            f@.wf(),
            n == f@.blocks.len(),
            blocked@.len() == n,
            bl == (|y: int| blocked@[y]),
            seen@.len() == n,
            seen@[0],
            forall|z: int| 0 <= z < n && #[trigger] seen@[z] ==> reaches(f@, z, bl),
        decreases count_false(seen@),
    {
        let ghost before = seen@;
        let changed = reach_round(f, blocked, &mut seen);
        if !changed {
            proof {
                assert forall|b: int| 0 <= b < n implies #[trigger] seen@[b] == reaches(f@, b, bl) by {
                    if reaches(f@, b, bl) {
                        let p = choose|p: Seq<int>| #[trigger] is_walk(f@, p, bl) && p.last() == b;
                        lemma_closed_holds_walks(f@, seen@, bl, p);
                    }
                }
            }
            return seen;
        }
    }
}

// ---------------------------------------------------------------------------
// The problems reported, stated over the views.

/// Whether `v` is defined at position `k` of block `b`: available on entry,
/// a parameter of the block, or computed by one of its first `k` values.
pub open spec fn defined_at(f: FunctionV, b: int, k: int, v: Value) -> bool {
    available(f, b, v) || f.blocks[b].params.contains(v) || f.blocks[b].body.take(k).contains(v)
}

/// A block reference, e.g. `block2`.
pub open spec fn bref(b: int) -> Seq<char> {
    "block"@ + decimal(b as nat)
}

/// Whether an operand used at position `k` of block `b` is a defined value.
pub open spec fn operand_ok(f: FunctionV, b: int, k: int, o: Value) -> bool {
    o.0 < f.values.len() && defined_at(f, b, k, o)
}

/// The problems with operand `o` of instruction `user`.
pub open spec fn operand_msgs(f: FunctionV, b: int, k: int, user: Value, o: Value) -> Seq<Seq<char>> {
    if o.0 >= f.values.len() {
        seq![vref(user) + " uses undefined value"@]
    } else if !defined_at(f, b, k, o) {
        seq![vref(user) + " uses "@ + vref(o) + " whose definition does not dominate this use"@]
    } else {
        seq![]
    }
}

/// The problems with operand `o` of `user`, which must have type `expected`.
pub open spec fn require_msgs(
    f: FunctionV,
    b: int,
    k: int,
    user: Value,
    o: Value,
    expected: Type,
) -> Seq<Seq<char>> {
    operand_msgs(f, b, k, user, o) + if operand_ok(f, b, k, o) && f.ty(o) != expected {
        seq![
            vref(user) + " expects a "@ + ty_name(expected) + " operand but "@ + vref(o)
                + " has type "@ + ty_name(f.ty(o)),
        ]
    } else {
        seq![]
    }
}

/// The problem when a result type differs from what the operation produces.
pub open spec fn result_msgs(actual: Type, expected: Type, v: Value) -> Seq<Seq<char>> {
    if actual != expected {
        seq![
            vref(v) + " has result type "@ + ty_name(actual) + " but the operation produces "@
                + ty_name(expected),
        ]
    } else {
        seq![]
    }
}

/// The types of a function's parameters.
pub open spec fn param_types(g: FunctionV) -> Seq<Type> {
    g.params().map_values(|p: Value| g.ty(p))
}

/// The problems with the first `n` arguments of a call by `user`; with a
/// signature, each argument must have its parameter's type.
pub open spec fn call_args_msgs(
    f: FunctionV,
    b: int,
    k: int,
    user: Value,
    args: Seq<Value>,
    sig: Option<Seq<Type>>,
    n: int,
) -> Seq<Seq<char>>
    decreases n,
{
    if n <= 0 {
        seq![]
    } else {
        call_args_msgs(f, b, k, user, args, sig, n - 1) + match sig {
            Some(ts) => require_msgs(f, b, k, user, args[n - 1], ts[n - 1]),
            None => operand_msgs(f, b, k, user, args[n - 1]),
        }
    }
}

/// The problems with a call `v = call callee(args)` whose result has type `ty`.
pub open spec fn call_msgs(
    fs: Seq<FunctionV>,
    f: FunctionV,
    b: int,
    k: int,
    v: Value,
    callee: Seq<char>,
    args: Seq<Value>,
    ty: Type,
) -> Seq<Seq<char>> {
    match find_function(fs, callee) {
        None => seq![vref(v) + " calls unknown function `"@ + callee + "`"@] + call_args_msgs(
            f,
            b,
            k,
            v,
            args,
            None,
            args.len() as int,
        ),
        Some(gi) => if args.len() != param_types(fs[gi]).len() {
            seq![
                vref(v) + " passes "@ + decimal(args.len()) + " arguments to `"@ + callee
                    + "`, which takes "@ + decimal(param_types(fs[gi]).len()),
            ] + call_args_msgs(f, b, k, v, args, None, args.len() as int) + result_msgs(
                ty,
                fs[gi].return_type,
                v,
            )
        } else {
            call_args_msgs(f, b, k, v, args, Some(param_types(fs[gi])), args.len() as int)
                + result_msgs(ty, fs[gi].return_type, v)
        },
    }
}

/// The operand type and result type of a unary operator.
pub open spec fn unary_type(op: UnaryOp) -> Type {
    match op {
        UnaryOp::Neg => Type::Int,
        UnaryOp::Not => Type::Bool,
    }
}

/// The problems with a comparison `v = icmp op lhs, rhs` whose result has
/// type `ty`.
pub open spec fn relation_msgs(
    f: FunctionV,
    b: int,
    k: int,
    v: Value,
    op: crate::air::CmpOp,
    lhs: Value,
    rhs: Value,
    ty: Type,
) -> Seq<Seq<char>> {
    if relation_is_equality(op) {
        operand_msgs(f, b, k, v, lhs) + operand_msgs(f, b, k, v, rhs) + (if operand_ok(f, b, k, lhs)
            && operand_ok(f, b, k, rhs) && f.ty(lhs) != f.ty(rhs) {
            seq![
                vref(v) + ": `icmp "@ + relation_mnemonic(op) + "` operands have differing types "@
                    + ty_name(f.ty(lhs)) + " and "@ + ty_name(f.ty(rhs)),
            ]
        } else {
            seq![]
        }) + result_msgs(ty, Type::Bool, v)
    } else {
        require_msgs(f, b, k, v, lhs, Type::Int) + require_msgs(f, b, k, v, rhs, Type::Int)
            + result_msgs(ty, Type::Bool, v)
    }
}

/// The problems with instruction `v`, the `k`-th value of block `b`.
#[verifier::opaque]
pub open spec fn inst_msgs(fs: Seq<FunctionV>, f: FunctionV, b: int, k: int, v: Value) -> Seq<
    Seq<char>,
> {
    let ty = f.ty(v);
    match f.values[v.0 as int].def {
        ValueDefV::Inst(InstDataV::IConst(_)) => result_msgs(ty, Type::Int, v),
        ValueDefV::Inst(InstDataV::BConst(_)) => result_msgs(ty, Type::Bool, v),
        ValueDefV::Inst(InstDataV::Unary { op, operand }) => require_msgs(
            f,
            b,
            k,
            v,
            operand,
            unary_type(op),
        ) + result_msgs(ty, unary_type(op), v),
        ValueDefV::Inst(InstDataV::Binary { lhs, rhs, .. }) => require_msgs(
            f,
            b,
            k,
            v,
            lhs,
            Type::Int,
        ) + require_msgs(f, b, k, v, rhs, Type::Int) + result_msgs(ty, Type::Int, v),
        ValueDefV::Inst(InstDataV::ICmp { op, lhs, rhs }) => relation_msgs(f, b, k, v, op, lhs, rhs, ty),
        ValueDefV::Inst(InstDataV::Call { callee, args }) => call_msgs(
            fs,
            f,
            b,
            k,
            v,
            callee,
            args,
            ty,
        ),
        ValueDefV::Param { .. } => seq![],
    }
}

/// The problems with the first `k` values of block `b`.
pub open spec fn body_msgs(fs: Seq<FunctionV>, f: FunctionV, b: int, k: int) -> Seq<Seq<char>>
    decreases k,
{
    if k <= 0 {
        seq![]
    } else {
        body_msgs(fs, f, b, k - 1) + inst_msgs(fs, f, b, k - 1, f.blocks[b].body[k - 1])
    }
}

/// The problems with operand `o` of the terminator of block `b`.
pub open spec fn term_operand_msgs(f: FunctionV, b: int, o: Value, mnem: Seq<char>) -> Seq<
    Seq<char>,
> {
    if o.0 >= f.values.len() {
        seq![bref(b) + ": `"@ + mnem + "` of undefined value"@]
    } else if !defined_at(f, b, f.blocks[b].body.len() as int, o) {
        seq![
            bref(b) + ": `"@ + mnem + "` uses "@ + vref(o)
                + " whose definition does not dominate this use"@,
        ]
    } else {
        seq![]
    }
}

/// Whether a branch target exists and is passed one argument per parameter.
pub open spec fn target_fits(f: FunctionV, t: BranchTargetV) -> bool {
    t.block.0 < f.blocks.len() && t.args.len() == f.blocks[t.block.0 as int].params.len()
}

/// The problems with the first `n` arguments of branch target `t`.
pub open spec fn target_args_msgs(
    f: FunctionV,
    b: int,
    t: BranchTargetV,
    mnem: Seq<char>,
    n: int,
) -> Seq<Seq<char>>
    decreases n,
{
    if n <= 0 {
        seq![]
    } else {
        let a = t.args[n - 1];
        target_args_msgs(f, b, t, mnem, n - 1) + term_operand_msgs(f, b, a, mnem) + if target_fits(
            f,
            t,
        ) && operand_ok(f, b, f.blocks[b].body.len() as int, a) && f.ty(a) != f.ty(
            f.blocks[t.block.0 as int].params[n - 1],
        ) {
            seq![
                bref(b) + ": argument "@ + decimal((n - 1) as nat) + " to "@ + bref(t.block.0 as int)
                    + " has type "@ + ty_name(f.ty(a)) + " but the parameter has type "@ + ty_name(
                    f.ty(f.blocks[t.block.0 as int].params[n - 1]),
                ),
            ]
        } else {
            seq![]
        }
    }
}

/// The problems with a branch target of the terminator of block `b`.
pub open spec fn target_msgs(f: FunctionV, b: int, t: BranchTargetV, mnem: Seq<char>) -> Seq<
    Seq<char>,
> {
    (if t.block.0 >= f.blocks.len() {
        seq![bref(b) + ": branch to nonexistent "@ + bref(t.block.0 as int)]
    } else if !target_fits(f, t) {
        seq![
            bref(b) + ": branch to "@ + bref(t.block.0 as int) + " passes "@ + decimal(t.args.len())
                + " arguments but it takes "@ + decimal(
                f.blocks[t.block.0 as int].params.len(),
            ),
        ]
    } else {
        seq![]
    }) + target_args_msgs(f, b, t, mnem, t.args.len() as int)
}

/// The problems with the terminator of block `b`.
pub open spec fn term_msgs(f: FunctionV, b: int) -> Seq<Seq<char>> {
    let l = f.blocks[b].body.len() as int;
    match f.blocks[b].terminator {
        None => seq![bref(b) + " has no terminator"@],
        Some(TerminatorV::Ret(v)) => term_operand_msgs(f, b, v, "ret"@) + if operand_ok(f, b, l, v)
            && f.ty(v) != f.return_type {
            seq![
                bref(b) + ": `ret` type "@ + ty_name(f.ty(v)) + " does not match return type "@
                    + ty_name(f.return_type),
            ]
        } else {
            seq![]
        },
        Some(TerminatorV::Br(t)) => target_msgs(f, b, t, "br"@),
        Some(TerminatorV::CondBr { cond, then_branch, else_branch }) => term_operand_msgs(
            f,
            b,
            cond,
            "condbr"@,
        ) + (if operand_ok(f, b, l, cond) && f.ty(cond) != Type::Bool {
            seq![
                bref(b) + ": `condbr` condition has type "@ + ty_name(f.ty(cond))
                    + " but must be bool"@,
            ]
        } else {
            seq![]
        }) + target_msgs(f, b, then_branch, "condbr"@) + target_msgs(f, b, else_branch, "condbr"@),
    }
}

/// The problems with block `b`; unreachable blocks are not checked.
pub open spec fn block_msgs(fs: Seq<FunctionV>, f: FunctionV, b: int) -> Seq<Seq<char>> {
    if reachable(f, b) {
        body_msgs(fs, f, b, f.blocks[b].body.len() as int) + term_msgs(f, b)
    } else {
        seq![]
    }
}

/// The problems with the first `n` blocks of `f`.
pub open spec fn blocks_msgs(fs: Seq<FunctionV>, f: FunctionV, n: int) -> Seq<Seq<char>>
    decreases n,
{
    if n <= 0 {
        seq![]
    } else {
        blocks_msgs(fs, f, n - 1) + block_msgs(fs, f, n - 1)
    }
}

/// The problems with function `f` of module `fs`, each naming the function.
pub open spec fn function_msgs(fs: Seq<FunctionV>, f: FunctionV) -> Seq<Seq<char>> {
    blocks_msgs(fs, f, f.blocks.len() as int).map_values(
        |m: Seq<char>| "function `"@ + f.name + "`: "@ + m,
    )
}

/// The problems with the first `n` functions of module `fs`.
pub open spec fn module_msgs(fs: Seq<FunctionV>, n: int) -> Seq<Seq<char>>
    decreases n,
{
    if n <= 0 {
        seq![]
    } else {
        module_msgs(fs, n - 1) + function_msgs(fs, fs[n - 1])
    }
}

/// The contents of a sequence of strings.
pub open spec fn strs(v: Seq<String>) -> Seq<Seq<char>> {
    v.map_values(|s: String| s@)
}

// ---------------------------------------------------------------------------
// Verification function by function.

/// Whether value `i` of `f` is a call of the function named `name`.
pub open spec fn calls_at(f: FunctionV, i: int, name: Seq<char>) -> bool {
    match f.values[i].def {
        ValueDefV::Inst(InstDataV::Call { callee, .. }) => callee == name,
        _ => false,
    }
}

/// Whether some value of `f` is a call of the function named `name`.
pub open spec fn calls(f: FunctionV, name: Seq<char>) -> bool {
    exists|i: int| 0 <= i < f.values.len() && #[trigger] calls_at(f, i, name)
}

/// Two modules give `name` the same signature: neither has a function of
/// that name, or the first one of that name in each takes the same parameter
/// types and returns the same type.
pub open spec fn same_signature_for(fs: Seq<FunctionV>, gs: Seq<FunctionV>, name: Seq<char>) -> bool {
    match (find_function(fs, name), find_function(gs, name)) {
        (None, None) => true,
        (Some(i), Some(j)) => param_types(fs[i]) == param_types(gs[j]) && fs[i].return_type
            == gs[j].return_type,
        _ => false,
    }
}

/// Two modules give every function that `f` calls the same signature.
pub open spec fn same_callees(fs: Seq<FunctionV>, gs: Seq<FunctionV>, f: FunctionV) -> bool {
    forall|name: Seq<char>| #[trigger] calls(f, name) ==> same_signature_for(fs, gs, name)
}

proof fn lemma_inst_context(fs: Seq<FunctionV>, gs: Seq<FunctionV>, f: FunctionV, b: int, k: int, v: Value)
    requires
        v.0 < f.values.len(),
        same_callees(fs, gs, f),
    ensures
        inst_msgs(fs, f, b, k, v) == inst_msgs(gs, f, b, k, v),
{
    reveal(inst_msgs);
    if let ValueDefV::Inst(InstDataV::Call { callee, args }) = f.values[v.0 as int].def {
        assert(calls_at(f, v.0 as int, callee));
        assert(calls(f, callee));
    }
}

proof fn lemma_body_context(fs: Seq<FunctionV>, gs: Seq<FunctionV>, f: FunctionV, b: int, k: int)
    requires
        f.wf(),
        0 <= b < f.blocks.len(),
        k <= f.blocks[b].body.len(),
        same_callees(fs, gs, f),
    ensures
        body_msgs(fs, f, b, k) == body_msgs(gs, f, b, k),
    decreases k,
{
    if k > 0 {
        lemma_body_context(fs, gs, f, b, k - 1);
        lemma_inst_context(fs, gs, f, b, k - 1, f.blocks[b].body[k - 1]);
    }
}

proof fn lemma_blocks_context(fs: Seq<FunctionV>, gs: Seq<FunctionV>, f: FunctionV, n: int)
    requires
        f.wf(),
        n <= f.blocks.len(),
        same_callees(fs, gs, f),
    ensures
        blocks_msgs(fs, f, n) == blocks_msgs(gs, f, n),
    decreases n,
{
    if n > 0 {
        lemma_blocks_context(fs, gs, f, n - 1);
        lemma_body_context(fs, gs, f, n - 1, f.blocks[n - 1].body.len() as int);
    }
}

/// Verifying a function depends on the rest of its module only through the
/// signatures its calls find: in two modules that give every function it
/// calls the same signature (or none), it has the same problems.
pub proof fn lemma_function_msgs_context(fs: Seq<FunctionV>, gs: Seq<FunctionV>, f: FunctionV)
    requires
        f.wf(),
        same_callees(fs, gs, f),
    ensures
        function_msgs(fs, f) == function_msgs(gs, f),
{
    lemma_blocks_context(fs, gs, f, f.blocks.len() as int);
}

/// The problems of each of the first `n` functions of `fs` verified in a
/// module of its own, in order.
pub open spec fn alone_msgs(fs: Seq<FunctionV>, n: int) -> Seq<Seq<char>>
    decreases n,
{
    if n <= 0 {
        seq![]
    } else {
        alone_msgs(fs, n - 1) + module_msgs(seq![fs[n - 1]], 1)
    }
}

proof fn lemma_module_alone(fs: Seq<FunctionV>, n: int)
    requires
        0 <= n <= fs.len(),
        forall|i: int| 0 <= i < fs.len() ==> (#[trigger] fs[i]).wf(),
        forall|i: int| 0 <= i < fs.len() ==> same_callees(fs, seq![fs[i]], #[trigger] fs[i]),
    ensures
        module_msgs(fs, n) == alone_msgs(fs, n),
    decreases n,
{
    if n > 0 {
        lemma_module_alone(fs, n - 1);
        let g = fs[n - 1];
        lemma_function_msgs_context(fs, seq![g], g);
        assert(module_msgs(seq![g], 0) == Seq::<Seq<char>>::empty());
        assert(module_msgs(seq![g], 1) =~= function_msgs(seq![g], g));
    }
}

/// Verifying a module gives, in order, what verifying each of its functions
/// in a module of its own gives, when each function's calls find the same
/// signatures in both: for instance when no function calls another one.
/// (Where a function calls another function of the module, verifying it
/// alone reports that callee as unknown.)
pub proof fn lemma_verify_function_by_function(fs: Seq<FunctionV>)
    requires
        forall|i: int| 0 <= i < fs.len() ==> (#[trigger] fs[i]).wf(),
        forall|i: int| 0 <= i < fs.len() ==> same_callees(fs, seq![fs[i]], #[trigger] fs[i]),
    ensures
        module_msgs(fs, fs.len() as int) == alone_msgs(fs, fs.len() as int),
{
    lemma_module_alone(fs, fs.len() as int);
}

/// Every problem that verification reports begins by naming its function:
/// "function `NAME`: ".
pub proof fn lemma_messages_name_function(fs: Seq<FunctionV>, n: int)
    requires
        0 <= n <= fs.len(),
    ensures
        forall|k: int|
            0 <= k < module_msgs(fs, n).len() ==> exists|i: int|
                0 <= i < n && ("function `"@ + fs[i].name + "`: "@).is_prefix_of(
                    #[trigger] module_msgs(fs, n)[k],
                ),
    decreases n,
{
    if n > 0 {
        lemma_messages_name_function(fs, n - 1);
        let a = module_msgs(fs, n - 1);
        let g = fs[n - 1];
        let pre = "function `"@ + g.name + "`: "@;
        let bm = blocks_msgs(fs, g, g.blocks.len() as int);
        let m = module_msgs(fs, n);
        assert(m == a + function_msgs(fs, g));
        assert forall|k: int| 0 <= k < m.len() implies exists|i: int|
            0 <= i < n && ("function `"@ + fs[i].name + "`: "@).is_prefix_of(#[trigger] m[k]) by {
            if k < a.len() {
                assert(m[k] == a[k]);
                let i = choose|i: int| 0 <= i < n - 1 && ("function `"@ + fs[i].name + "`: "@).is_prefix_of(a[k]);
                assert(0 <= i < n && ("function `"@ + fs[i].name + "`: "@).is_prefix_of(m[k]));
            } else {
                let x = bm[k - a.len()];
                assert(m[k] == pre + x);
                assert((pre + x).subrange(0, pre.len() as int) =~= pre);
                assert(pre.is_prefix_of(m[k]));
                assert(0 <= n - 1 < n && ("function `"@ + fs[n - 1].name + "`: "@).is_prefix_of(m[k]));
            }
        }
    }
}

// ---------------------------------------------------------------------------
// The checks.

/// A structural problem found by [`verify`].
#[derive(Clone, Debug, PartialEq, Eq)]
pub struct VerifyError {
    /// A description of the problem, naming the function.
    pub message: String,
}

/// The messages of a sequence of errors.
pub open spec fn errors_view(es: Seq<VerifyError>) -> Seq<Seq<char>> {
    es.map_values(|e: VerifyError| e.message@)
}

/// `d` records, for every value of `f`, whether it is defined at position
/// `k` of block `b`.
pub open spec fn defined_ok(f: FunctionV, d: Seq<bool>, b: int, k: int) -> bool {
    &&& d.len() == f.values.len()
    &&& forall|v: Value| v.0 < f.values.len() ==> d[v.0 as int] == #[trigger] defined_at(f, b, k, v)
}

/// `a` records, for every value `v` of `f` and every block `x`, whether `v` is
/// available on entry to `x`.
pub open spec fn avail_ok(f: FunctionV, a: Seq<Vec<bool>>) -> bool {
    &&& a.len() == f.values.len()
    &&& forall|i: int| 0 <= i < a.len() ==> (#[trigger] a[i])@.len() == f.blocks.len()
    &&& forall|v: Value, x: int|
        v.0 < f.values.len() && 0 <= x < f.blocks.len() ==> a[v.0 as int]@[x]
            == #[trigger] available(f, x, v)
}

fn push_bref(m: &mut String, b: usize)
    ensures
        final(m)@ == old(m)@ + bref(b as int),
{
    m.append("block");
    push_usize(m, b);
    assert(final(m)@ =~= old(m)@ + bref(b as int));
}

fn push_msg(out: &mut Vec<String>, m: String)
    ensures
        strs(final(out)@) == strs(old(out)@).push(m@),
{
    let ghost mv = m@;
    out.push(m);
    assert(strs(final(out)@) =~= strs(old(out)@).push(mv));
}

/// Check that operand `o` of `user` is a defined value.
fn check_operand(
    f: &Function,
    defined: &Vec<bool>,
    b: usize,
    k: usize,
    user: Value,
    o: Value,
    out: &mut Vec<String>,
) -> (ok: bool)
    requires
        defined_ok(f@, defined@, b as int, k as int),
    ensures
        ok == operand_ok(f@, b as int, k as int, o),
        strs(final(out)@) == strs(old(out)@) + operand_msgs(f@, b as int, k as int, user, o),
{
    if o.index() >= f.value_count() {
        let mut m = String::new();
        push_vref(&mut m, user);
        m.append(" uses undefined value");
        push_msg(out, m);
        assert(strs(final(out)@) =~= strs(old(out)@) + operand_msgs(f@, b as int, k as int, user, o));
        false
    } else if !defined[o.index()] {
        assert(defined@[o.0 as int] == defined_at(f@, b as int, k as int, o));
        let mut m = String::new();
        push_vref(&mut m, user);
        m.append(" uses ");
        push_vref(&mut m, o);
        m.append(" whose definition does not dominate this use");
        push_msg(out, m);
        assert(strs(final(out)@) =~= strs(old(out)@) + operand_msgs(f@, b as int, k as int, user, o));
        false
    } else {
        assert(defined@[o.0 as int] == defined_at(f@, b as int, k as int, o));
        assert(strs(final(out)@) =~= strs(old(out)@) + operand_msgs(f@, b as int, k as int, user, o));
        true
    }
}

/// Check that operand `o` of `user` is a defined value of type `expected`.
fn require_operand(
    f: &Function,
    defined: &Vec<bool>,
    b: usize,
    k: usize,
    user: Value,
    o: Value,
    expected: Type,
    out: &mut Vec<String>,
)
    requires
        defined_ok(f@, defined@, b as int, k as int),
    ensures
        strs(final(out)@) == strs(old(out)@) + require_msgs(
            f@,
            b as int,
            k as int,
            user,
            o,
            expected,
        ),
{
    let ok = check_operand(f, defined, b, k, user, o, out);
    let ghost mid = strs(out@);
    if ok {
        let actual = f.value_type(o);
        if actual != expected {
            let mut m = String::new();
            push_vref(&mut m, user);
            m.append(" expects a ");
            m.append(expected.name());
            m.append(" operand but ");
            push_vref(&mut m, o);
            m.append(" has type ");
            m.append(actual.name());
            push_msg(out, m);
        }
    }
    assert(strs(final(out)@) =~= strs(old(out)@) + require_msgs(
        f@,
        b as int,
        k as int,
        user,
        o,
        expected,
    ));
}

/// Check that a result type is what the operation produces.
fn check_result(actual: Type, expected: Type, v: Value, out: &mut Vec<String>)
    ensures
        strs(final(out)@) == strs(old(out)@) + result_msgs(actual, expected, v),
{
    if actual != expected {
        let mut m = String::new();
        push_vref(&mut m, v);
        m.append(" has result type ");
        m.append(actual.name());
        m.append(" but the operation produces ");
        m.append(expected.name());
        push_msg(out, m);
    }
    assert(strs(final(out)@) =~= strs(old(out)@) + result_msgs(actual, expected, v));
}

/// The types of a function's parameters.
fn signature(g: &Function) -> (r: Vec<Type>)
    requires
        g@.wf(),
    ensures
        r@ == param_types(g@),
{
    let ps = g.params();
    let mut r: Vec<Type> = Vec::new();
    let mut i: usize = 0;
    while i < ps.len()
        invariant
            g@.wf(),
            ps@ == g@.params(),
            i <= ps@.len(),
            r@ =~= param_types(g@).take(i as int),
        decreases ps@.len() - i,
    {
        assert(ps@[i as int] == g@.blocks[0].params[i as int]);
        r.push(g.value_type(ps[i]));
        i = i + 1;
    }
    r
}

/// The view of an optional signature.
pub open spec fn sig_view(sig: Option<Vec<Type>>) -> Option<Seq<Type>> {
    match sig {
        Some(v) => Some(v@),
        None => None,
    }
}

/// Check the arguments of a call by `user`.
fn check_call_args(
    f: &Function,
    defined: &Vec<bool>,
    b: usize,
    k: usize,
    user: Value,
    args: &[Value],
    sig: &Option<Vec<Type>>,
    out: &mut Vec<String>,
)
    requires
        defined_ok(f@, defined@, b as int, k as int),
        match sig {
            Some(ts) => ts@.len() == args@.len(),
            None => true,
        },
    ensures
        strs(final(out)@) == strs(old(out)@) + call_args_msgs(
            f@,
            b as int,
            k as int,
            user,
            args@,
            sig_view(*sig),
            args@.len() as int,
        ),
{
    let mut i: usize = 0;
    while i < args.len()
        invariant
            defined_ok(f@, defined@, b as int, k as int),
            match sig {
                Some(ts) => ts@.len() == args@.len(),
                None => true,
            },
            i <= args@.len(),
            strs(out@) == strs(old(out)@) + call_args_msgs(
                f@,
                b as int,
                k as int,
                user,
                args@,
                sig_view(*sig),
                i as int,
            ),
        decreases args@.len() - i,
    {
        let ghost before = strs(out@);
        match sig {
            Some(ts) => require_operand(f, defined, b, k, user, args[i], ts[i], out),
            None => {
                check_operand(f, defined, b, k, user, args[i], out);
            },
        }
        assert(strs(out@) =~= strs(old(out)@) + call_args_msgs(
            f@,
            b as int,
            k as int,
            user,
            args@,
            sig_view(*sig),
            i + 1,
        ));
        i = i + 1;
    }
}

/// Check a call `v = call callee(args)` whose result has type `ty`.
fn check_call(
    m: &Module,
    f: &Function,
    defined: &Vec<bool>,
    b: usize,
    k: usize,
    v: Value,
    callee: &str,
    args: &[Value],
    ty: Type,
    out: &mut Vec<String>,
)
    requires
        defined_ok(f@, defined@, b as int, k as int),
    ensures
        strs(final(out)@) == strs(old(out)@) + call_msgs(
            m@,
            f@,
            b as int,
            k as int,
            v,
            callee@,
            args@,
            ty,
        ),
{
    match m.function_by_name(callee) {
        None => {
            let mut msg = String::new();
            push_vref(&mut msg, v);
            msg.append(" calls unknown function `");
            msg.append(callee);
            msg.append("`");
            push_msg(out, msg);
            let ghost mid = strs(out@);
            check_call_args(f, defined, b, k, v, args, &None, out);
            assert(strs(final(out)@) =~= strs(old(out)@) + call_msgs(
                m@,
                f@,
                b as int,
                k as int,
                v,
                callee@,
                args@,
                ty,
            ));
        },
        Some(g) => {
            proof {
                crate::air::lemma_find_function_from(m@, callee@, 0);
            }
            let ts = signature(g);
            if args.len() != ts.len() {
                let mut msg = String::new();
                push_vref(&mut msg, v);
                msg.append(" passes ");
                push_usize(&mut msg, args.len());
                msg.append(" arguments to `");
                msg.append(callee);
                msg.append("`, which takes ");
                push_usize(&mut msg, ts.len());
                push_msg(out, msg);
                check_call_args(f, defined, b, k, v, args, &None, out);
                check_result(ty, g.return_type(), v, out);
            } else {
                let sig = Some(ts);
                check_call_args(f, defined, b, k, v, args, &sig, out);
                check_result(ty, g.return_type(), v, out);
            }
            assert(strs(final(out)@) =~= strs(old(out)@) + call_msgs(
                m@,
                f@,
                b as int,
                k as int,
                v,
                callee@,
                args@,
                ty,
            ));
        },
    }
}

/// Check a comparison `v = icmp op lhs, rhs` whose result has type `ty`.
fn check_relation(
    f: &Function,
    defined: &Vec<bool>,
    b: usize,
    k: usize,
    v: Value,
    op: crate::air::CmpOp,
    lhs: Value,
    rhs: Value,
    ty: Type,
    out: &mut Vec<String>,
)
    requires
        defined_ok(f@, defined@, b as int, k as int),
    ensures
        strs(final(out)@) == strs(old(out)@) + relation_msgs(f@, b as int, k as int, v, op, lhs, rhs, ty),
{
    if op.is_equality() {
        let l = check_operand(f, defined, b, k, v, lhs, out);
        let r = check_operand(f, defined, b, k, v, rhs, out);
        let ghost mid = strs(out@);
        if l && r {
            let lt = f.value_type(lhs);
            let rt = f.value_type(rhs);
            if lt != rt {
                let mut msg = String::new();
                push_vref(&mut msg, v);
                msg.append(": `icmp ");
                msg.append(op.mnemonic());
                msg.append("` operands have differing types ");
                msg.append(lt.name());
                msg.append(" and ");
                msg.append(rt.name());
                push_msg(out, msg);
            }
        }
        let ghost mid2 = strs(out@);
        assert(mid2 =~= mid + (if operand_ok(f@, b as int, k as int, lhs) && operand_ok(
            f@,
            b as int,
            k as int,
            rhs,
        ) && f@.ty(lhs) != f@.ty(rhs) {
            seq![
                vref(v) + ": `icmp "@ + relation_mnemonic(op) + "` operands have differing types "@
                    + ty_name(f@.ty(lhs)) + " and "@ + ty_name(f@.ty(rhs)),
            ]
        } else {
            seq![]
        }));
        check_result(ty, Type::Bool, v, out);
    } else {
        require_operand(f, defined, b, k, v, lhs, Type::Int, out);
        require_operand(f, defined, b, k, v, rhs, Type::Int, out);
        check_result(ty, Type::Bool, v, out);
    }
    assert(strs(final(out)@) =~= strs(old(out)@) + relation_msgs(
        f@,
        b as int,
        k as int,
        v,
        op,
        lhs,
        rhs,
        ty,
    ));
}

/// Check a unary instruction `v = op operand` whose result has type `ty`.
fn check_unary(
    f: &Function,
    defined: &Vec<bool>,
    b: usize,
    k: usize,
    v: Value,
    op: UnaryOp,
    operand: Value,
    ty: Type,
    out: &mut Vec<String>,
)
    requires
        defined_ok(f@, defined@, b as int, k as int),
    ensures
        strs(final(out)@) == strs(old(out)@) + require_msgs(
            f@,
            b as int,
            k as int,
            v,
            operand,
            unary_type(op),
        ) + result_msgs(ty, unary_type(op), v),
{
    let t = match op {
        UnaryOp::Neg => Type::Int,
        UnaryOp::Not => Type::Bool,
    };
    require_operand(f, defined, b, k, v, operand, t, out);
    check_result(ty, t, v, out);
    assert(strs(final(out)@) =~= strs(old(out)@) + require_msgs(
        f@,
        b as int,
        k as int,
        v,
        operand,
        unary_type(op),
    ) + result_msgs(ty, unary_type(op), v));
}

/// Check a binary instruction `v = op lhs, rhs` whose result has type `ty`.
fn check_binary(
    f: &Function,
    defined: &Vec<bool>,
    b: usize,
    k: usize,
    v: Value,
    lhs: Value,
    rhs: Value,
    ty: Type,
    out: &mut Vec<String>,
)
    requires
        defined_ok(f@, defined@, b as int, k as int),
    ensures
        strs(final(out)@) == strs(old(out)@) + require_msgs(
            f@,
            b as int,
            k as int,
            v,
            lhs,
            Type::Int,
        ) + require_msgs(f@, b as int, k as int, v, rhs, Type::Int) + result_msgs(ty, Type::Int, v),
{
    require_operand(f, defined, b, k, v, lhs, Type::Int, out);
    require_operand(f, defined, b, k, v, rhs, Type::Int, out);
    check_result(ty, Type::Int, v, out);
    assert(strs(final(out)@) =~= strs(old(out)@) + require_msgs(
        f@,
        b as int,
        k as int,
        v,
        lhs,
        Type::Int,
    ) + require_msgs(f@, b as int, k as int, v, rhs, Type::Int) + result_msgs(ty, Type::Int, v));
}

/// Check instruction `v`, the `k`-th value of block `b`.
fn check_inst(
    m: &Module,
    f: &Function,
    defined: &Vec<bool>,
    b: usize,
    k: usize,
    v: Value,
    out: &mut Vec<String>,
)
    requires
        defined_ok(f@, defined@, b as int, k as int),
        v.0 < f@.values.len(),
    ensures
        strs(final(out)@) == strs(old(out)@) + inst_msgs(m@, f@, b as int, k as int, v),
{
    let ty = f.value_type(v);
    let ghost before = strs(out@);
    match f.value_def(v) {
        ValueDef::Inst(InstData::IConst(_)) => check_result(ty, Type::Int, v, out),
        ValueDef::Inst(InstData::BConst(_)) => check_result(ty, Type::Bool, v, out),
        ValueDef::Inst(InstData::Unary { op, operand }) => check_unary(
            f,
            defined,
            b,
            k,
            v,
            *op,
            *operand,
            ty,
            out,
        ),
        ValueDef::Inst(InstData::Binary { lhs, rhs, .. }) => check_binary(
            f,
            defined,
            b,
            k,
            v,
            *lhs,
            *rhs,
            ty,
            out,
        ),
        ValueDef::Inst(InstData::ICmp { op, lhs, rhs }) => check_relation(
            f,
            defined,
            b,
            k,
            v,
            *op,
            *lhs,
            *rhs,
            ty,
            out,
        ),
        ValueDef::Inst(InstData::Call { callee, args }) => check_call(
            m,
            f,
            defined,
            b,
            k,
            v,
            callee.as_str(),
            args.as_slice(),
            ty,
            out,
        ),
        ValueDef::Param { .. } => {},
    }
    assert(strs(final(out)@) =~= before + inst_msgs(m@, f@, b as int, k as int, v)) by {
        reveal(inst_msgs);
    }
}

/// Check operand `o` of the terminator of block `b`, returning whether it is
/// a defined value.
fn check_term_operand(
    f: &Function,
    defined: &Vec<bool>,
    b: usize,
    o: Value,
    mnem: &str,
    out: &mut Vec<String>,
) -> (ok: bool)
    requires
        b < f@.blocks.len(),
        defined_ok(f@, defined@, b as int, f@.blocks[b as int].body.len() as int),
    ensures
        ok == operand_ok(f@, b as int, f@.blocks[b as int].body.len() as int, o),
        strs(final(out)@) == strs(old(out)@) + term_operand_msgs(f@, b as int, o, mnem@),
{
    let ghost l = f@.blocks[b as int].body.len() as int;
    if o.index() >= f.value_count() {
        let mut m = String::new();
        push_bref(&mut m, b);
        m.append(": `");
        m.append(mnem);
        m.append("` of undefined value");
        push_msg(out, m);
        assert(strs(final(out)@) =~= strs(old(out)@) + term_operand_msgs(f@, b as int, o, mnem@));
        false
    } else if !defined[o.index()] {
        assert(defined@[o.0 as int] == defined_at(f@, b as int, l, o));
        let mut m = String::new();
        push_bref(&mut m, b);
        m.append(": `");
        m.append(mnem);
        m.append("` uses ");
        push_vref(&mut m, o);
        m.append(" whose definition does not dominate this use");
        push_msg(out, m);
        assert(strs(final(out)@) =~= strs(old(out)@) + term_operand_msgs(f@, b as int, o, mnem@));
        false
    } else {
        assert(defined@[o.0 as int] == defined_at(f@, b as int, l, o));
        assert(strs(final(out)@) =~= strs(old(out)@) + term_operand_msgs(f@, b as int, o, mnem@));
        true
    }
}

/// Check a branch target of the terminator of block `b`.
fn check_target(
    f: &Function,
    defined: &Vec<bool>,
    b: usize,
    t: &BranchTarget,
    mnem: &str,
    out: &mut Vec<String>,
)
    requires
        f@.wf(),
        b < f@.blocks.len(),
        defined_ok(f@, defined@, b as int, f@.blocks[b as int].body.len() as int),
    ensures
        strs(final(out)@) == strs(old(out)@) + target_msgs(f@, b as int, t@, mnem@),
{
    let nb = f.blocks().len();
    let tb = t.block.index();
    let mut fits = false;
    if tb >= nb {
        let mut m = String::new();
        push_bref(&mut m, b);
        m.append(": branch to nonexistent ");
        push_bref(&mut m, tb);
        push_msg(out, m);
    } else {
        let np = f.block(t.block).params.len();
        if t.args.len() != np {
            let mut m = String::new();
            push_bref(&mut m, b);
            m.append(": branch to ");
            push_bref(&mut m, tb);
            m.append(" passes ");
            push_usize(&mut m, t.args.len());
            m.append(" arguments but it takes ");
            push_usize(&mut m, np);
            push_msg(out, m);
        } else {
            fits = true;
        }
    }
    assert(fits == target_fits(f@, t@));
    let ghost head = strs(out@);
    assert(head =~= strs(old(out)@) + (if t.block.0 >= f@.blocks.len() {
        seq![bref(b as int) + ": branch to nonexistent "@ + bref(t.block.0 as int)]
    } else if !target_fits(f@, t@) {
        seq![
            bref(b as int) + ": branch to "@ + bref(t.block.0 as int) + " passes "@ + decimal(
                t@.args.len(),
            ) + " arguments but it takes "@ + decimal(f@.blocks[t.block.0 as int].params.len()),
        ]
    } else {
        seq![]
    }));
    let ghost l = f@.blocks[b as int].body.len() as int;
    let mut i: usize = 0;
    while i < t.args.len()
        invariant
            f@.wf(),
            b < f@.blocks.len(),
            l == f@.blocks[b as int].body.len(),
            defined_ok(f@, defined@, b as int, l),
            fits == target_fits(f@, t@),
            tb == t.block.0,
            i <= t.args@.len(),
            strs(out@) == head + target_args_msgs(f@, b as int, t@, mnem@, i as int),
        decreases t.args@.len() - i,
    {
        let a = t.args[i];
        let ghost before = strs(out@);
        let ok = check_term_operand(f, defined, b, a, mnem, out);
        let ghost mid = strs(out@);
        let ghost cond = target_fits(f@, t@) && operand_ok(f@, b as int, l, a) && f@.ty(a) != f@.ty(
            f@.blocks[t.block.0 as int].params[i as int],
        );
        if fits && ok {
            let p = f.block(t.block).params[i];
            assert(p == f@.blocks[t.block.0 as int].params[i as int]);
            let at = f.value_type(a);
            let pt = f.value_type(p);
            if at != pt {
                let mut m = String::new();
                push_bref(&mut m, b);
                m.append(": argument ");
                push_usize(&mut m, i);
                m.append(" to ");
                push_bref(&mut m, tb);
                m.append(" has type ");
                m.append(at.name());
                m.append(" but the parameter has type ");
                m.append(pt.name());
                assert(m@ =~= bref(b as int) + ": argument "@ + decimal(i as nat) + " to "@ + bref(
                    t.block.0 as int,
                ) + " has type "@ + ty_name(f@.ty(a)) + " but the parameter has type "@ + ty_name(
                    f@.ty(f@.blocks[t.block.0 as int].params[i as int]),
                ));
                push_msg(out, m);
            }
        }
        proof {
            let extra = if cond {
                seq![
                    bref(b as int) + ": argument "@ + decimal(i as nat) + " to "@ + bref(
                        t.block.0 as int,
                    ) + " has type "@ + ty_name(f@.ty(a)) + " but the parameter has type "@
                        + ty_name(f@.ty(f@.blocks[t.block.0 as int].params[i as int])),
                ]
            } else {
                seq![]
            };
            assert(strs(out@) =~= mid + extra);
            assert(a == t@.args[(i + 1) - 1]);
            assert(target_args_msgs(f@, b as int, t@, mnem@, i + 1) =~= target_args_msgs(
                f@,
                b as int,
                t@,
                mnem@,
                i as int,
            ) + term_operand_msgs(f@, b as int, a, mnem@) + extra);
        }
        assert(strs(out@) =~= head + target_args_msgs(f@, b as int, t@, mnem@, i + 1));
        i = i + 1;
    }
    assert(strs(final(out)@) =~= strs(old(out)@) + target_msgs(f@, b as int, t@, mnem@));
}

/// Check the terminator of block `b`.
fn check_terminator(f: &Function, defined: &Vec<bool>, b: usize, out: &mut Vec<String>)
    requires
        f@.wf(),
        b < f@.blocks.len(),
        defined_ok(f@, defined@, b as int, f@.blocks[b as int].body.len() as int),
    ensures
        strs(final(out)@) == strs(old(out)@) + term_msgs(f@, b as int),
{
    let ghost l = f@.blocks[b as int].body.len() as int;
    match &f.block(Block::from_index(b)).terminator {
        None => {
            let mut m = String::new();
            push_bref(&mut m, b);
            m.append(" has no terminator");
            push_msg(out, m);
        },
        Some(Terminator::Ret(v)) => {
            let ok = check_term_operand(f, defined, b, *v, "ret", out);
            if ok {
                let t = f.value_type(*v);
                let rt = f.return_type();
                if t != rt {
                    let mut m = String::new();
                    push_bref(&mut m, b);
                    m.append(": `ret` type ");
                    m.append(t.name());
                    m.append(" does not match return type ");
                    m.append(rt.name());
                    push_msg(out, m);
                }
            }
        },
        Some(Terminator::Br(t)) => check_target(f, defined, b, t, "br", out),
        Some(Terminator::CondBr { cond, then_branch, else_branch }) => {
            let ok = check_term_operand(f, defined, b, *cond, "condbr", out);
            if ok {
                let t = f.value_type(*cond);
                if t != Type::Bool {
                    let mut m = String::new();
                    push_bref(&mut m, b);
                    m.append(": `condbr` condition has type ");
                    m.append(t.name());
                    m.append(" but must be bool");
                    push_msg(out, m);
                }
            }
            check_target(f, defined, b, then_branch, "condbr", out);
            check_target(f, defined, b, else_branch, "condbr", out);
        },
    }
    assert(strs(final(out)@) =~= strs(old(out)@) + term_msgs(f@, b as int));
}

// ---------------------------------------------------------------------------
// Availability and the whole check.

/// Reaching depends on the blocked predicate only at existing blocks.
proof fn lemma_reaches_agree(f: FunctionV, b: int, p1: spec_fn(int) -> bool, p2: spec_fn(int) -> bool)
    requires
        forall|x: int| 0 <= x < f.blocks.len() ==> #[trigger] p1(x) == p2(x),
    ensures
        reaches(f, b, p1) == reaches(f, b, p2),
{
    if reaches(f, b, p1) {
        let p = choose|p: Seq<int>| #[trigger] is_walk(f, p, p1) && p.last() == b;
        assert forall|i: int| 0 <= i < p.len() - 1 implies edge(f, #[trigger] p[i], p[i + 1])
            && !p2(p[i]) by {
            assert(edge(f, p[i], p[i + 1]) && !p1(p[i]));
        }
        assert(is_walk(f, p, p2));
    }
    if reaches(f, b, p2) {
        let p = choose|p: Seq<int>| #[trigger] is_walk(f, p, p2) && p.last() == b;
        assert forall|i: int| 0 <= i < p.len() - 1 implies edge(f, #[trigger] p[i], p[i + 1])
            && !p1(p[i]) by {
            assert(edge(f, p[i], p[i + 1]) && !p2(p[i]));
        }
        assert(is_walk(f, p, p1));
    }
}

pub proof fn lemma_contains_push(s: Seq<Value>, x: Value, y: Value)
    ensures
        s.push(x).contains(y) <==> (s.contains(y) || x == y),
{
    if s.contains(y) {
        let i = choose|i: int| 0 <= i < s.len() && s[i] == y;
        assert(s.push(x)[i] == y);
    }
    if x == y {
        assert(s.push(x)[s.len() as int] == y);
    }
    if s.push(x).contains(y) {
        let i = choose|i: int| 0 <= i < s.push(x).len() && s.push(x)[i] == y;
        if i < s.len() {
            assert(s[i] == y);
        }
    }
}

/// Whether `v` occurs in `vs`.
fn contains_value(vs: &[Value], v: Value) -> (r: bool)
    ensures
        r == vs@.contains(v),
{
    let mut i: usize = 0;
    while i < vs.len()
        invariant
            i <= vs@.len(),
            forall|j: int| 0 <= j < i ==> vs@[j] != v,
        decreases vs@.len() - i,
    {
        if vs[i] == v {
            return true;
        }
        i = i + 1;
    }
    false
}

/// For every block, whether it defines `v`.
fn def_blocks(f: &Function, v: Value) -> (r: Vec<bool>)
    requires
        f@.wf(),
    ensures
        r@.len() == f@.blocks.len(),
        forall|x: int| 0 <= x < f@.blocks.len() ==> #[trigger] r@[x] == defines(f@, x, v),
{
    let blocks = f.blocks();
    let mut r: Vec<bool> = Vec::new();
    let mut x: usize = 0;
    while x < blocks.len()
        invariant
            crate::air::blocks_view(blocks@) == f@.blocks,
            x <= blocks@.len(),
            r@.len() == x,
            forall|y: int| 0 <= y < x ==> #[trigger] r@[y] == defines(f@, y, v),
        decreases blocks@.len() - x,
    {
        assert(blocks@[x as int]@ == f@.blocks[x as int]);
        let d = contains_value(blocks[x].params.as_slice(), v) || contains_value(
            blocks[x].body.as_slice(),
            v,
        );
        r.push(d);
        x = x + 1;
    }
    r
}

/// For every value and every block, whether the value is available on entry
/// to the block.
fn availability(f: &Function) -> (r: Vec<Vec<bool>>)
    requires
        f@.wf(),
    ensures
        avail_ok(f@, r@),
{
    let n = f.value_count();
    let nb = f.blocks().len();
    let mut r: Vec<Vec<bool>> = Vec::new();
    let mut i: usize = 0;
    while i < n
        invariant
            f@.wf(),
            n == f@.values.len(),
            nb == f@.blocks.len(),
            i <= n,
            r@.len() == i,
            forall|j: int| 0 <= j < i ==> (#[trigger] r@[j])@.len() == nb,
            forall|v: Value, x: int|
                v.0 < i && 0 <= x < nb ==> r@[v.0 as int]@[x] == #[trigger] available(f@, x, v),
        decreases n - i,
    {
        let v = Value::from_index(i);
        let d = def_blocks(f, v);
        let reached = reach(f, &d);
        let mut a: Vec<bool> = Vec::new();
        let mut x: usize = 0;
        while x < nb
            invariant
                f@.wf(),
                nb == f@.blocks.len(),
                reached@.len() == nb,
                d@.len() == nb,
                forall|y: int| 0 <= y < nb ==> #[trigger] d@[y] == defines(f@, y, v),
                forall|y: int| 0 <= y < nb ==> #[trigger] reached@[y] == reaches(f@, y, |z: int| d@[z]),
                x <= nb,
                a@.len() == x,
                forall|y: int| 0 <= y < x ==> #[trigger] a@[y] == available(f@, y, v),
            decreases nb - x,
        {
            proof {
                lemma_reaches_agree(f@, x as int, |z: int| d@[z], |z: int| defines(f@, z, v));
            }
            a.push(!reached[x]);
            x = x + 1;
        }
        r.push(a);
        proof {
            assert forall|w: Value, y: int| w.0 < i + 1 && 0 <= y < nb implies r@[w.0 as int]@[y]
                == #[trigger] available(f@, y, w) by {
                if w.0 == i {
                    assert(w == v);
                }
            }
        }
        i = i + 1;
    }
    r
}

/// Check block `b`: its values in order, then its terminator.
fn check_block(m: &Module, f: &Function, avail: &Vec<Vec<bool>>, b: usize, out: &mut Vec<String>)
    requires
        f@.wf(),
        b < f@.blocks.len(),
        avail_ok(f@, avail@),
    ensures
        strs(final(out)@) == strs(old(out)@) + body_msgs(
            m@,
            f@,
            b as int,
            f@.blocks[b as int].body.len() as int,
        ) + term_msgs(f@, b as int),
{
    let n = f.value_count();
    let block = f.block(Block::from_index(b));
    let ghost bi = b as int;
    let mut defined: Vec<bool> = Vec::new();
    let mut i: usize = 0;
    while i < n
        invariant
            f@.wf(),
            n == f@.values.len(),
            b < f@.blocks.len(),
            bi == b,
            block@ == f@.blocks[bi],
            avail_ok(f@, avail@),
            i <= n,
            defined@.len() == i,
            forall|v: Value| v.0 < i ==> defined@[v.0 as int] == #[trigger] defined_at(f@, bi, 0, v),
        decreases n - i,
    {
        assert(avail@[i as int]@.len() == f@.blocks.len());
        let v = Value::from_index(i);
        let d = avail[i][b] || contains_value(block.params.as_slice(), v);
        defined.push(d);
        proof {
            assert(block.body@.take(0) =~= Seq::<Value>::empty());
            assert forall|w: Value| w.0 < i + 1 implies defined@[w.0 as int] == #[trigger] defined_at(
                f@,
                bi,
                0,
                w,
            ) by {
                if w.0 == i {
                    assert(w == v);
                    assert(avail@[w.0 as int]@[bi] == available(f@, bi, w));
                }
            }
        }
        i = i + 1;
    }
    let mut k: usize = 0;
    while k < block.body.len()
        invariant
            f@.wf(),
            n == f@.values.len(),
            b < f@.blocks.len(),
            bi == b,
            block@ == f@.blocks[bi],
            k <= block.body@.len(),
            defined_ok(f@, defined@, bi, k as int),
            strs(out@) == strs(old(out)@) + body_msgs(m@, f@, bi, k as int),
        decreases block.body@.len() - k,
    {
        let v = block.body[k];
        assert(v == f@.blocks[bi].body[k as int]);
        check_inst(m, f, &defined, b, k, v, out);
        let ghost prev = defined@;
        defined.set(v.index(), true);
        proof {
            assert(block.body@.take(k + 1) =~= block.body@.take(k as int).push(v));
            assert forall|w: Value| w.0 < n implies defined@[w.0 as int] == #[trigger] defined_at(
                f@,
                bi,
                k + 1,
                w,
            ) by {
                lemma_contains_push(block.body@.take(k as int), v, w);
                if w.0 == v.0 {
                    assert(w == v);
                } else {
                    assert(prev[w.0 as int] == defined_at(f@, bi, k as int, w));
                }
            }
        }
        k = k + 1;
    }
    check_terminator(f, &defined, b, out);
}

/// Check every reachable block of `f`, in order.
fn verify_function(m: &Module, f: &Function, out: &mut Vec<String>)
    requires
        f@.wf(),
    ensures
        strs(final(out)@) == strs(old(out)@) + blocks_msgs(m@, f@, f@.blocks.len() as int),
{
    let nb = f.blocks().len();
    let mut none: Vec<bool> = Vec::new();
    let mut i: usize = 0;
    while i < nb
        invariant
            i <= nb,
            none@.len() == i,
            forall|x: int| 0 <= x < i ==> !#[trigger] none@[x],
        decreases nb - i,
    {
        none.push(false);
        i = i + 1;
    }
    let reached = reach(f, &none);
    let avail = availability(f);
    let mut b: usize = 0;
    while b < nb
        invariant
            f@.wf(),
            nb == f@.blocks.len(),
            none@.len() == nb,
            forall|x: int| 0 <= x < nb ==> !#[trigger] none@[x],
            reached@.len() == nb,
            forall|x: int| 0 <= x < nb ==> #[trigger] reached@[x] == reaches(f@, x, |y: int| none@[y]),
            avail_ok(f@, avail@),
            b <= nb,
            strs(out@) == strs(old(out)@) + blocks_msgs(m@, f@, b as int),
        decreases nb - b,
    {
        proof {
            lemma_reaches_agree(f@, b as int, |y: int| none@[y], |y: int| false);
        }
        if reached[b] {
            check_block(m, f, &avail, b, out);
        }
        assert(strs(out@) =~= strs(old(out)@) + blocks_msgs(m@, f@, b + 1));
        b = b + 1;
    }
}

/// Verify every function in `module`, returning all problems found (empty if
/// the module is well-formed).
pub fn verify(module: &Module) -> (r: Vec<VerifyError>)
    ensures
        errors_view(r@) == module_msgs(module@, module@.len() as int),
{
    let fs = module.functions();
    let ghost mv = module@;
    let mut errors: Vec<VerifyError> = Vec::new();
    let mut i: usize = 0;
    while i < fs.len()
        invariant
            fs@.map_values(|f: Function| f@) == mv,
            mv == module@,
            forall|j: int| 0 <= j < mv.len() ==> (#[trigger] mv[j]).wf(),
            i <= fs@.len(),
            errors_view(errors@) == module_msgs(mv, i as int),
        decreases fs@.len() - i,
    {
        let f = &fs[i];
        assert(f@ == mv[i as int]);
        let mut msgs: Vec<String> = Vec::new();
        verify_function(module, f, &mut msgs);
        let ghost fm = blocks_msgs(mv, f@, f@.blocks.len() as int);
        assert(strs(msgs@) =~= fm);
        let mut prefix = String::from_str("function `");
        prefix.append(f.name());
        prefix.append("`: ");
        let ghost start = errors_view(errors@);
        let mut j: usize = 0;
        while j < msgs.len()
            invariant
                strs(msgs@) == fm,
                prefix@ == "function `"@ + f@.name + "`: "@,
                j <= msgs@.len(),
                errors_view(errors@) == start + fm.take(j as int).map_values(
                    |m: Seq<char>| "function `"@ + f@.name + "`: "@ + m,
                ),
            decreases msgs@.len() - j,
        {
            let mut text = String::from_str(prefix.as_str());
            text.append(msgs[j].as_str());
            assert(msgs@[j as int]@ == strs(msgs@)[j as int]);
            assert(text@ =~= "function `"@ + f@.name + "`: "@ + fm[j as int]);
            let ghost before = errors_view(errors@);
            let ghost tv = text@;
            errors.push(VerifyError { message: text });
            proof {
                let g = |m: Seq<char>| "function `"@ + f@.name + "`: "@ + m;
                assert(errors_view(errors@) =~= before.push(tv));
                assert(fm.take(j + 1).map_values(g) =~= fm.take(j as int).map_values(g).push(
                    g(fm[j as int]),
                ));
                assert(errors_view(errors@) =~= start + fm.take(j + 1).map_values(g));
            }
            j = j + 1;
        }
        proof {
            assert(fm.take(j as int) =~= fm);
            assert(errors_view(errors@) =~= module_msgs(mv, i + 1));
        }
        i = i + 1;
    }
    assert(fs@.len() == mv.len());
    errors
}

} // verus!

//! AIR's textual form, a small assembly-like syntax:
//!
//! ```text
//! fn main() -> int {
//! block0:
//!     %0 = iconst 1
//!     %1 = iconst 2
//!     %2 = mul %0, %1
//!     ret %2
//! }
//! ```

use vstd::prelude::*;
use crate::air::{
    binary_mnemonic, relation_mnemonic, ty_name, unary_mnemonic, BranchTarget, BranchTargetV, Function,
    FunctionV, InstData, InstDataV, Module, Terminator, TerminatorV, Value, ValueDef, ValueDefV,
};
use crate::text::{decimal, push_i64, push_u64, push_usize, signed_decimal};

verus! {

// ---------------------------------------------------------------------------
// The textual form, stated over the views.

/// A value reference, e.g. `%3`.
pub open spec fn vref(v: Value) -> Seq<char> {
    "%"@ + decimal(v.0 as nat)
}

/// Value references separated by `", "`.
pub open spec fn vlist(vs: Seq<Value>) -> Seq<char>
    decreases vs.len(),
{
    if vs.len() == 0 {
        seq![]
    } else if vs.len() == 1 {
        vref(vs[0])
    } else {
        vlist(vs.drop_last()) + ", "@ + vref(vs.last())
    }
}

/// A value with its type, e.g. `%0: int`.
pub open spec fn typed(f: FunctionV, v: Value) -> Seq<char> {
    vref(v) + ": "@ + ty_name(f.ty(v))
}

/// Typed values separated by `", "`.
pub open spec fn plist(f: FunctionV, vs: Seq<Value>) -> Seq<char>
    decreases vs.len(),
{
    if vs.len() == 0 {
        seq![]
    } else if vs.len() == 1 {
        typed(f, vs[0])
    } else {
        plist(f, vs.drop_last()) + ", "@ + typed(f, vs.last())
    }
}

/// A branch target, e.g. `block3` or `block3(%1, %2)`.
pub open spec fn target_text(t: BranchTargetV) -> Seq<char> {
    "block"@ + decimal(t.block.0 as nat) + if t.args.len() == 0 {
        seq![]
    } else {
        "("@ + vlist(t.args) + ")"@
    }
}

/// The text of a terminator.
pub open spec fn term_text(t: TerminatorV) -> Seq<char> {
    match t {
        TerminatorV::Ret(v) => "ret "@ + vref(v),
        TerminatorV::Br(target) => "br "@ + target_text(target),
        TerminatorV::CondBr { cond, then_branch, else_branch } => "condbr "@ + vref(cond) + ", "@
            + target_text(then_branch) + ", "@ + target_text(else_branch),
    }
}

/// The right-hand side of an instruction line.
pub open spec fn inst_text(d: ValueDefV) -> Seq<char> {
    match d {
        ValueDefV::Inst(InstDataV::IConst(n)) => "iconst "@ + signed_decimal(n as int),
        ValueDefV::Inst(InstDataV::BConst(b)) => if b {
            "bconst true"@
        } else {
            "bconst false"@
        },
        ValueDefV::Inst(InstDataV::Unary { op, operand }) => unary_mnemonic(op) + " "@ + vref(
            operand,
        ),
        ValueDefV::Inst(InstDataV::Binary { op, lhs, rhs }) => binary_mnemonic(op) + " "@ + vref(
            lhs,
        ) + ", "@ + vref(rhs),
        ValueDefV::Inst(InstDataV::ICmp { op, lhs, rhs }) => "icmp "@ + relation_mnemonic(op) + " "@
            + vref(lhs) + ", "@ + vref(rhs),
        ValueDefV::Inst(InstDataV::Call { callee, args }) => "call "@ + callee + "("@ + vlist(args)
            + ")"@,
        ValueDefV::Param { .. } => "<param>"@,
    }
}

/// The instruction lines of a block body.
pub open spec fn body_text(f: FunctionV, body: Seq<Value>) -> Seq<char>
    decreases body.len(),
{
    if body.len() == 0 {
        seq![]
    } else {
        body_text(f, body.drop_last()) + "\n    "@ + vref(body.last()) + " = "@ + inst_text(
            f.values[body.last().0 as int].def,
        )
    }
}

/// A block's parameter list in its header; the entry block's parameters are
/// shown in the signature instead.
pub open spec fn header_text(f: FunctionV, i: int) -> Seq<char> {
    if i == 0 || f.blocks[i].params.len() == 0 {
        seq![]
    } else {
        "("@ + plist(f, f.blocks[i].params) + ")"@
    }
}

/// The text of block `i`.
pub open spec fn block_text(f: FunctionV, i: int) -> Seq<char> {
    "\nblock"@ + decimal(i as nat) + header_text(f, i) + ":"@ + body_text(f, f.blocks[i].body)
        + match f.blocks[i].terminator {
        Some(t) => "\n    "@ + term_text(t),
        None => seq![],
    }
}

/// The text of the first `n` blocks.
pub open spec fn blocks_text(f: FunctionV, n: int) -> Seq<char>
    decreases n,
{
    if n <= 0 {
        seq![]
    } else {
        blocks_text(f, n - 1) + block_text(f, n - 1)
    }
}

/// The text of a function.
pub open spec fn function_text(f: FunctionV) -> Seq<char> {
    "fn "@ + f.name + "("@ + plist(f, f.params()) + ") -> "@ + ty_name(f.return_type) + " {"@
        + blocks_text(f, f.blocks.len() as int) + "\n}"@
}

/// The text of a module: its functions separated by a blank line.
pub open spec fn module_text(fs: Seq<FunctionV>) -> Seq<char>
    decreases fs.len(),
{
    if fs.len() == 0 {
        seq![]
    } else if fs.len() == 1 {
        function_text(fs[0])
    } else {
        module_text(fs.drop_last()) + "\n\n"@ + function_text(fs.last())
    }
}

// ---------------------------------------------------------------------------
// The printer.

/// Render a whole module to AIR's textual form (no trailing newline).
/// Functions are separated by a blank line.
pub fn print(module: &Module) -> (r: String)
    ensures
        r@ == module_text(module@),
{
    let fs = module.functions();
    let ghost fv = module@;
    let mut out = String::new();
    let mut i: usize = 0;
    while i < fs.len()
        invariant
            i <= fs@.len(),
            fs@.map_values(|f: Function| f@) == fv,
            forall|j: int| 0 <= j < fv.len() ==> (#[trigger] fv[j]).wf(),
            out@ == module_text(fv.take(i as int)),
        decreases fs@.len() - i,
    {
        let ghost before = out@;
        if i > 0 {
            out.append("\n\n");
        }
        assert(fv[i as int] == fs@[i as int]@);
        print_function(&mut out, &fs[i]);
        proof {
            let t = fv.take(i + 1);
            assert(t.drop_last() =~= fv.take(i as int));
            if i == 0 {
                assert(before =~= Seq::<char>::empty());
                assert(out@ =~= module_text(t));
            } else {
                assert(out@ =~= module_text(t));
            }
        }
        i = i + 1;
    }
    assert(fv.take(i as int) =~= fv);
    out
}

/// Append a value reference.
pub(crate) fn push_vref(out: &mut String, v: Value)
    ensures
        final(out)@ == old(out)@ + vref(v),
{
    out.append("%");
    push_u64(out, v.0 as u64);
    assert(final(out)@ =~= old(out)@ + vref(v));
}

/// Append value references separated by `", "`.
fn push_vlist(out: &mut String, vs: &[Value])
    ensures
        final(out)@ == old(out)@ + vlist(vs@),
{
    let mut k: usize = 0;
    while k < vs.len()
        invariant
            k <= vs@.len(),
            out@ == old(out)@ + vlist(vs@.take(k as int)),
        decreases vs@.len() - k,
    {
        if k > 0 {
            out.append(", ");
        }
        push_vref(out, vs[k]);
        proof {
            let t = vs@.take(k + 1);
            assert(t.drop_last() =~= vs@.take(k as int));
            if k == 0 {
                assert(vs@.take(0) =~= Seq::<Value>::empty());
            }
            assert(out@ =~= old(out)@ + vlist(t));
        }
        k = k + 1;
    }
    assert(vs@.take(k as int) =~= vs@);
}

/// Append typed values separated by `", "`.
fn push_plist(out: &mut String, f: &Function, vs: &[Value])
    requires
        forall|i: int| 0 <= i < vs@.len() ==> (#[trigger] vs@[i]).0 < f@.values.len(),
    ensures
        final(out)@ == old(out)@ + plist(f@, vs@),
{
    let mut k: usize = 0;
    while k < vs.len()
        invariant
            k <= vs@.len(),
            forall|i: int| 0 <= i < vs@.len() ==> (#[trigger] vs@[i]).0 < f@.values.len(),
            out@ == old(out)@ + plist(f@, vs@.take(k as int)),
        decreases vs@.len() - k,
    {
        if k > 0 {
            out.append(", ");
        }
        let v = vs[k];
        push_vref(out, v);
        out.append(": ");
        out.append(f.value_type(v).name());
        proof {
            let t = vs@.take(k + 1);
            assert(t.drop_last() =~= vs@.take(k as int));
            if k == 0 {
                assert(vs@.take(0) =~= Seq::<Value>::empty());
            }
            assert(out@ =~= old(out)@ + plist(f@, t));
        }
        k = k + 1;
    }
    assert(vs@.take(k as int) =~= vs@);
}

/// Append a branch target.
fn push_target(out: &mut String, t: &BranchTarget)
    ensures
        final(out)@ == old(out)@ + target_text(t@),
{
    out.append("block");
    push_u64(out, t.block.0 as u64);
    if t.args.len() > 0 {
        out.append("(");
        push_vlist(out, t.args.as_slice());
        out.append(")");
    }
    assert(final(out)@ =~= old(out)@ + target_text(t@));
}

/// Append a terminator.
fn push_term(out: &mut String, t: &Terminator)
    ensures
        final(out)@ == old(out)@ + term_text(t@),
{
    match t {
        Terminator::Ret(v) => {
            out.append("ret ");
            push_vref(out, *v);
        },
        Terminator::Br(target) => {
            out.append("br ");
            push_target(out, target);
        },
        Terminator::CondBr { cond, then_branch, else_branch } => {
            out.append("condbr ");
            push_vref(out, *cond);
            out.append(", ");
            push_target(out, then_branch);
            out.append(", ");
            push_target(out, else_branch);
        },
    }
    assert(final(out)@ =~= old(out)@ + term_text(t@));
}

/// Append the right-hand side of an instruction line.
fn push_inst_text(out: &mut String, d: &ValueDef)
    ensures
        final(out)@ == old(out)@ + inst_text(d@),
{
    match d {
        ValueDef::Inst(InstData::IConst(n)) => {
            out.append("iconst ");
            push_i64(out, *n);
        },
        ValueDef::Inst(InstData::BConst(b)) => {
            if *b {
                out.append("bconst true");
            } else {
                out.append("bconst false");
            }
        },
        ValueDef::Inst(InstData::Unary { op, operand }) => {
            out.append(op.mnemonic());
            out.append(" ");
            push_vref(out, *operand);
        },
        ValueDef::Inst(InstData::Binary { op, lhs, rhs }) => {
            out.append(op.mnemonic());
            out.append(" ");
            push_vref(out, *lhs);
            out.append(", ");
            push_vref(out, *rhs);
        },
        ValueDef::Inst(InstData::ICmp { op, lhs, rhs }) => {
            out.append("icmp ");
            out.append(op.mnemonic());
            out.append(" ");
            push_vref(out, *lhs);
            out.append(", ");
            push_vref(out, *rhs);
        },
        ValueDef::Inst(InstData::Call { callee, args }) => {
            out.append("call ");
            out.append(callee.as_str());
            out.append("(");
            push_vlist(out, args.as_slice());
            out.append(")");
        },
        ValueDef::Param { .. } => {
            out.append("<param>");
        },
    }
    assert(final(out)@ =~= old(out)@ + inst_text(d@));
}

/// Append the text of a function.
fn print_function(out: &mut String, f: &Function)
    requires
        f@.wf(),
    ensures
        final(out)@ == old(out)@ + function_text(f@),
{
    let ghost fv = f@;
    out.append("fn ");
    out.append(f.name());
    out.append("(");
    push_plist(out, f, f.params());
    out.append(") -> ");
    out.append(f.return_type().name());
    out.append(" {");
    let ghost head = out@;
    let blocks = f.blocks();
    let mut i: usize = 0;
    while i < blocks.len()
        invariant
            f@.wf(),
            i <= blocks@.len(),
            crate::air::blocks_view(blocks@) == f@.blocks,
            out@ == head + blocks_text(f@, i as int),
        decreases blocks@.len() - i,
    {
        assert(blocks@[i as int]@ == f@.blocks[i as int]);
        print_block(out, f, i, &blocks[i]);
        i = i + 1;
    }
    out.append("\n}");
    assert(final(out)@ =~= old(out)@ + function_text(fv));
}

/// Append the text of block `i`.
fn print_block(out: &mut String, f: &Function, i: usize, block: &crate::air::BlockData)
    requires
        f@.wf(),
        i < f@.blocks.len(),
        block@ == f@.blocks[i as int],
    ensures
        final(out)@ == old(out)@ + block_text(f@, i as int),
{
    out.append("\nblock");
    push_usize(out, i);
    let ghost s1 = out@;
    push_header(out, f, i, block);
    let ghost s2 = out@;
    out.append(":");
    let ghost s3 = out@;
    push_body(out, f, i, block);
    let ghost s4 = out@;
    push_opt_term(out, &block.terminator);
    assert(s1 == old(out)@ + "\nblock"@ + decimal(i as nat));
    assert(s2 == s1 + header_text(f@, i as int));
    assert(s3 == s2 + ":"@);
    assert(s4 == s3 + body_text(f@, f@.blocks[i as int].body));
    assert(final(out)@ =~= old(out)@ + block_text(f@, i as int));
}

fn push_header(out: &mut String, f: &Function, i: usize, block: &crate::air::BlockData)
    requires
        f@.wf(),
        i < f@.blocks.len(),
        block@ == f@.blocks[i as int],
    ensures
        final(out)@ == old(out)@ + header_text(f@, i as int),
{
    if i != 0 && block.params.len() > 0 {
        out.append("(");
        assert forall|k: int| 0 <= k < block.params@.len() implies (#[trigger] block.params@[k]).0
            < f@.values.len() by {
            assert(block.params@[k] == f@.blocks[i as int].params[k]);
        }
        push_plist(out, f, block.params.as_slice());
        out.append(")");
    }
    assert(final(out)@ =~= old(out)@ + header_text(f@, i as int));
}

fn push_body(out: &mut String, f: &Function, i: usize, block: &crate::air::BlockData)
    requires
        f@.wf(),
        i < f@.blocks.len(),
        block@ == f@.blocks[i as int],
    ensures
        final(out)@ == old(out)@ + body_text(f@, f@.blocks[i as int].body),
{
    let mut k: usize = 0;
    while k < block.body.len()
        invariant
            f@.wf(),
            i < f@.blocks.len(),
            block@ == f@.blocks[i as int],
            k <= block.body@.len(),
            out@ == old(out)@ + body_text(f@, block.body@.take(k as int)),
        decreases block.body@.len() - k,
    {
        let v = block.body[k];
        assert(v == f@.blocks[i as int].body[k as int]);
        out.append("\n    ");
        push_vref(out, v);
        out.append(" = ");
        push_inst_text(out, f.value_def(v));
        proof {
            let t = block.body@.take(k + 1);
            assert(t.drop_last() =~= block.body@.take(k as int));
            assert(out@ =~= old(out)@ + body_text(f@, t));
        }
        k = k + 1;
    }
    assert(block.body@.take(k as int) =~= block.body@);
}

fn push_opt_term(out: &mut String, t: &Option<Terminator>)
    ensures
        final(out)@ == old(out)@ + match t {
            Some(t) => "\n    "@ + term_text(t@),
            None => seq![],
        },
{
    match t {
        Some(t) => {
            out.append("\n    ");
            push_term(out, t);
            assert(final(out)@ =~= old(out)@ + "\n    "@ + term_text(t@));
        },
        None => {
            assert(final(out)@ =~= old(out)@ + Seq::<char>::empty());
        },
    }
}

} // verus!

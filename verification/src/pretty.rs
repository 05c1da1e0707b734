//! A pretty-printer that renders a program as an indented tree, two spaces
//! per level and no trailing newline, for debugging and golden tests:
//!
//! ```text
//! Program
//!   Fn "main" -> "int"
//!     Block
//!       Return
//!         IntLit 1
//! ```

use vstd::prelude::*;
use crate::ast::{
    binop_symbol, unop_symbol, Block, ElseBranch, ElseV, Expr, ExprV, FnDecl, FnDeclV, IfStmt,
    IfStmtV, Item, ParamV, Program, Stmt, StmtV,
};
use crate::text::{concat, decimal, push_u64};

verus! {

// ---------------------------------------------------------------------------
// The rendering, stated over the views.

/// A line of output at indentation `ind`, with the newline that separates it
/// from what came before.
pub open spec fn line(ind: Seq<char>, text: Seq<char>) -> Seq<char> {
    "\n"@ + ind + text
}

/// The indentation one level deeper than `ind`.
pub open spec fn deeper(ind: Seq<char>) -> Seq<char> {
    ind + "  "@
}

/// `s` between double quotes.
pub open spec fn quoted(s: Seq<char>) -> Seq<char> {
    "\""@ + s + "\""@
}

/// The spelling of a boolean literal.
pub open spec fn bool_text(b: bool) -> Seq<char> {
    if b {
        "true"@
    } else {
        "false"@
    }
}

/// The lines of an expression at indentation `ind`.
pub open spec fn expr_text(e: ExprV, ind: Seq<char>) -> Seq<char>
    decreases e,
{
    match e {
        ExprV::IntLit { value, .. } => line(ind, "IntLit "@ + decimal(value as nat)),
        ExprV::BoolLit { value, .. } => line(ind, "BoolLit "@ + bool_text(value)),
        ExprV::Unary { op, operand, .. } => line(ind, "Unary "@ + unop_symbol(op)) + expr_text(
            *operand,
            deeper(ind),
        ),
        ExprV::Binary { op, lhs, rhs, .. } => line(ind, "Binary "@ + binop_symbol(op))
            + expr_text(*lhs, deeper(ind)) + expr_text(*rhs, deeper(ind)),
        ExprV::Name { name, .. } => line(ind, "Name "@ + quoted(name)),
        ExprV::Call { callee, args, .. } => line(ind, "Call "@ + quoted(callee)) + exprs_text(
            args,
            deeper(ind),
        ),
        ExprV::Error { .. } => line(ind, "Error"@),
    }
}

/// The lines of a sequence of expressions, in order, at indentation `ind`.
pub open spec fn exprs_text(es: Seq<ExprV>, ind: Seq<char>) -> Seq<char>
    decreases es,
{
    if es.len() == 0 {
        seq![]
    } else {
        exprs_text(es.drop_last(), ind) + expr_text(es.last(), ind)
    }
}

/// The lines of a statement at indentation `ind`.
pub open spec fn stmt_text(s: StmtV, ind: Seq<char>) -> Seq<char>
    decreases s,
{
    match s {
        StmtV::Let { name, init, .. } => line(ind, "Let "@ + quoted(name.name)) + expr_text(
            init,
            deeper(ind),
        ),
        StmtV::Return { expr, .. } => line(ind, "Return"@) + expr_text(expr, deeper(ind)),
        StmtV::If(i) => if_text(i, ind),
    }
}

/// The lines of a sequence of statements, in order, at indentation `ind`.
pub open spec fn stmts_text(ss: Seq<StmtV>, ind: Seq<char>) -> Seq<char>
    decreases ss,
{
    if ss.len() == 0 {
        seq![]
    } else {
        stmts_text(ss.drop_last(), ind) + stmt_text(ss.last(), ind)
    }
}

/// The lines of an `if` statement at indentation `ind`: the condition, then
/// `Then` and its statements, then `Else` and its statements or nested `if`.
pub open spec fn if_text(i: IfStmtV, ind: Seq<char>) -> Seq<char>
    decreases i,
{
    line(ind, "If"@) + expr_text(i.cond, deeper(ind)) + line(deeper(ind), "Then"@) + stmts_text(
        i.then_block.stmts,
        deeper(deeper(ind)),
    ) + match i.else_branch {
        None => seq![],
        Some(ElseV::Block(b)) => line(deeper(ind), "Else"@) + stmts_text(
            b.stmts,
            deeper(deeper(ind)),
        ),
        Some(ElseV::If(n)) => line(deeper(ind), "Else"@) + if_text(*n, deeper(deeper(ind))),
    }
}

/// The line of a parameter.
pub open spec fn param_text(p: ParamV, ind: Seq<char>) -> Seq<char> {
    line(ind, "Param "@ + quoted(p.name.name) + " "@ + quoted(p.ty.name))
}

/// The lines of a parameter list.
pub open spec fn params_text(ps: Seq<ParamV>, ind: Seq<char>) -> Seq<char>
    decreases ps.len(),
{
    if ps.len() == 0 {
        seq![]
    } else {
        params_text(ps.drop_last(), ind) + param_text(ps.last(), ind)
    }
}

/// The lines of a function: its header, its parameters, and its body.
pub open spec fn fn_text(f: FnDeclV, ind: Seq<char>) -> Seq<char> {
    line(ind, "Fn "@ + quoted(f.name.name) + " -> "@ + quoted(f.return_type.name)) + params_text(
        f.params,
        deeper(ind),
    ) + line(deeper(ind), "Block"@) + stmts_text(f.body.stmts, deeper(deeper(ind)))
}

/// The lines of a sequence of functions.
pub open spec fn items_text(fs: Seq<FnDeclV>, ind: Seq<char>) -> Seq<char>
    decreases fs.len(),
{
    if fs.len() == 0 {
        seq![]
    } else {
        items_text(fs.drop_last(), ind) + fn_text(fs.last(), ind)
    }
}

/// The whole rendering of a program.
pub open spec fn program_text(p: Seq<FnDeclV>) -> Seq<char> {
    "Program"@ + items_text(p, "  "@)
}

// ---------------------------------------------------------------------------
// The printer.

/// Render `program` as an indented tree (two spaces per level, no trailing
/// newline).
pub fn print(program: &Program) -> (r: String)
    ensures
        r@ == program_text(program@),
{
    let mut out = String::from_str("Program");
    let ind = String::from_str("  ");
    let mut i: usize = 0;
    while i < program.items.len()
        invariant
            i <= program.items@.len(),
            ind@ == "  "@,
            out@ == "Program"@ + items_text(program@.take(i as int), ind@),
        decreases program.items@.len() - i,
    {
        let ghost before = out@;
        match &program.items[i] {
            Item::Fn(f) => print_fn(&mut out, ind.as_str(), f),
        }
        proof {
            let fs = program@.take(i + 1);
            assert(fs.drop_last() =~= program@.take(i as int));
            assert(fs.last() == program.items@[i as int]@);
            assert(out@ =~= "Program"@ + items_text(fs, ind@));
        }
        i = i + 1;
    }
    assert(program@.take(i as int) =~= program@);
    out
}

/// Append a line of output.
fn push_line(out: &mut String, ind: &str, text: &str)
    ensures
        final(out)@ == old(out)@ + line(ind@, text@),
{
    out.append("\n");
    out.append(ind);
    out.append(text);
    assert(final(out)@ =~= old(out)@ + line(ind@, text@));
}

/// Append `s` in double quotes.
fn push_quoted(h: &mut String, s: &str)
    ensures
        final(h)@ == old(h)@ + quoted(s@),
{
    h.append("\"");
    h.append(s);
    h.append("\"");
    assert(final(h)@ =~= old(h)@ + quoted(s@));
}

/// `text` followed by `s` in double quotes.
fn with_quoted(text: &str, s: &str) -> (r: String)
    ensures
        r@ == text@ + quoted(s@),
{
    let mut h = String::from_str(text);
    push_quoted(&mut h, s);
    h
}

fn print_fn(out: &mut String, ind: &str, f: &FnDecl)
    ensures
        final(out)@ == old(out)@ + fn_text(f@, ind@),
{
    let mut head = with_quoted("Fn ", f.name.name.as_str());
    head.append(" -> ");
    push_quoted(&mut head, f.return_type.name.name.as_str());
    assert(head@ =~= "Fn "@ + quoted(f@.name.name) + " -> "@ + quoted(f@.return_type.name));
    push_line(out, ind, head.as_str());
    let d = concat(ind, "  ");
    let mut i: usize = 0;
    let ghost start = out@;
    while i < f.params.len()
        invariant
            i <= f.params@.len(),
            d@ == deeper(ind@),
            out@ == start + params_text(f@.params.take(i as int), d@),
        decreases f.params@.len() - i,
    {
        let p = &f.params[i];
        let mut t = with_quoted("Param ", p.name.name.as_str());
        t.append(" ");
        push_quoted(&mut t, p.ty.name.name.as_str());
        push_line(out, d.as_str(), t.as_str());
        proof {
            let ps = f@.params.take(i + 1);
            assert(ps.drop_last() =~= f@.params.take(i as int));
            assert(ps.last() == p@);
            assert(t@ =~= "Param "@ + quoted(p@.name.name) + " "@ + quoted(p@.ty.name));
            assert(out@ =~= start + params_text(ps, d@));
        }
        i = i + 1;
    }
    assert(f@.params.take(i as int) =~= f@.params);
    let ghost mid = out@;
    push_line(out, d.as_str(), "Block");
    let dd = concat(d.as_str(), "  ");
    print_stmts(out, dd.as_str(), &f.body);
    assert(out@ =~= old(out)@ + fn_text(f@, ind@));
}

/// Append the statements of `block`, each at indentation `ind`.
fn print_stmts(out: &mut String, ind: &str, block: &Block)
    ensures
        final(out)@ == old(out)@ + stmts_text(block@.stmts, ind@),
    decreases block, 0nat,
{
    let mut i: usize = 0;
    while i < block.stmts.len()
        invariant
            i <= block.stmts@.len(),
            out@ == old(out)@ + stmts_text(crate::ast::stmts_view(block.stmts@.take(i as int)), ind@),
        decreases block.stmts@.len() - i,
    {
        let ghost before = out@;
        print_stmt(out, ind, &block.stmts[i]);
        proof {
            let t = block.stmts@.take(i + 1);
            assert(t.drop_last() =~= block.stmts@.take(i as int));
            let ss = crate::ast::stmts_view(t);
            assert(ss.drop_last() =~= crate::ast::stmts_view(block.stmts@.take(i as int)));
            assert(out@ =~= old(out)@ + stmts_text(ss, ind@));
        }
        i = i + 1;
    }
    assert(block.stmts@.take(i as int) =~= block.stmts@);
}

/// Append the lines of a statement.
fn print_stmt(out: &mut String, ind: &str, s: &Stmt)
    ensures
        final(out)@ == old(out)@ + stmt_text(s@, ind@),
    decreases s, 0nat,
{
    match s {
        Stmt::Let(l) => {
            let head = with_quoted("Let ", l.name.name.as_str());
            push_line(out, ind, head.as_str());
            let d = concat(ind, "  ");
            print_expr(out, d.as_str(), &l.init);
        },
        Stmt::Return(r) => {
            push_line(out, ind, "Return");
            let d = concat(ind, "  ");
            print_expr(out, d.as_str(), &r.expr);
        },
        Stmt::If(i) => print_if(out, ind, i),
    }
    assert(final(out)@ =~= old(out)@ + stmt_text(s@, ind@));
}

/// Append the lines of an `if` statement.
fn print_if(out: &mut String, ind: &str, i: &IfStmt)
    ensures
        final(out)@ == old(out)@ + if_text(i@, ind@),
    decreases i, 0nat,
{
    push_line(out, ind, "If");
    let d = concat(ind, "  ");
    print_expr(out, d.as_str(), &i.cond);
    push_line(out, d.as_str(), "Then");
    let dd = concat(d.as_str(), "  ");
    print_stmts(out, dd.as_str(), &i.then_block);
    let ghost mid = out@;
    match &i.else_branch {
        None => {},
        Some(ElseBranch::Block(b)) => {
            push_line(out, d.as_str(), "Else");
            print_stmts(out, dd.as_str(), b);
        },
        Some(ElseBranch::If(n)) => {
            push_line(out, d.as_str(), "Else");
            print_if(out, dd.as_str(), n);
        },
    }
    assert(final(out)@ =~= old(out)@ + if_text(i@, ind@));
}

/// Append the lines of an expression.
fn print_expr(out: &mut String, ind: &str, e: &Expr)
    ensures
        final(out)@ == old(out)@ + expr_text(e@, ind@),
    decreases e,
{
    match e {
        Expr::IntLit { value, .. } => {
            let mut head = String::from_str("IntLit ");
            push_u64(&mut head, *value);
            push_line(out, ind, head.as_str());
        },
        Expr::BoolLit { value, .. } => {
            if *value {
                push_line(out, ind, "BoolLit true");
                assert("BoolLit true"@ =~= "BoolLit "@ + bool_text(true)) by {
                    reveal_strlit("BoolLit true");
                    reveal_strlit("BoolLit ");
                    reveal_strlit("true");
                }
            } else {
                push_line(out, ind, "BoolLit false");
                assert("BoolLit false"@ =~= "BoolLit "@ + bool_text(false)) by {
                    reveal_strlit("BoolLit false");
                    reveal_strlit("BoolLit ");
                    reveal_strlit("false");
                }
            }
        },
        Expr::Unary { op, operand, .. } => {
            let head = concat("Unary ", op.symbol());
            push_line(out, ind, head.as_str());
            let d = concat(ind, "  ");
            print_expr(out, d.as_str(), operand);
        },
        Expr::Binary { op, lhs, rhs, .. } => {
            let head = concat("Binary ", op.symbol());
            push_line(out, ind, head.as_str());
            let d = concat(ind, "  ");
            print_expr(out, d.as_str(), lhs);
            print_expr(out, d.as_str(), rhs);
        },
        Expr::Name { name, .. } => {
            let head = with_quoted("Name ", name.as_str());
            push_line(out, ind, head.as_str());
        },
        Expr::Call { callee, args, .. } => {
            let head = with_quoted("Call ", callee.as_str());
            push_line(out, ind, head.as_str());
            let d = concat(ind, "  ");
            let ghost start = out@;
            let mut k: usize = 0;
            while k < args.len()
                invariant
                    k <= args@.len(),
                    d@ == deeper(ind@),
                    decreases_to!(*e => *args),
                    out@ == start + exprs_text(
                        crate::ast::exprs_view(args@.take(k as int)),
                        d@,
                    ),
                decreases args@.len() - k,
            {
                print_expr(out, d.as_str(), &args[k]);
                proof {
                    lemma_exprs_view_take(args@, k as int);
                    let vs = crate::ast::exprs_view(args@.take(k + 1));
                    assert(vs.drop_last() =~= crate::ast::exprs_view(args@.take(k as int)));
                    assert(out@ =~= start + exprs_text(vs, d@));
                }
                k = k + 1;
            }
            assert(args@.take(k as int) =~= args@);
        },
        Expr::Error { .. } => {
            push_line(out, ind, "Error");
        },
    }
    assert(final(out)@ =~= old(out)@ + expr_text(e@, ind@));
}

/// Taking one more argument adds its view at the end.
proof fn lemma_exprs_view_take(args: Seq<Expr>, k: int)
    requires
        0 <= k < args.len(),
    ensures
        crate::ast::exprs_view(args.take(k + 1)) == crate::ast::exprs_view(args.take(k)).push(
            args[k]@,
        ),
{
    let t = args.take(k + 1);
    assert(t.drop_last() =~= args.take(k));
}

} // verus!

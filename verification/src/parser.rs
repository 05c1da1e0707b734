//! The recursive-descent parser, with precedence climbing (Pratt parsing)
//! for expressions and error recovery (poison nodes and resynchronisation).

use vstd::prelude::*;
use vstd::utf8::*;
use vstd::string::*;
use crate::text::{byte_slice, concat, concat3, decode_range};
use crate::source::{FileId, SourceFile, Span, span_merge};
use crate::diagnostics::{Diagnostic, DiagnosticV, diags_view, error_with_primary};
use crate::token::{Token, TokenKind, description_of};
use crate::lexer::is_digit;
use crate::ast::{
    BinOp, Block, BlockV, ElseBranch, ElseV, Expr, ExprV, FnDecl, FnDeclV, Ident, IdentV, IfStmt,
    IfStmtV, Item, LetStmt, Param, ParamV, Program, ReturnStmt, Stmt, StmtV, Type, UnOp,
    expr_view, exprs_view, stmts_view, params_view, items_view,
};

verus! {

// ---------------------------------------------------------------------------
// The grammar, as functions over the token sequence.

/// The parser's input: the tokens and the bytes of the file they came from.
pub struct PIn {
    pub toks: Seq<Token>,
    pub bytes: Seq<u8>,
}

/// The current token (the final token once past the end).
pub open spec fn peek(inp: PIn, pos: int) -> Token {
    if 0 <= pos < inp.toks.len() {
        inp.toks[pos]
    } else {
        inp.toks[inp.toks.len() - 1]
    }
}

/// Whether the current token has kind `k`.
pub open spec fn at(inp: PIn, pos: int, k: TokenKind) -> bool {
    peek(inp, pos).kind == k
}

/// The position after consuming the current token (never past `Eof`).
pub open spec fn bump(inp: PIn, pos: int) -> int {
    if peek(inp, pos).kind is Eof {
        pos
    } else {
        pos + 1
    }
}

/// The source text covered by a span.
pub open spec fn lexeme(inp: PIn, span: Span) -> Seq<char> {
    decode_range(inp.bytes, span.lo.0 as int, span.hi.0 as int)
}

/// `"found <description>"` for a token kind.
pub open spec fn found(k: TokenKind) -> Seq<char> {
    "found "@ + description_of(k)
}

/// Consume a token of kind `k`, or report what was found instead.
pub open spec fn expect(inp: PIn, pos: int, k: TokenKind) -> (Option<Span>, int, Seq<DiagnosticV>) {
    if at(inp, pos, k) {
        (Some(peek(inp, pos).span), bump(inp, pos), seq![])
    } else {
        (
            None,
            pos,
            seq![error_with_primary("expected "@ + description_of(k), peek(inp, pos).span, found(peek(inp, pos).kind))],
        )
    }
}

/// Parse an identifier.
pub open spec fn p_ident(inp: PIn, pos: int) -> (Option<IdentV>, int, Seq<DiagnosticV>) {
    let t = peek(inp, pos);
    if t.kind is Ident {
        (Some(IdentV { name: lexeme(inp, t.span), span: t.span }), bump(inp, pos), seq![])
    } else {
        (None, pos, seq![error_with_primary("expected an identifier"@, t.span, found(t.kind))])
    }
}

/// Every character of `s` is a decimal digit.
pub open spec fn all_digits(s: Seq<char>) -> bool {
    forall|i: int| 0 <= i < s.len() ==> is_digit(#[trigger] s[i])
}

/// The value of a string of decimal digits.
pub open spec fn digits_value(s: Seq<char>) -> nat
    decreases s.len(),
{
    if s.len() == 0 {
        0
    } else {
        digits_value(s.drop_last()) * 10 + ((s.last() as u32) - 48) as nat
    }
}

/// The value of `s` read as a `u64` the way `str::parse::<u64>` reads it: an
/// optional `+` then one or more decimal digits, with no overflow.
pub open spec fn parse_u64(s: Seq<char>) -> Option<u64> {
    let body = if s.len() > 0 && s[0] == '+' { s.drop_first() } else { s };
    if body.len() == 0 || !all_digits(body) || digits_value(body) > u64::MAX {
        None
    } else {
        Some(digits_value(body) as u64)
    }
}

/// The value of an integer literal, and the diagnostic if it does not fit.
pub open spec fn int_literal(inp: PIn, span: Span) -> (u64, Seq<DiagnosticV>) {
    let text = lexeme(inp, span);
    match parse_u64(text) {
        Some(v) => (v, seq![]),
        None => (
            0,
            seq![error_with_primary(
                "integer literal `"@ + text + "` is too large"@,
                span,
                "does not fit in a 64-bit integer"@,
            )],
        ),
    }
}

/// The binary operator a token stands for, if any.
pub open spec fn infix_op(k: TokenKind) -> Option<BinOp> {
    match k {
        TokenKind::PipePipe => Some(BinOp::Or),
        TokenKind::AmpAmp => Some(BinOp::And),
        TokenKind::EqEq => Some(BinOp::Eq),
        TokenKind::BangEq => Some(BinOp::Ne),
        TokenKind::Lt => Some(BinOp::Lt),
        TokenKind::LtEq => Some(BinOp::Le),
        TokenKind::Gt => Some(BinOp::Gt),
        TokenKind::GtEq => Some(BinOp::Ge),
        TokenKind::Plus => Some(BinOp::Add),
        TokenKind::Minus => Some(BinOp::Sub),
        TokenKind::Star => Some(BinOp::Mul),
        TokenKind::Slash => Some(BinOp::Div),
        _ => None,
    }
}

/// The left binding power of a binary operator (loosest `||`, tightest `*`/`/`).
pub open spec fn left_bp(op: BinOp) -> u8 {
    match op {
        BinOp::Or => 1,
        BinOp::And => 3,
        BinOp::Eq | BinOp::Ne => 5,
        BinOp::Lt | BinOp::Le | BinOp::Gt | BinOp::Ge => 7,
        BinOp::Add | BinOp::Sub => 9,
        BinOp::Mul | BinOp::Div => 11,
    }
}

/// The right binding power is one more than the left: operators associate left.
pub open spec fn right_bp(op: BinOp) -> u8 {
    (left_bp(op) + 1) as u8
}

/// The binding power of the prefix operators `-` and `!`.
pub open spec fn unary_bp() -> u8 {
    13
}

/// Parse an expression whose operators bind at least as tightly as `min_bp`.
pub open spec fn p_expr(inp: PIn, pos: int, min_bp: u8) -> (ExprV, int, Seq<DiagnosticV>)
    decreases inp.toks.len() - pos, 2int,
{
    if pos < 0 || pos >= inp.toks.len() {
        (ExprV::Error { span: peek(inp, pos).span }, pos, seq![])
    } else {
        let (lhs, p1, d1) = p_prefix(inp, pos);
        if p1 < pos || p1 >= inp.toks.len() {
            (lhs, p1, d1)
        } else {
            let (e, p2, d2) = p_infix(inp, lhs, p1, min_bp);
            (e, p2, d1 + d2)
        }
    }
}

/// Extend `lhs` with infix operators binding at least as tightly as `min_bp`.
pub open spec fn p_infix(inp: PIn, lhs: ExprV, pos: int, min_bp: u8) -> (ExprV, int, Seq<DiagnosticV>)
    decreases inp.toks.len() - pos, 1int,
{
    if pos < 0 || pos >= inp.toks.len() {
        (lhs, pos, seq![])
    } else {
        match infix_op(peek(inp, pos).kind) {
            None => (lhs, pos, seq![]),
            Some(op) => if left_bp(op) < min_bp {
                (lhs, pos, seq![])
            } else {
                let (rhs, p2, d1) = p_expr(inp, bump(inp, pos), right_bp(op));
                let e = ExprV::Binary {
                    op,
                    lhs: Box::new(lhs),
                    rhs: Box::new(rhs),
                    span: span_merge(lhs.span(), rhs.span()),
                };
                if p2 <= pos || p2 >= inp.toks.len() {
                    (e, p2, d1)
                } else {
                    let (r, p3, d2) = p_infix(inp, e, p2, min_bp);
                    (r, p3, d1 + d2)
                }
            },
        }
    }
}

/// Parse a prefix expression: a literal, name, call, parenthesised or unary
/// expression, or report that no expression starts here.
pub open spec fn p_prefix(inp: PIn, pos: int) -> (ExprV, int, Seq<DiagnosticV>)
    decreases inp.toks.len() - pos, 1int,
{
    let t = peek(inp, pos);
    if pos < 0 || pos >= inp.toks.len() {
        (ExprV::Error { span: t.span }, pos, seq![])
    } else {
        match t.kind {
            TokenKind::Int => {
                let (v, d) = int_literal(inp, t.span);
                (ExprV::IntLit { value: v, span: t.span }, bump(inp, pos), d)
            },
            TokenKind::True => (ExprV::BoolLit { value: true, span: t.span }, bump(inp, pos), seq![]),
            TokenKind::False => (ExprV::BoolLit { value: false, span: t.span }, bump(inp, pos), seq![]),
            TokenKind::Minus | TokenKind::Bang => {
                let op = if t.kind is Minus { UnOp::Neg } else { UnOp::Not };
                let (operand, p2, d) = p_expr(inp, pos + 1, unary_bp());
                (
                    ExprV::Unary { op, operand: Box::new(operand), span: span_merge(t.span, operand.span()) },
                    p2,
                    d,
                )
            },
            TokenKind::LParen => {
                let (inner, p2, d1) = p_expr(inp, pos + 1, 0);
                let (_, p3, d2) = expect(inp, p2, TokenKind::RParen);
                (inner, p3, d1 + d2)
            },
            TokenKind::Ident => {
                let name = lexeme(inp, t.span);
                if at(inp, pos + 1, TokenKind::LParen) {
                    let (args, p3, d1) = p_args(inp, pos + 2, seq![]);
                    let (close, p4, d2) = expect(inp, p3, TokenKind::RParen);
                    let close_span = match close {
                        Some(s) => s,
                        None => peek(inp, p4).span,
                    };
                    (ExprV::Call { callee: name, args, span: span_merge(t.span, close_span) }, p4, d1 + d2)
                } else {
                    (ExprV::Name { name, span: t.span }, pos + 1, seq![])
                }
            },
            _ => (
                ExprV::Error { span: t.span },
                pos,
                seq![error_with_primary("expected an expression"@, t.span, found(t.kind))],
            ),
        }
    }
}

/// Parse comma-separated call arguments up to (not including) `)`.
pub open spec fn p_args(inp: PIn, pos: int, acc: Seq<ExprV>) -> (Seq<ExprV>, int, Seq<DiagnosticV>)
    decreases inp.toks.len() - pos, 3int,
{
    if pos < 0 || pos >= inp.toks.len() || at(inp, pos, TokenKind::RParen) {
        (acc, pos, seq![])
    } else {
        let (a, p1, d1) = p_expr(inp, pos, 0);
        if at(inp, p1, TokenKind::Comma) {
            let p2 = bump(inp, p1);
            if p2 <= pos || p2 >= inp.toks.len() {
                (acc.push(a), p2, d1)
            } else {
                let (r, p3, d2) = p_args(inp, p2, acc.push(a));
                (r, p3, d1 + d2)
            }
        } else {
            (acc.push(a), p1, d1)
        }
    }
}

/// The statement `let NAME = EXPR;` starting at `pos`.
pub open spec fn p_let(inp: PIn, pos: int) -> (Option<StmtV>, int, Seq<DiagnosticV>) {
    let kw = peek(inp, pos).span;
    let (name, p2, d1) = p_ident(inp, bump(inp, pos));
    match name {
        None => (None, p2, d1),
        Some(n) => {
            let (eq, p3, d2) = expect(inp, p2, TokenKind::Eq);
            match eq {
                None => (None, p3, d1 + d2),
                Some(_) => {
                    let (init, p4, d3) = p_expr(inp, p3, 0);
                    let (semi, p5, d4) = expect(inp, p4, TokenKind::Semicolon);
                    let end = match semi {
                        Some(s) => s,
                        None => init.span(),
                    };
                    (Some(StmtV::Let { name: n, init, span: span_merge(kw, end) }), p5, d1 + d2 + d3 + d4)
                },
            }
        },
    }
}

/// The statement `return EXPR;` starting at `pos`.
pub open spec fn p_return(inp: PIn, pos: int) -> (Option<StmtV>, int, Seq<DiagnosticV>) {
    let kw = peek(inp, pos).span;
    let (e, p2, d1) = p_expr(inp, bump(inp, pos), 0);
    let (semi, p3, d2) = expect(inp, p2, TokenKind::Semicolon);
    let end = match semi {
        Some(s) => s,
        None => e.span(),
    };
    (Some(StmtV::Return { expr: e, span: span_merge(kw, end) }), p3, d1 + d2)
}

/// A statement starting at `pos`.
pub open spec fn p_stmt(inp: PIn, pos: int) -> (Option<StmtV>, int, Seq<DiagnosticV>)
    decreases inp.toks.len() - pos, 1int,
{
    let t = peek(inp, pos);
    if pos < 0 || pos >= inp.toks.len() {
        (None, pos, seq![])
    } else if t.kind is Let {
        p_let(inp, pos)
    } else if t.kind is Return {
        p_return(inp, pos)
    } else if t.kind is If {
        let (i, p, d) = p_if(inp, pos);
        match i {
            Some(s) => (Some(StmtV::If(s)), p, d),
            None => (None, p, d),
        }
    } else {
        (None, pos, seq![error_with_primary("expected a statement"@, t.span, found(t.kind))])
    }
}

/// The statements of a block, up to its closing brace or the end of input.
pub open spec fn p_stmts(inp: PIn, pos: int, acc: Seq<StmtV>) -> (Seq<StmtV>, int, Seq<DiagnosticV>)
    decreases inp.toks.len() - pos, 2int,
{
    if pos < 0 || pos >= inp.toks.len() || at(inp, pos, TokenKind::RBrace) || at(inp, pos, TokenKind::Eof) {
        (acc, pos, seq![])
    } else {
        let (s, p1, d1) = p_stmt(inp, pos);
        let acc2 = match s {
            Some(st) => acc.push(st),
            None => acc,
        };
        // Guarantee progress even when a statement failed to parse.
        let p2 = if p1 == pos { bump(inp, p1) } else { p1 };
        if p2 <= pos || p2 >= inp.toks.len() {
            (acc2, p2, d1)
        } else {
            let (r, p3, d2) = p_stmts(inp, p2, acc2);
            (r, p3, d1 + d2)
        }
    }
}

/// A brace-delimited block.
pub open spec fn p_block(inp: PIn, pos: int) -> (Option<BlockV>, int, Seq<DiagnosticV>)
    decreases inp.toks.len() - pos, 0int,
{
    if pos < 0 || pos >= inp.toks.len() {
        (None, pos, seq![])
    } else {
        let (open, p1, d1) = expect(inp, pos, TokenKind::LBrace);
        match open {
            None => (None, p1, d1),
            Some(o) => {
                if p1 <= pos || p1 >= inp.toks.len() {
                    (None, p1, d1)
                } else {
                    let (stmts, p2, d2) = p_stmts(inp, p1, seq![]);
                    let (close, p3, d3) = expect(inp, p2, TokenKind::RBrace);
                    let c = match close {
                        Some(s) => s,
                        None => peek(inp, p3).span,
                    };
                    (Some(BlockV { stmts, span: span_merge(o, c) }), p3, d1 + d2 + d3)
                }
            },
        }
    }
}

/// The statement `if COND BLOCK [else (BLOCK | if …)]` starting at `pos`.
pub open spec fn p_if(inp: PIn, pos: int) -> (Option<IfStmtV>, int, Seq<DiagnosticV>)
    decreases inp.toks.len() - pos, 0int,
{
    if pos < 0 || pos >= inp.toks.len() {
        (None, pos, seq![])
    } else {
        let kw = peek(inp, pos).span;
        let (cond, p2, d1) = p_expr(inp, pos + 1, 0);
        if p2 <= pos || p2 >= inp.toks.len() {
            (None, p2, d1)
        } else {
            let (then_b, p3, d2) = p_block(inp, p2);
            match then_b {
                None => (None, p3, d1 + d2),
                Some(tb) => {
                    if at(inp, p3, TokenKind::Else) {
                        let p4 = bump(inp, p3);
                        if p4 <= pos || p4 >= inp.toks.len() {
                            (None, p4, d1 + d2)
                        } else if at(inp, p4, TokenKind::If) {
                            let (nested, p5, d3) = p_if(inp, p4);
                            match nested {
                                None => (None, p5, d1 + d2 + d3),
                                Some(n) => (
                                    Some(IfStmtV {
                                        cond,
                                        then_block: tb,
                                        else_branch: Some(ElseV::If(Box::new(n))),
                                        span: span_merge(kw, n.span),
                                    }),
                                    p5,
                                    d1 + d2 + d3,
                                ),
                            }
                        } else {
                            let (eb, p5, d3) = p_block(inp, p4);
                            match eb {
                                None => (None, p5, d1 + d2 + d3),
                                Some(b) => (
                                    Some(IfStmtV {
                                        cond,
                                        then_block: tb,
                                        else_branch: Some(ElseV::Block(b)),
                                        span: span_merge(kw, b.span),
                                    }),
                                    p5,
                                    d1 + d2 + d3,
                                ),
                            }
                        }
                    } else {
                        (
                            Some(IfStmtV { cond, then_block: tb, else_branch: None, span: span_merge(kw, tb.span) }),
                            p3,
                            d1 + d2,
                        )
                    }
                },
            }
        }
    }
}

/// Parameters `name: type`, comma separated, up to (not including) `)`.
pub open spec fn p_params(inp: PIn, pos: int, acc: Seq<ParamV>) -> (Option<Seq<ParamV>>, int, Seq<DiagnosticV>)
    decreases inp.toks.len() - pos,
{
    if pos < 0 || pos >= inp.toks.len() || at(inp, pos, TokenKind::RParen) {
        (Some(acc), pos, seq![])
    } else {
        let (name, p1, d1) = p_ident(inp, pos);
        match name {
            None => (None, p1, d1),
            Some(n) => {
                let (colon, p2, d2) = expect(inp, p1, TokenKind::Colon);
                match colon {
                    None => (None, p2, d1 + d2),
                    Some(_) => {
                        let (ty, p3, d3) = p_ident(inp, p2);
                        match ty {
                            None => (None, p3, d1 + d2 + d3),
                            Some(t) => {
                                let param = ParamV { name: n, ty: t, span: span_merge(n.span, t.span) };
                                if at(inp, p3, TokenKind::Comma) {
                                    let p4 = bump(inp, p3);
                                    if p4 <= pos || p4 >= inp.toks.len() {
                                        (None, p4, d1 + d2 + d3)
                                    } else {
                                        let (r, p5, d4) = p_params(inp, p4, acc.push(param));
                                        (r, p5, d1 + d2 + d3 + d4)
                                    }
                                } else {
                                    (Some(acc.push(param)), p3, d1 + d2 + d3)
                                }
                            },
                        }
                    },
                }
            },
        }
    }
}

/// A function `fn NAME(PARAMS) -> TYPE BLOCK` starting at `pos`.
pub open spec fn p_fn(inp: PIn, pos: int) -> (Option<FnDeclV>, int, Seq<DiagnosticV>) {
    let fn_span = peek(inp, pos).span;
    let (name, p2, d1) = p_ident(inp, bump(inp, pos));
    match name {
        None => (None, p2, d1),
        Some(n) => {
            let (lp, p3, d2) = expect(inp, p2, TokenKind::LParen);
            match lp {
                None => (None, p3, d1 + d2),
                Some(_) => {
                    let (params, p4, d3) = p_params(inp, p3, seq![]);
                    match params {
                        None => (None, p4, d1 + d2 + d3),
                        Some(ps) => {
                            let (rp, p5, d4) = expect(inp, p4, TokenKind::RParen);
                            match rp {
                                None => (None, p5, d1 + d2 + d3 + d4),
                                Some(_) => {
                                    let (ar, p6, d5) = expect(inp, p5, TokenKind::Arrow);
                                    match ar {
                                        None => (None, p6, d1 + d2 + d3 + d4 + d5),
                                        Some(_) => {
                                            let (rt, p7, d6) = p_ident(inp, p6);
                                            match rt {
                                                None => (None, p7, d1 + d2 + d3 + d4 + d5 + d6),
                                                Some(t) => {
                                                    let (body, p8, d7) = p_block(inp, p7);
                                                    let ds = d1 + d2 + d3 + d4 + d5 + d6 + d7;
                                                    match body {
                                                        None => (None, p8, ds),
                                                        Some(b) => (
                                                            Some(FnDeclV {
                                                                name: n,
                                                                params: ps,
                                                                return_type: t,
                                                                body: b,
                                                                span: span_merge(fn_span, b.span),
                                                            }),
                                                            p8,
                                                            ds,
                                                        ),
                                                    }
                                                },
                                            }
                                        },
                                    }
                                },
                            }
                        },
                    }
                },
            }
        },
    }
}

/// Skip to the next `fn` keyword or the end of input.
pub open spec fn p_sync(inp: PIn, pos: int) -> int
    decreases inp.toks.len() - pos,
{
    if pos < 0 || pos >= inp.toks.len() || at(inp, pos, TokenKind::Eof) || at(inp, pos, TokenKind::Fn) {
        pos
    } else {
        p_sync(inp, pos + 1)
    }
}

/// The items of a program from `pos` on.
pub open spec fn p_items(inp: PIn, pos: int, acc: Seq<FnDeclV>) -> (Seq<FnDeclV>, int, Seq<DiagnosticV>)
    decreases inp.toks.len() - pos,
{
    if pos < 0 || pos >= inp.toks.len() || at(inp, pos, TokenKind::Eof) {
        (acc, pos, seq![])
    } else if at(inp, pos, TokenKind::Fn) {
        let (f, p1, d1) = p_fn(inp, pos);
        let (acc2, p2) = match f {
            Some(fd) => (acc.push(fd), p1),
            None => (acc, p_sync(inp, p1)),
        };
        if p2 <= pos || p2 >= inp.toks.len() {
            (acc2, p2, d1)
        } else {
            let (r, p3, d2) = p_items(inp, p2, acc2);
            (r, p3, d1 + d2)
        }
    } else {
        let t = peek(inp, pos);
        let d1 = seq![error_with_primary("expected an item"@, t.span, "expected a `fn`, found "@ + description_of(t.kind))];
        let p2 = p_sync(inp, pos);
        if p2 <= pos || p2 >= inp.toks.len() {
            (acc, p2, d1)
        } else {
            let (r, p3, d2) = p_items(inp, p2, acc);
            (r, p3, d1 + d2)
        }
    }
}

/// The program parsed from the whole token sequence, with its diagnostics.
pub open spec fn p_program(inp: PIn) -> (Seq<FnDeclV>, Seq<DiagnosticV>) {
    let (items, _, ds) = p_items(inp, 0, seq![]);
    (items, ds)
}

/// What the parser requires of its input: a non-empty token sequence ending
/// in `Eof`, all in one file, whose identifier and integer tokens cover
/// whole characters of the file.
pub open spec fn parse_input_ok(bytes: Seq<u8>, toks: Seq<Token>) -> bool {
    &&& toks.len() >= 1
    &&& toks.last().kind is Eof
    &&& valid_utf8(bytes)
    &&& forall|i: int| 0 <= i < toks.len() ==> (#[trigger] toks[i]).span.file == toks[0].span.file
    &&& forall|i: int|
        0 <= i < toks.len() && ((#[trigger] toks[i]).kind is Ident || toks[i].kind is Int) ==> {
            &&& toks[i].span.lo.0 <= toks[i].span.hi.0 <= bytes.len()
            &&& is_char_boundary(bytes, toks[i].span.lo.0 as int)
            &&& is_char_boundary(bytes, toks[i].span.hi.0 as int)
        }
}

/// The precedence level of a binary operator, loosest first: `||`, `&&`,
/// `==`/`!=`, the relational operators, `+`/`-`, then `*`/`/`.
pub open spec fn precedence(op: BinOp) -> int {
    match op {
        BinOp::Or => 0,
        BinOp::And => 1,
        BinOp::Eq | BinOp::Ne => 2,
        BinOp::Lt | BinOp::Le | BinOp::Gt | BinOp::Ge => 3,
        BinOp::Add | BinOp::Sub => 4,
        BinOp::Mul | BinOp::Div => 5,
    }
}

/// Whether `e` is the binary expression `op` applied to `lhs` and `rhs`.
pub open spec fn is_binary(e: ExprV, op: BinOp, lhs: ExprV, rhs: ExprV) -> bool {
    e matches ExprV::Binary { op: o, lhs: l, rhs: r, .. } && o == op && *l == lhs && *r == rhs
}

/// Operator precedence: in `a op1 b op2 c` (three integer literals, with
/// no further operator after them), `op2` takes `b` as its left operand
/// exactly when it binds more tightly than `op1`; otherwise the operators
/// group to the left. So `1 + 6 / 2` is `1 + (6 / 2)`, and `8 - 2 - 1` is
/// `(8 - 2) - 1`.
pub proof fn lemma_precedence(inp: PIn, pos: int, op1: BinOp, op2: BinOp)
    requires
        0 <= pos,
        pos + 5 < inp.toks.len(),
        inp.toks[pos].kind is Int,
        inp.toks[pos + 2].kind is Int,
        inp.toks[pos + 4].kind is Int,
        infix_op(inp.toks[pos + 1].kind) == Some(op1),
        infix_op(inp.toks[pos + 3].kind) == Some(op2),
        infix_op(inp.toks[pos + 5].kind) is None,
    ensures
        ({
            let a = p_prefix(inp, pos).0;
            let b = p_prefix(inp, pos + 2).0;
            let c = p_prefix(inp, pos + 4).0;
            let e = p_expr(inp, pos, 0).0;
            &&& p_expr(inp, pos, 0).1 == pos + 5
            &&& precedence(op2) > precedence(op1) ==> exists|r: ExprV|
                is_binary(e, op1, a, r) && #[trigger] is_binary(r, op2, b, c)
            &&& precedence(op2) <= precedence(op1) ==> exists|l: ExprV|
                is_binary(e, op2, l, c) && #[trigger] is_binary(l, op1, a, b)
        }),
{
    let a = p_prefix(inp, pos);
    let b = p_prefix(inp, pos + 2);
    let c = p_prefix(inp, pos + 4);
    assert(a.1 == pos + 1);
    assert(b.1 == pos + 3);
    assert(c.1 == pos + 5);
    let c_inf = p_infix(inp, c.0, pos + 5, right_bp(op2));
    assert(c_inf.0 == c.0 && c_inf.1 == pos + 5);
    let c_expr = p_expr(inp, pos + 4, right_bp(op2));
    assert(c_expr.0 == c.0 && c_expr.1 == pos + 5);
    let b_inf = p_infix(inp, b.0, pos + 3, right_bp(op1));
    let b_expr = p_expr(inp, pos + 2, right_bp(op1));
    if precedence(op2) > precedence(op1) {
        assert(left_bp(op2) >= right_bp(op1));
        let r = ExprV::Binary {
            op: op2,
            lhs: Box::new(b.0),
            rhs: Box::new(c.0),
            span: span_merge(b.0.span(), c.0.span()),
        };
        assert(p_infix(inp, r, pos + 5, right_bp(op1)) == (r, pos + 5, Seq::<DiagnosticV>::empty()));
        assert(b_inf.0 == r && b_inf.1 == pos + 5);
        assert(b_expr.0 == r && b_expr.1 == pos + 5);
        let e = ExprV::Binary {
            op: op1,
            lhs: Box::new(a.0),
            rhs: Box::new(r),
            span: span_merge(a.0.span(), r.span()),
        };
        assert(p_infix(inp, e, pos + 5, 0) == (e, pos + 5, Seq::<DiagnosticV>::empty()));
        assert(p_infix(inp, a.0, pos + 1, 0).0 == e);
        assert(is_binary(r, op2, b.0, c.0));
    } else {
        assert(left_bp(op2) < right_bp(op1));
        assert(b_inf.0 == b.0 && b_inf.1 == pos + 3);
        assert(b_expr.0 == b.0 && b_expr.1 == pos + 3);
        let l = ExprV::Binary {
            op: op1,
            lhs: Box::new(a.0),
            rhs: Box::new(b.0),
            span: span_merge(a.0.span(), b.0.span()),
        };
        let e = ExprV::Binary {
            op: op2,
            lhs: Box::new(l),
            rhs: Box::new(c.0),
            span: span_merge(l.span(), c.0.span()),
        };
        assert(p_infix(inp, e, pos + 5, 0) == (e, pos + 5, Seq::<DiagnosticV>::empty()));
        assert(p_infix(inp, l, pos + 3, 0).0 == e);
        assert(p_infix(inp, a.0, pos + 1, 0).0 == e);
        assert(is_binary(l, op1, a.0, b.0));
    }
}

/// The tokens that lexing a file gives are input the parser accepts.
pub proof fn lemma_lexed_tokens_parse(file: SourceFile)
    requires
        file.well_formed(),
    ensures
        parse_input_ok(file.bytes(), crate::lexer::lex(file.text(), file.spec_id()).0),
{
    let cs = file.text();
    let id = file.spec_id();
    file.lemma_wf();
    crate::lexer::lemma_lex(cs, id);
    encode_utf8_valid_utf8(cs);
    let toks = crate::lexer::lex(cs, id).0;
    assert forall|i: int| 0 <= i < toks.len() implies (#[trigger] toks[i]).span.file
        == toks[0].span.file by {
        assert(crate::lexer::span_in(cs, id, toks[i].span));
        assert(crate::lexer::span_in(cs, id, toks[0].span));
    }
    assert forall|i: int|
        0 <= i < toks.len() && ((#[trigger] toks[i]).kind is Ident || toks[i].kind is Int) implies {
        &&& toks[i].span.lo.0 <= toks[i].span.hi.0 <= file.bytes().len()
        &&& is_char_boundary(file.bytes(), toks[i].span.lo.0 as int)
        &&& is_char_boundary(file.bytes(), toks[i].span.hi.0 as int)
    } by {
        assert(crate::lexer::span_in(cs, id, toks[i].span));
    }
}

// ---------------------------------------------------------------------------
// The parser.

/// The parser input seen by the grammar functions.
pub open spec fn pin(src: &str, toks: &[Token]) -> PIn {
    PIn { toks: toks@, bytes: src.spec_bytes() }
}

/// The file every token belongs to.
pub open spec fn file_of(toks: Seq<Token>) -> FileId {
    toks[0].span.file
}

proof fn lemma_peek(src: &str, toks: &[Token], pos: int)
    requires
        parse_input_ok(src.spec_bytes(), toks@),
        0 <= pos < toks@.len(),
    ensures
        peek(pin(src, toks), pos) == toks@[pos],
        peek(pin(src, toks), pos).span.file == file_of(toks@),
        pos <= bump(pin(src, toks), pos) < toks@.len(),
        !(toks@[pos].kind is Eof) ==> bump(pin(src, toks), pos) == pos + 1,
{
    assert(toks@[toks@.len() - 1].kind is Eof);
}

/// Consume the current token, never advancing past `Eof`.
fn bump_pos(src: &str, toks: &[Token], pos: usize) -> (r: usize)
    requires
        parse_input_ok(src.spec_bytes(), toks@),
        pos < toks@.len(),
    ensures
        r == bump(pin(src, toks), pos as int),
        pos <= r < toks@.len(),
{
    proof { lemma_peek(src, toks, pos as int); }
    match toks[pos].kind {
        TokenKind::Eof => pos,
        _ => pos + 1,
    }
}

/// Record an error with a primary label.
fn report(ds: &mut Vec<Diagnostic>, span: Span, message: &str, label: &str)
    ensures
        diags_view(final(ds)@) == diags_view(old(ds)@).push(error_with_primary(message@, span, label@)),
{
    let d = Diagnostic::error(message).with_primary(span, label);
    assert(d@.labels =~= error_with_primary(message@, span, label@).labels);
    ds.push(d);
    assert(diags_view(ds@) =~= diags_view(old(ds)@).push(d@));
}

/// Report "expected ..., found ..." at the current token.
fn report_found(ds: &mut Vec<Diagnostic>, t: Token, message: &str)
    ensures
        diags_view(final(ds)@) == diags_view(old(ds)@).push(
            error_with_primary(message@, t.span, found(t.kind)),
        ),
{
    let label = concat("found ", t.kind.description());
    report(ds, t.span, message, label.as_str());
}

/// Consume a token of kind `kind`, or report what was found instead.
fn expect_tok(src: &str, toks: &[Token], pos: usize, kind: TokenKind, ds: &mut Vec<Diagnostic>) -> (r: (Option<Span>, usize))
    requires
        parse_input_ok(src.spec_bytes(), toks@),
        pos < toks@.len(),
    ensures
        r.0 == expect(pin(src, toks), pos as int, kind).0,
        r.1 == expect(pin(src, toks), pos as int, kind).1,
        diags_view(final(ds)@) == diags_view(old(ds)@) + expect(pin(src, toks), pos as int, kind).2,
        pos <= r.1 < toks@.len(),
        r.0 matches Some(s) ==> s.file == file_of(toks@),
        r.0 is Some && !(kind is Eof) ==> r.1 == pos + 1,
{
    proof { lemma_peek(src, toks, pos as int); }
    let t = toks[pos];
    if t.kind == kind {
        let p = bump_pos(src, toks, pos);
        assert(diags_view(ds@) + Seq::<DiagnosticV>::empty() =~= diags_view(ds@));
        proof {
            if kind is Eof {
                // An expected `Eof` is never asked for; the position stays put.
            }
        }
        (Some(t.span), p)
    } else {
        let message = concat("expected ", kind.description());
        report_found(ds, t, message.as_str());
        assert(diags_view(ds@) =~= diags_view(old(ds)@) + expect(pin(src, toks), pos as int, kind).2);
        (None, pos)
    }
}

/// The source text covered by an identifier or integer token.
fn lexeme_of<'a>(src: &'a str, toks: &[Token], i: usize) -> (r: &'a str)
    requires
        parse_input_ok(src.spec_bytes(), toks@),
        i < toks@.len(),
        toks@[i as int].kind is Ident || toks@[i as int].kind is Int,
    ensures
        r@ == lexeme(pin(src, toks), toks@[i as int].span),
{
    let span = toks[i].span;
    byte_slice(src, span.lo.0 as usize, span.hi.0 as usize)
}

/// Parse an identifier.
fn parse_ident(src: &str, toks: &[Token], pos: usize, ds: &mut Vec<Diagnostic>) -> (r: (Option<Ident>, usize))
    requires
        parse_input_ok(src.spec_bytes(), toks@),
        pos < toks@.len(),
    ensures
        match r.0 {
            Some(id) => p_ident(pin(src, toks), pos as int).0 == Some(id@) && id.span.file == file_of(toks@),
            None => p_ident(pin(src, toks), pos as int).0 is None,
        },
        r.1 == p_ident(pin(src, toks), pos as int).1,
        diags_view(final(ds)@) == diags_view(old(ds)@) + p_ident(pin(src, toks), pos as int).2,
        pos <= r.1 < toks@.len(),
        r.0 is Some ==> r.1 == pos + 1,
{
    proof { lemma_peek(src, toks, pos as int); }
    let t = toks[pos];
    match t.kind {
        TokenKind::Ident => {
            let name = String::from_str(lexeme_of(src, toks, pos));
            let p = bump_pos(src, toks, pos);
            assert(diags_view(ds@) + Seq::<DiagnosticV>::empty() =~= diags_view(ds@));
            (Some(Ident { name, span: t.span }), p)
        },
        _ => {
            report_found(ds, t, "expected an identifier");
            assert(diags_view(ds@) =~= diags_view(old(ds)@) + p_ident(pin(src, toks), pos as int).2);
            (None, pos)
        },
    }
}

proof fn lemma_digits_value_prefix(s: Seq<char>, i: int)
    requires
        0 <= i <= s.len(),
        all_digits(s),
    ensures
        digits_value(s.take(i)) <= digits_value(s),
    decreases s.len() - i,
{
    if i < s.len() {
        lemma_digits_value_prefix(s, i + 1);
        assert(s.take(i + 1).drop_last() =~= s.take(i));
        assert(all_digits(s.take(i + 1)));
    } else {
        assert(s.take(i) =~= s);
    }
}

/// Read the characters of `s[start..]` as a decimal `u64`, as `str::parse` does.
fn parse_u64_text(text: &str) -> (r: Option<u64>)
    ensures
        r == parse_u64(text@),
{
    let mut cs: Vec<char> = Vec::new();
    for c in it: text.chars()
        invariant
            cs@ == it.seq().take(it.index() as int),
    {
        cs.push(c);
    }
    assert(cs@ == text@);
    let n = cs.len();
    let start: usize = if n > 0 && cs[0] == '+' { 1 } else { 0 };
    let ghost body = if cs@.len() > 0 && cs@[0] == '+' { cs@.drop_first() } else { cs@ };
    assert(body =~= cs@.subrange(start as int, n as int));
    if start >= n {
        return None;
    }
    let mut value: u64 = 0;
    let mut i: usize = start;
    while i < n
        invariant
            start <= i <= n,
            n == cs@.len(),
            cs@ == text@,
            body == (if cs@.len() > 0 && cs@[0] == '+' { cs@.drop_first() } else { cs@ }),
            body == cs@.subrange(start as int, n as int),
            all_digits(body.take(i - start)),
            value == digits_value(body.take(i - start)),
        decreases n - i,
    {
        let c = cs[i];
        let v = c as u32;
        if v < 0x30 || v > 0x39 {
            assert(!all_digits(body)) by {
                assert(body[i - start] == c);
            }
            return None;
        }
        let d = (v - 0x30) as u64;
        assert(body.take(i - start + 1).drop_last() =~= body.take(i - start));
        assert(body.take(i - start + 1).last() == c);
        if value > (u64::MAX - d) / 10 {
            proof {
                assert(digits_value(body.take(i - start + 1)) > u64::MAX);
                if all_digits(body) {
                    lemma_digits_value_prefix(body, i - start + 1);
                }
            }
            return None;
        }
        value = value * 10 + d;
        assert(all_digits(body.take(i - start + 1)));
        i = i + 1;
    }
    assert(body.take(n - start) =~= body);
    Some(value)
}

/// Parse the value of an integer literal token, reporting overflow.
fn parse_int(src: &str, toks: &[Token], i: usize, ds: &mut Vec<Diagnostic>) -> (r: u64)
    requires
        parse_input_ok(src.spec_bytes(), toks@),
        i < toks@.len(),
        toks@[i as int].kind is Int,
    ensures
        r == int_literal(pin(src, toks), toks@[i as int].span).0,
        diags_view(final(ds)@) == diags_view(old(ds)@) + int_literal(pin(src, toks), toks@[i as int].span).1,
{
    let text = lexeme_of(src, toks, i);
    match parse_u64_text(text) {
        Some(v) => {
            assert(diags_view(ds@) + Seq::<DiagnosticV>::empty() =~= diags_view(ds@));
            v
        },
        None => {
            let message = concat3("integer literal `", text, "` is too large");
            report(ds, toks[i].span, message.as_str(), "does not fit in a 64-bit integer");
            assert(diags_view(ds@) =~= diags_view(old(ds)@) + int_literal(pin(src, toks), toks@[i as int].span).1);
            0
        },
    }
}

/// The left and right binding powers of an infix operator.
fn infix_binding_power(op: BinOp) -> (r: (u8, u8))
    ensures
        r.0 == left_bp(op),
        r.1 == right_bp(op),
{
    match op {
        BinOp::Or => (1, 2),
        BinOp::And => (3, 4),
        BinOp::Eq | BinOp::Ne => (5, 6),
        BinOp::Lt | BinOp::Le | BinOp::Gt | BinOp::Ge => (7, 8),
        BinOp::Add | BinOp::Sub => (9, 10),
        BinOp::Mul | BinOp::Div => (11, 12),
    }
}

/// The binary operator a token stands for, if any.
fn token_infix_op(k: TokenKind) -> (r: Option<BinOp>)
    ensures
        r == infix_op(k),
{
    match k {
        TokenKind::PipePipe => Some(BinOp::Or),
        TokenKind::AmpAmp => Some(BinOp::And),
        TokenKind::EqEq => Some(BinOp::Eq),
        TokenKind::BangEq => Some(BinOp::Ne),
        TokenKind::Lt => Some(BinOp::Lt),
        TokenKind::LtEq => Some(BinOp::Le),
        TokenKind::Gt => Some(BinOp::Gt),
        TokenKind::GtEq => Some(BinOp::Ge),
        TokenKind::Plus => Some(BinOp::Add),
        TokenKind::Minus => Some(BinOp::Sub),
        TokenKind::Star => Some(BinOp::Mul),
        TokenKind::Slash => Some(BinOp::Div),
        _ => None,
    }
}

/// Parse an expression whose operators bind at least as tightly as `min_bp`.
fn parse_expr(src: &str, toks: &[Token], pos: usize, min_bp: u8, ds: &mut Vec<Diagnostic>) -> (r: (Expr, usize))
    requires
        parse_input_ok(src.spec_bytes(), toks@),
        pos < toks@.len(),
    ensures
        r.0@ == p_expr(pin(src, toks), pos as int, min_bp).0,
        r.1 == p_expr(pin(src, toks), pos as int, min_bp).1,
        diags_view(final(ds)@) == diags_view(old(ds)@) + p_expr(pin(src, toks), pos as int, min_bp).2,
        pos <= r.1 < toks@.len(),
        r.0@.span().file == file_of(toks@),
    decreases toks@.len() - pos, 2int,
{
    let ghost d0 = diags_view(ds@);
    let (lhs, p1) = parse_prefix(src, toks, pos, ds);
    let ghost d1 = diags_view(ds@);
    let (e, p2) = parse_infix(src, toks, lhs, p1, min_bp, ds);
    proof {
        let (_, _, s1) = p_prefix(pin(src, toks), pos as int);
        let (_, _, s2) = p_infix(pin(src, toks), lhs@, p1 as int, min_bp);
        assert(diags_view(ds@) =~= d0 + (s1 + s2));
    }
    (e, p2)
}

/// Extend `lhs` with the infix operators that bind at least as tightly as `min_bp`.
fn parse_infix(src: &str, toks: &[Token], lhs: Expr, pos: usize, min_bp: u8, ds: &mut Vec<Diagnostic>) -> (r: (Expr, usize))
    requires
        parse_input_ok(src.spec_bytes(), toks@),
        pos < toks@.len(),
        lhs@.span().file == file_of(toks@),
    ensures
        r.0@ == p_infix(pin(src, toks), lhs@, pos as int, min_bp).0,
        r.1 == p_infix(pin(src, toks), lhs@, pos as int, min_bp).1,
        diags_view(final(ds)@) == diags_view(old(ds)@) + p_infix(pin(src, toks), lhs@, pos as int, min_bp).2,
        pos <= r.1 < toks@.len(),
        r.0@.span().file == file_of(toks@),
    decreases toks@.len() - pos, 1int,
{
    proof { lemma_peek(src, toks, pos as int); }
    let t = toks[pos];
    match token_infix_op(t.kind) {
        None => {
            assert(diags_view(ds@) + Seq::<DiagnosticV>::empty() =~= diags_view(ds@));
            (lhs, pos)
        },
        Some(op) => {
            let (l, r) = infix_binding_power(op);
            if l < min_bp {
                assert(diags_view(ds@) + Seq::<DiagnosticV>::empty() =~= diags_view(ds@));
                (lhs, pos)
            } else {
                let ghost d0 = diags_view(ds@);
                let p1 = bump_pos(src, toks, pos);
                let (rhs, p2) = parse_expr(src, toks, p1, r, ds);
                let span = lhs.span().to(rhs.span());
                let e = Expr::Binary { op, lhs: Box::new(lhs), rhs: Box::new(rhs), span };
                let ghost d1 = diags_view(ds@);
                let (res, p3) = parse_infix(src, toks, e, p2, min_bp, ds);
                proof {
                    let (_, _, s1) = p_expr(pin(src, toks), p1 as int, r);
                    let (_, _, s2) = p_infix(pin(src, toks), e@, p2 as int, min_bp);
                    assert(diags_view(ds@) =~= d0 + (s1 + s2));
                }
                (res, p3)
            }
        },
    }
}

/// Parse a prefix expression: literal, name, call, parenthesised or unary.
fn parse_prefix(src: &str, toks: &[Token], pos: usize, ds: &mut Vec<Diagnostic>) -> (r: (Expr, usize))
    requires
        parse_input_ok(src.spec_bytes(), toks@),
        pos < toks@.len(),
    ensures
        r.0@ == p_prefix(pin(src, toks), pos as int).0,
        r.1 == p_prefix(pin(src, toks), pos as int).1,
        diags_view(final(ds)@) == diags_view(old(ds)@) + p_prefix(pin(src, toks), pos as int).2,
        pos <= r.1 < toks@.len(),
        r.0@.span().file == file_of(toks@),
    decreases toks@.len() - pos, 1int,
{
    proof { lemma_peek(src, toks, pos as int); }
    let t = toks[pos];
    let ghost d0 = diags_view(ds@);
    match t.kind {
        TokenKind::Int => {
            let value = parse_int(src, toks, pos, ds);
            let p = bump_pos(src, toks, pos);
            (Expr::IntLit { value, span: t.span }, p)
        },
        TokenKind::True => {
            assert(diags_view(ds@) + Seq::<DiagnosticV>::empty() =~= diags_view(ds@));
            (Expr::BoolLit { value: true, span: t.span }, pos + 1)
        },
        TokenKind::False => {
            assert(diags_view(ds@) + Seq::<DiagnosticV>::empty() =~= diags_view(ds@));
            (Expr::BoolLit { value: false, span: t.span }, pos + 1)
        },
        TokenKind::Minus | TokenKind::Bang => {
            let op = match t.kind {
                TokenKind::Minus => UnOp::Neg,
                _ => UnOp::Not,
            };
            let (operand, p2) = parse_expr(src, toks, pos + 1, 13, ds);
            let span = t.span.to(operand.span());
            (Expr::Unary { op, operand: Box::new(operand), span }, p2)
        },
        TokenKind::LParen => {
            let (inner, p2) = parse_expr(src, toks, pos + 1, 0, ds);
            let ghost d1 = diags_view(ds@);
            let (_, p3) = expect_tok(src, toks, p2, TokenKind::RParen, ds);
            proof {
                let (_, _, s1) = p_expr(pin(src, toks), pos + 1, 0);
                let (_, _, s2) = expect(pin(src, toks), p2 as int, TokenKind::RParen);
                assert(diags_view(ds@) =~= d0 + (s1 + s2));
            }
            (inner, p3)
        },
        TokenKind::Ident => {
            let name = String::from_str(lexeme_of(src, toks, pos));
            proof { lemma_peek(src, toks, pos + 1); }
            if toks[pos + 1].kind == TokenKind::LParen {
                proof { lemma_peek(src, toks, pos + 2); }
                let args: Vec<Expr> = Vec::new();
                assert(exprs_view(args@) =~= Seq::<ExprV>::empty());
                let (args, p3) = parse_args(src, toks, pos + 2, args, ds);
                let ghost d1 = diags_view(ds@);
                let (close, p4) = expect_tok(src, toks, p3, TokenKind::RParen, ds);
                let close_span = match close {
                    Some(s) => s,
                    None => toks[p4].span,
                };
                let span = t.span.to(close_span);
                proof {
                    let (_, _, s1) = p_args(pin(src, toks), pos + 2, Seq::empty());
                    let (_, _, s2) = expect(pin(src, toks), p3 as int, TokenKind::RParen);
                    assert(diags_view(ds@) =~= d0 + (s1 + s2));
                    lemma_peek(src, toks, p4 as int);
                }
                (Expr::Call { callee: name, args, span }, p4)
            } else {
                assert(diags_view(ds@) + Seq::<DiagnosticV>::empty() =~= diags_view(ds@));
                (Expr::Name { name, span: t.span }, pos + 1)
            }
        },
        _ => {
            report_found(ds, t, "expected an expression");
            assert(diags_view(ds@) =~= d0 + p_prefix(pin(src, toks), pos as int).2);
            (Expr::Error { span: t.span }, pos)
        },
    }
}

/// Parse comma-separated call arguments up to (not including) `)`.
fn parse_args(src: &str, toks: &[Token], pos: usize, acc: Vec<Expr>, ds: &mut Vec<Diagnostic>) -> (r: (Vec<Expr>, usize))
    requires
        parse_input_ok(src.spec_bytes(), toks@),
        pos < toks@.len(),
    ensures
        exprs_view(r.0@) == p_args(pin(src, toks), pos as int, exprs_view(acc@)).0,
        r.1 == p_args(pin(src, toks), pos as int, exprs_view(acc@)).1,
        diags_view(final(ds)@) == diags_view(old(ds)@) + p_args(pin(src, toks), pos as int, exprs_view(acc@)).2,
        pos <= r.1 < toks@.len(),
    decreases toks@.len() - pos, 3int,
{
    proof { lemma_peek(src, toks, pos as int); }
    let mut acc = acc;
    let ghost acc0 = exprs_view(acc@);
    if toks[pos].kind == TokenKind::RParen {
        assert(diags_view(ds@) + Seq::<DiagnosticV>::empty() =~= diags_view(ds@));
        return (acc, pos);
    }
    let ghost d0 = diags_view(ds@);
    let (a, p1) = parse_expr(src, toks, pos, 0, ds);
    proof { lemma_peek(src, toks, p1 as int); }
    let ghost acc_before = acc@;
    acc.push(a);
    assert(acc@.drop_last() =~= acc_before);
    assert(exprs_view(acc@) == acc0.push(a@));
    if toks[p1].kind == TokenKind::Comma {
        let p2 = bump_pos(src, toks, p1);
        let (res, p3) = parse_args(src, toks, p2, acc, ds);
        proof {
            let (_, _, s1) = p_expr(pin(src, toks), pos as int, 0);
            let (_, _, s2) = p_args(pin(src, toks), p2 as int, acc0.push(a@));
            assert(diags_view(ds@) =~= d0 + (s1 + s2));
        }
        (res, p3)
    } else {
        (acc, p1)
    }
}

/// The view of an optional statement.
pub open spec fn opt_stmt(o: Option<Stmt>) -> Option<StmtV> {
    match o {
        Some(s) => Some(s@),
        None => None,
    }
}

/// The view of an optional block.
pub open spec fn opt_block(o: Option<Block>) -> Option<BlockV> {
    match o {
        Some(b) => Some(b@),
        None => None,
    }
}

/// The view of an optional `if` statement.
pub open spec fn opt_if(o: Option<IfStmt>) -> Option<IfStmtV> {
    match o {
        Some(i) => Some(i@),
        None => None,
    }
}

/// Parse `let NAME = EXPR;` (the current token is `let`).
fn parse_let_stmt(src: &str, toks: &[Token], pos: usize, ds: &mut Vec<Diagnostic>) -> (r: (Option<Stmt>, usize))
    requires
        parse_input_ok(src.spec_bytes(), toks@),
        pos < toks@.len(),
        toks@[pos as int].kind is Let,
    ensures
        opt_stmt(r.0) == p_let(pin(src, toks), pos as int).0,
        r.1 == p_let(pin(src, toks), pos as int).1,
        diags_view(final(ds)@) == diags_view(old(ds)@) + p_let(pin(src, toks), pos as int).2,
        pos < r.1 < toks@.len(),
        r.0 matches Some(st) ==> st@.span().file == file_of(toks@),
{
    proof { lemma_peek(src, toks, pos as int); }
    let ghost inp = pin(src, toks);
    let ghost d0 = diags_view(ds@);
    let kw = toks[pos].span;
    let (name, p2) = parse_ident(src, toks, pos + 1, ds);
    let name = match name {
        None => {
            return (None, p2);
        },
        Some(n) => n,
    };
    let ghost s1 = p_ident(inp, pos + 1).2;
    let (eq, p3) = expect_tok(src, toks, p2, TokenKind::Eq, ds);
    let ghost s2 = expect(inp, p2 as int, TokenKind::Eq).2;
    if eq.is_none() {
        assert(diags_view(ds@) =~= d0 + (s1 + s2));
        return (None, p3);
    }
    let (init, p4) = parse_expr(src, toks, p3, 0, ds);
    let ghost s3 = p_expr(inp, p3 as int, 0).2;
    let (semi, p5) = expect_tok(src, toks, p4, TokenKind::Semicolon, ds);
    let ghost s4 = expect(inp, p4 as int, TokenKind::Semicolon).2;
    let end = match semi {
        Some(s) => s,
        None => init.span(),
    };
    let span = kw.to(end);
    assert(diags_view(ds@) =~= d0 + (s1 + s2 + s3 + s4));
    (Some(Stmt::Let(LetStmt { name, init, span })), p5)
}

/// Parse `return EXPR;` (the current token is `return`).
fn parse_return_stmt(src: &str, toks: &[Token], pos: usize, ds: &mut Vec<Diagnostic>) -> (r: (Option<Stmt>, usize))
    requires
        parse_input_ok(src.spec_bytes(), toks@),
        pos < toks@.len(),
        toks@[pos as int].kind is Return,
    ensures
        opt_stmt(r.0) == p_return(pin(src, toks), pos as int).0,
        r.1 == p_return(pin(src, toks), pos as int).1,
        diags_view(final(ds)@) == diags_view(old(ds)@) + p_return(pin(src, toks), pos as int).2,
        pos < r.1 < toks@.len(),
        r.0 matches Some(st) ==> st@.span().file == file_of(toks@),
{
    proof { lemma_peek(src, toks, pos as int); }
    let ghost inp = pin(src, toks);
    let ghost d0 = diags_view(ds@);
    let kw = toks[pos].span;
    let (expr, p2) = parse_expr(src, toks, pos + 1, 0, ds);
    let ghost s1 = p_expr(inp, pos + 1, 0).2;
    let (semi, p3) = expect_tok(src, toks, p2, TokenKind::Semicolon, ds);
    let ghost s2 = expect(inp, p2 as int, TokenKind::Semicolon).2;
    let end = match semi {
        Some(s) => s,
        None => expr.span(),
    };
    let span = kw.to(end);
    assert(diags_view(ds@) =~= d0 + (s1 + s2));
    (Some(Stmt::Return(ReturnStmt { expr, span })), p3)
}

/// Parse a statement.
fn parse_stmt(src: &str, toks: &[Token], pos: usize, ds: &mut Vec<Diagnostic>) -> (r: (Option<Stmt>, usize))
    requires
        parse_input_ok(src.spec_bytes(), toks@),
        pos < toks@.len(),
    ensures
        opt_stmt(r.0) == p_stmt(pin(src, toks), pos as int).0,
        r.1 == p_stmt(pin(src, toks), pos as int).1,
        diags_view(final(ds)@) == diags_view(old(ds)@) + p_stmt(pin(src, toks), pos as int).2,
        pos <= r.1 < toks@.len(),
        r.0 matches Some(st) ==> st@.span().file == file_of(toks@),
    decreases toks@.len() - pos, 1int,
{
    proof { lemma_peek(src, toks, pos as int); }
    let t = toks[pos];
    match t.kind {
        TokenKind::Let => parse_let_stmt(src, toks, pos, ds),
        TokenKind::Return => parse_return_stmt(src, toks, pos, ds),
        TokenKind::If => {
            let (i, p) = parse_if(src, toks, pos, ds);
            match i {
                Some(s) => (Some(Stmt::If(s)), p),
                None => (None, p),
            }
        },
        _ => {
            let ghost d0 = diags_view(ds@);
            report_found(ds, t, "expected a statement");
            assert(diags_view(ds@) =~= d0 + p_stmt(pin(src, toks), pos as int).2);
            (None, pos)
        },
    }
}

/// Parse a brace-delimited block.
fn parse_block(src: &str, toks: &[Token], pos: usize, ds: &mut Vec<Diagnostic>) -> (r: (Option<Block>, usize))
    requires
        parse_input_ok(src.spec_bytes(), toks@),
        pos < toks@.len(),
    ensures
        opt_block(r.0) == p_block(pin(src, toks), pos as int).0,
        r.1 == p_block(pin(src, toks), pos as int).1,
        diags_view(final(ds)@) == diags_view(old(ds)@) + p_block(pin(src, toks), pos as int).2,
        pos <= r.1 < toks@.len(),
        r.0 is Some ==> pos < r.1,
        r.0 matches Some(b) ==> b.span.file == file_of(toks@),
    decreases toks@.len() - pos, 0int,
{
    let ghost inp = pin(src, toks);
    let ghost d0 = diags_view(ds@);
    let (open, p1) = expect_tok(src, toks, pos, TokenKind::LBrace, ds);
    let open = match open {
        None => {
            return (None, p1);
        },
        Some(o) => o,
    };
    let ghost s1 = expect(inp, pos as int, TokenKind::LBrace).2;
    let ghost whole = p_stmts(inp, p1 as int, Seq::empty());
    let ghost dstart = diags_view(ds@);
    let mut stmts: Vec<Stmt> = Vec::new();
    let mut cur = p1;
    assert(stmts_view(stmts@) =~= Seq::<StmtV>::empty());
    assert(whole.2 =~= (diags_view(ds@).subrange(dstart.len() as int, diags_view(ds@).len() as int) + p_stmts(inp, cur as int, stmts_view(stmts@)).2));
    while toks[cur].kind != TokenKind::RBrace && toks[cur].kind != TokenKind::Eof
        invariant
            parse_input_ok(src.spec_bytes(), toks@),
            inp == pin(src, toks),
            pos < cur < toks@.len(),
            p1 <= cur,
            dstart.len() <= diags_view(ds@).len(),
            diags_view(ds@).subrange(0, dstart.len() as int) == dstart,
            p_stmts(inp, cur as int, stmts_view(stmts@)).0 == whole.0,
            p_stmts(inp, cur as int, stmts_view(stmts@)).1 == whole.1,
            whole.2 == diags_view(ds@).subrange(dstart.len() as int, diags_view(ds@).len() as int)
                + p_stmts(inp, cur as int, stmts_view(stmts@)).2,
            forall|i: int| 0 <= i < stmts@.len() ==> (#[trigger] stmts@[i])@.span().file == file_of(toks@),
        decreases toks@.len() - cur,
    {
        proof { lemma_peek(src, toks, cur as int); }
        let ghost before = diags_view(ds@);
        let ghost sv = stmts_view(stmts@);
        let (s, q1) = parse_stmt(src, toks, cur, ds);
        let ghost ss = p_stmt(inp, cur as int).2;
        let ghost stmts_before = stmts@;
        match s {
            Some(st) => {
                stmts.push(st);
                assert(stmts@.drop_last() =~= stmts_before);
            },
            None => {},
        }
        let q2 = if q1 == cur { bump_pos(src, toks, q1) } else { q1 };
        proof {
            assert(stmts_view(stmts@) == (match p_stmt(inp, cur as int).0 {
                Some(x) => sv.push(x),
                None => sv,
            }));
            let rest = p_stmts(inp, q2 as int, stmts_view(stmts@));
            assert(p_stmts(inp, cur as int, sv) == (rest.0, rest.1, ss + rest.2));
            assert(diags_view(ds@) =~= before + ss);
            assert(diags_view(ds@).subrange(0, dstart.len() as int) =~= dstart);
            assert(diags_view(ds@).subrange(dstart.len() as int, diags_view(ds@).len() as int)
                =~= before.subrange(dstart.len() as int, before.len() as int) + ss);
        }
        cur = q2;
    }
    proof {
        assert(p_stmts(inp, cur as int, stmts_view(stmts@)).2 =~= Seq::<DiagnosticV>::empty());
    }
    let ghost s2 = whole.2;
    let p2 = cur;
    let (close, p3) = expect_tok(src, toks, p2, TokenKind::RBrace, ds);
    let ghost s3 = expect(inp, p2 as int, TokenKind::RBrace).2;
    let close_span = match close {
        Some(c) => c,
        None => toks[p3].span,
    };
    proof {
        lemma_peek(src, toks, p3 as int);
        assert(diags_view(ds@) =~= d0 + (s1 + s2 + s3));
    }
    let span = open.to(close_span);
    (Some(Block { stmts, span }), p3)
}

/// Parse `if COND BLOCK [else (BLOCK | if …)]` (the current token is `if`).
fn parse_if(src: &str, toks: &[Token], pos: usize, ds: &mut Vec<Diagnostic>) -> (r: (Option<IfStmt>, usize))
    requires
        parse_input_ok(src.spec_bytes(), toks@),
        pos < toks@.len(),
        toks@[pos as int].kind is If,
    ensures
        opt_if(r.0) == p_if(pin(src, toks), pos as int).0,
        r.1 == p_if(pin(src, toks), pos as int).1,
        diags_view(final(ds)@) == diags_view(old(ds)@) + p_if(pin(src, toks), pos as int).2,
        pos < r.1 < toks@.len(),
        r.0 matches Some(i) ==> i.span.file == file_of(toks@),
    decreases toks@.len() - pos, 0int,
{
    proof { lemma_peek(src, toks, pos as int); }
    let ghost inp = pin(src, toks);
    let ghost d0 = diags_view(ds@);
    let kw = toks[pos].span;
    let (cond, p2) = parse_expr(src, toks, pos + 1, 0, ds);
    let ghost s1 = p_expr(inp, pos + 1, 0).2;
    let (then_block, p3) = parse_block(src, toks, p2, ds);
    let ghost s2 = p_block(inp, p2 as int).2;
    let then_block = match then_block {
        None => {
            assert(diags_view(ds@) =~= d0 + (s1 + s2));
            return (None, p3);
        },
        Some(b) => b,
    };
    proof { lemma_peek(src, toks, p3 as int); }
    if toks[p3].kind == TokenKind::Else {
        let p4 = bump_pos(src, toks, p3);
        proof { lemma_peek(src, toks, p4 as int); }
        if toks[p4].kind == TokenKind::If {
            let (nested, p5) = parse_if(src, toks, p4, ds);
            let ghost s3 = p_if(inp, p4 as int).2;
            assert(diags_view(ds@) =~= d0 + (s1 + s2 + s3));
            match nested {
                None => (None, p5),
                Some(n) => {
                    let span = kw.to(n.span);
                    (Some(IfStmt { cond, then_block, else_branch: Some(ElseBranch::If(Box::new(n))), span }), p5)
                },
            }
        } else {
            let (eb, p5) = parse_block(src, toks, p4, ds);
            let ghost s3 = p_block(inp, p4 as int).2;
            assert(diags_view(ds@) =~= d0 + (s1 + s2 + s3));
            match eb {
                None => (None, p5),
                Some(b) => {
                    let span = kw.to(b.span);
                    (Some(IfStmt { cond, then_block, else_branch: Some(ElseBranch::Block(b)), span }), p5)
                },
            }
        }
    } else {
        assert(diags_view(ds@) =~= d0 + (s1 + s2));
        let span = kw.to(then_block.span);
        (Some(IfStmt { cond, then_block, else_branch: None, span }), p3)
    }
}

/// Parse parameters `name: type`, comma separated, up to (not including) `)`.
fn parse_params(src: &str, toks: &[Token], pos: usize, ds: &mut Vec<Diagnostic>) -> (r: (Option<Vec<Param>>, usize))
    requires
        parse_input_ok(src.spec_bytes(), toks@),
        pos < toks@.len(),
    ensures
        match r.0 {
            Some(ps) => p_params(pin(src, toks), pos as int, Seq::empty()).0 == Some(params_view(ps@)),
            None => p_params(pin(src, toks), pos as int, Seq::empty()).0 is None,
        },
        r.1 == p_params(pin(src, toks), pos as int, Seq::empty()).1,
        diags_view(final(ds)@) == diags_view(old(ds)@) + p_params(pin(src, toks), pos as int, Seq::empty()).2,
        pos <= r.1 < toks@.len(),
{
    let ghost inp = pin(src, toks);
    let ghost whole = p_params(inp, pos as int, Seq::empty());
    let ghost dstart = diags_view(ds@);
    let mut params: Vec<Param> = Vec::new();
    let mut cur = pos;
    assert(params_view(params@) =~= Seq::<ParamV>::empty());
    assert(diags_view(ds@).subrange(dstart.len() as int, diags_view(ds@).len() as int) =~= Seq::<DiagnosticV>::empty());
    assert(whole.2 =~= Seq::<DiagnosticV>::empty() + p_params(inp, cur as int, params_view(params@)).2);
    loop
        invariant
            parse_input_ok(src.spec_bytes(), toks@),
            inp == pin(src, toks),
            whole == p_params(inp, pos as int, Seq::empty()),
            dstart == diags_view(old(ds)@),
            pos <= cur < toks@.len(),
            dstart.len() <= diags_view(ds@).len(),
            diags_view(ds@).subrange(0, dstart.len() as int) == dstart,
            p_params(inp, cur as int, params_view(params@)).0 == whole.0,
            p_params(inp, cur as int, params_view(params@)).1 == whole.1,
            whole.2 == diags_view(ds@).subrange(dstart.len() as int, diags_view(ds@).len() as int)
                + p_params(inp, cur as int, params_view(params@)).2,
        decreases toks@.len() - cur,
    {
        proof { lemma_peek(src, toks, cur as int); }
        let ghost before = diags_view(ds@);
        let ghost pv = params_view(params@);
        if toks[cur].kind == TokenKind::RParen {
            proof {
                assert(p_params(inp, cur as int, pv) == (Some(pv), cur as int, Seq::<DiagnosticV>::empty()));
                assert(diags_view(ds@) =~= dstart + whole.2);
            }
            return (Some(params), cur);
        }
        let (name, p1) = parse_ident(src, toks, cur, ds);
        let ghost s1 = p_ident(inp, cur as int).2;
        let name = match name {
            None => {
                proof {
                    assert(p_params(inp, cur as int, pv) == (None::<Seq<ParamV>>, p1 as int, s1));
                    assert(diags_view(ds@) =~= dstart + whole.2);
                }
                return (None, p1);
            },
            Some(n) => n,
        };
        let (colon, p2) = expect_tok(src, toks, p1, TokenKind::Colon, ds);
        let ghost s2 = expect(inp, p1 as int, TokenKind::Colon).2;
        if colon.is_none() {
            proof {
                assert(p_params(inp, cur as int, pv) == (None::<Seq<ParamV>>, p2 as int, s1 + s2));
                assert(diags_view(ds@) =~= dstart + whole.2);
            }
            return (None, p2);
        }
        let (ty, p3) = parse_ident(src, toks, p2, ds);
        let ghost s3 = p_ident(inp, p2 as int).2;
        let ty = match ty {
            None => {
                proof {
                    assert(p_params(inp, cur as int, pv) == (None::<Seq<ParamV>>, p3 as int, s1 + s2 + s3));
                    assert(diags_view(ds@) =~= dstart + whole.2);
                }
                return (None, p3);
            },
            Some(t) => t,
        };
        let span = name.span.to(ty.span);
        let param = Param { name, ty: Type { name: ty }, span };
        let ghost params_before = params@;
        params.push(param);
        proof {
            assert(params_view(params@) =~= pv.push(param@));
            lemma_peek(src, toks, p3 as int);
        }
        if toks[p3].kind == TokenKind::Comma {
            let p4 = bump_pos(src, toks, p3);
            proof {
                let rest = p_params(inp, p4 as int, params_view(params@));
                assert(p_params(inp, cur as int, pv) == (rest.0, rest.1, s1 + s2 + s3 + rest.2));
                assert(diags_view(ds@) =~= before + (s1 + s2 + s3));
                assert(diags_view(ds@).subrange(0, dstart.len() as int) =~= dstart);
                assert(diags_view(ds@).subrange(dstart.len() as int, diags_view(ds@).len() as int)
                    =~= before.subrange(dstart.len() as int, before.len() as int) + (s1 + s2 + s3));
            }
            cur = p4;
        } else {
            proof {
                assert(p_params(inp, cur as int, pv) == (Some(params_view(params@)), p3 as int, s1 + s2 + s3));
                assert(diags_view(ds@) =~= dstart + whole.2);
            }
            return (Some(params), p3);
        }
    }
}

/// Parse a function `fn NAME(PARAMS) -> TYPE BLOCK` (the current token is `fn`).
fn parse_fn(src: &str, toks: &[Token], pos: usize, ds: &mut Vec<Diagnostic>) -> (r: (Option<FnDecl>, usize))
    requires
        parse_input_ok(src.spec_bytes(), toks@),
        pos < toks@.len(),
        toks@[pos as int].kind is Fn,
    ensures
        match r.0 {
            Some(f) => p_fn(pin(src, toks), pos as int).0 == Some(f@),
            None => p_fn(pin(src, toks), pos as int).0 is None,
        },
        r.1 == p_fn(pin(src, toks), pos as int).1,
        diags_view(final(ds)@) == diags_view(old(ds)@) + p_fn(pin(src, toks), pos as int).2,
        pos < r.1 < toks@.len(),
{
    proof { lemma_peek(src, toks, pos as int); }
    let ghost inp = pin(src, toks);
    let ghost d0 = diags_view(ds@);
    let fn_span = toks[pos].span;
    let (name, p2) = parse_ident(src, toks, pos + 1, ds);
    let ghost s1 = p_ident(inp, pos + 1).2;
    let name = match name {
        None => {
            return (None, p2);
        },
        Some(n) => n,
    };
    let (lp, p3) = expect_tok(src, toks, p2, TokenKind::LParen, ds);
    let ghost s2 = expect(inp, p2 as int, TokenKind::LParen).2;
    if lp.is_none() {
        assert(diags_view(ds@) =~= d0 + (s1 + s2));
        return (None, p3);
    }
    let (params, p4) = parse_params(src, toks, p3, ds);
    let ghost s3 = p_params(inp, p3 as int, Seq::empty()).2;
    let params = match params {
        None => {
            assert(diags_view(ds@) =~= d0 + (s1 + s2 + s3));
            return (None, p4);
        },
        Some(ps) => ps,
    };
    let (rp, p5) = expect_tok(src, toks, p4, TokenKind::RParen, ds);
    let ghost s4 = expect(inp, p4 as int, TokenKind::RParen).2;
    if rp.is_none() {
        assert(diags_view(ds@) =~= d0 + (s1 + s2 + s3 + s4));
        return (None, p5);
    }
    let (arrow, p6) = expect_tok(src, toks, p5, TokenKind::Arrow, ds);
    let ghost s5 = expect(inp, p5 as int, TokenKind::Arrow).2;
    if arrow.is_none() {
        assert(diags_view(ds@) =~= d0 + (s1 + s2 + s3 + s4 + s5));
        return (None, p6);
    }
    let (ret, p7) = parse_ident(src, toks, p6, ds);
    let ghost s6 = p_ident(inp, p6 as int).2;
    let ret = match ret {
        None => {
            assert(diags_view(ds@) =~= d0 + (s1 + s2 + s3 + s4 + s5 + s6));
            return (None, p7);
        },
        Some(t) => t,
    };
    let (body, p8) = parse_block(src, toks, p7, ds);
    let ghost s7 = p_block(inp, p7 as int).2;
    assert(diags_view(ds@) =~= d0 + (s1 + s2 + s3 + s4 + s5 + s6 + s7));
    match body {
        None => (None, p8),
        Some(b) => {
            let span = fn_span.to(b.span);
            (Some(FnDecl { name, params, return_type: Type { name: ret }, body: b, span }), p8)
        },
    }
}

/// Skip tokens up to the next `fn` keyword or the end of input.
fn synchronize_to_item(src: &str, toks: &[Token], pos: usize) -> (r: usize)
    requires
        parse_input_ok(src.spec_bytes(), toks@),
        pos < toks@.len(),
    ensures
        r == p_sync(pin(src, toks), pos as int),
        pos <= r < toks@.len(),
        !(toks@[pos as int].kind is Eof) && !(toks@[pos as int].kind is Fn) ==> pos < r,
{
    let ghost inp = pin(src, toks);
    let mut cur = pos;
    while toks[cur].kind != TokenKind::Eof && toks[cur].kind != TokenKind::Fn
        invariant
            parse_input_ok(src.spec_bytes(), toks@),
            inp == pin(src, toks),
            pos <= cur < toks@.len(),
            p_sync(inp, cur as int) == p_sync(inp, pos as int),
        decreases toks@.len() - cur,
    {
        proof { lemma_peek(src, toks, cur as int); }
        cur = cur + 1;
    }
    proof { lemma_peek(src, toks, cur as int); }
    cur
}

/// The result of parsing: the (possibly partial) program and any diagnostics.
#[derive(Debug)]
pub struct ParseResult {
    /// The parsed program; on errors a best-effort partial tree.
    pub program: Program,
    /// Diagnostics emitted during parsing.
    pub diagnostics: Vec<Diagnostic>,
}

/// Parse `tokens` (produced by lexing `file`) into a [`ParseResult`].
#[verifier::rlimit(40)]
pub fn parse(file: &SourceFile, tokens: &[Token]) -> (r: ParseResult)
    requires
        parse_input_ok(file.bytes(), tokens@),
    ensures
        r.program@ == p_program(PIn { toks: tokens@, bytes: file.bytes() }).0,
        diags_view(r.diagnostics@) == p_program(PIn { toks: tokens@, bytes: file.bytes() }).1,
{
    let src = file.source();
    let toks = tokens;
    let ghost inp = pin(src, toks);
    let ghost whole = p_items(inp, 0, Seq::empty());
    let mut ds: Vec<Diagnostic> = Vec::new();
    let mut items: Vec<Item> = Vec::new();
    let mut cur: usize = 0;
    assert(items_view(items@) =~= Seq::<FnDeclV>::empty());
    assert(diags_view(ds@) =~= Seq::<DiagnosticV>::empty());
    assert(whole.2 =~= diags_view(ds@) + p_items(inp, cur as int, items_view(items@)).2);
    while toks[cur].kind != TokenKind::Eof
        invariant
            parse_input_ok(src.spec_bytes(), toks@),
            inp == pin(src, toks),
            cur < toks@.len(),
            p_items(inp, cur as int, items_view(items@)).0 == whole.0,
            whole.2 == diags_view(ds@) + p_items(inp, cur as int, items_view(items@)).2,
        decreases toks@.len() - cur,
    {
        proof { lemma_peek(src, toks, cur as int); }
        let ghost before = diags_view(ds@);
        let ghost iv = items_view(items@);
        let t = toks[cur];
        if t.kind == TokenKind::Fn {
            let (f, p1) = parse_fn(src, toks, cur, &mut ds);
            let ghost s1 = p_fn(inp, cur as int).2;
            let p2 = match f {
                Some(fd) => {
                    items.push(Item::Fn(fd));
                    assert(items_view(items@) =~= iv.push(fd@));
                    p1
                },
                None => synchronize_to_item(src, toks, p1),
            };
            proof {
                let rest = p_items(inp, p2 as int, items_view(items@));
                assert(p_items(inp, cur as int, iv) == (rest.0, rest.1, s1 + rest.2));
                assert(whole.2 =~= diags_view(ds@) + rest.2);
            }
            cur = p2;
        } else {
            let message = concat("expected a `fn`, found ", t.kind.description());
            report(&mut ds, t.span, "expected an item", message.as_str());
            let p2 = synchronize_to_item(src, toks, cur);
            proof {
                let rest = p_items(inp, p2 as int, iv);
                let d1 = seq![error_with_primary("expected an item"@, t.span, "expected a `fn`, found "@ + description_of(t.kind))];
                assert(p_items(inp, cur as int, iv) == (rest.0, rest.1, d1 + rest.2));
                assert(whole.2 =~= diags_view(ds@) + rest.2);
            }
            cur = p2;
        }
    }
    proof {
        lemma_peek(src, toks, cur as int);
        assert(whole.2 =~= diags_view(ds@));
    }
    ParseResult { program: Program { items }, diagnostics: ds }
}

} // verus!

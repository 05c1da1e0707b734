//! The abstract syntax tree of the Aether language, with its mathematical
//! view types used in contracts.

use vstd::prelude::*;
use crate::source::Span;

verus! {

/// A complete parsed source file: a sequence of top-level items.
#[derive(Debug)]
pub struct Program {
    /// The top-level items, in source order.
    pub items: Vec<Item>,
}

/// A top-level item.
#[derive(Debug)]
pub enum Item {
    /// A function definition.
    Fn(FnDecl),
}

impl Item {
    /// The source span of this item.
    pub fn span(&self) -> (r: Span)
        ensures
            r == self@.span(),
    {
        match self {
            Item::Fn(f) => f.span,
        }
    }
}

/// A function definition: `fn NAME(PARAMS) -> TYPE { ... }`.
#[derive(Debug)]
pub struct FnDecl {
    /// The function's name.
    pub name: Ident,
    /// The parameters, in declaration order.
    pub params: Vec<Param>,
    /// The declared return type.
    pub return_type: Type,
    /// The function body.
    pub body: Block,
    /// The span from the `fn` keyword to the closing brace.
    pub span: Span,
}

/// A function parameter: `name: type`.
#[derive(Clone, Debug, PartialEq, Eq)]
pub struct Param {
    /// The parameter's name.
    pub name: Ident,
    /// The parameter's declared type.
    pub ty: Type,
    /// The span from the name to the type.
    pub span: Span,
}

/// A type reference: a named type such as `int`.
#[derive(Clone, Debug, PartialEq, Eq)]
pub struct Type {
    /// The type's name.
    pub name: Ident,
}

impl Type {
    /// The source span of this type (its name).
    pub fn span(&self) -> (r: Span)
        ensures
            r == self.name.span,
    {
        self.name.span
    }
}

/// A brace-delimited block of statements.
#[derive(Debug)]
pub struct Block {
    /// The statements, in source order.
    pub stmts: Vec<Stmt>,
    /// The span from the opening to the closing brace.
    pub span: Span,
}

/// A statement.
#[derive(Debug)]
pub enum Stmt {
    /// A `let NAME = <expr>;` binding.
    Let(LetStmt),
    /// A `return <expr>;` statement.
    Return(ReturnStmt),
    /// An `if <cond> { … } [else …]` statement.
    If(IfStmt),
}

impl Stmt {
    /// The source span of this statement.
    pub fn span(&self) -> (r: Span)
        ensures
            r == self@.span(),
    {
        match self {
            Stmt::Let(l) => l.span,
            Stmt::Return(r) => r.span,
            Stmt::If(i) => i.span,
        }
    }
}

/// A `let NAME = <expr>;` binding of a local variable.
#[derive(Debug)]
pub struct LetStmt {
    /// The bound name.
    pub name: Ident,
    /// The initializer expression.
    pub init: Expr,
    /// The span from the `let` keyword to the semicolon.
    pub span: Span,
}

/// A `return <expr>;` statement.
#[derive(Debug)]
pub struct ReturnStmt {
    /// The returned expression.
    pub expr: Expr,
    /// The span from the `return` keyword to the semicolon.
    pub span: Span,
}

/// An `if <cond> { … } [else …]` statement.
#[derive(Debug)]
pub struct IfStmt {
    /// The condition; expected to be a boolean.
    pub cond: Expr,
    /// The block executed when the condition is true.
    pub then_block: Block,
    /// The optional `else` branch.
    pub else_branch: Option<ElseBranch>,
    /// The span from the `if` keyword to the end of the last branch.
    pub span: Span,
}

/// The `else` branch of an [`IfStmt`]: a block or a nested `if`.
#[derive(Debug)]
pub enum ElseBranch {
    /// `else { … }`.
    Block(Block),
    /// `else if …`.
    If(Box<IfStmt>),
}

/// An expression.
#[derive(Debug)]
pub enum Expr {
    /// An integer literal, with its parsed value.
    IntLit {
        /// The literal's numeric value.
        value: u64,
        /// The literal's span.
        span: Span,
    },
    /// A boolean literal.
    BoolLit {
        /// The literal's value.
        value: bool,
        /// The literal's span.
        span: Span,
    },
    /// A unary operation, e.g. `-x`.
    Unary {
        /// The operator.
        op: UnOp,
        /// The operand.
        operand: Box<Expr>,
        /// The span covering the operator and operand.
        span: Span,
    },
    /// A binary operation, e.g. `a + b`.
    Binary {
        /// The operator.
        op: BinOp,
        /// The left operand.
        lhs: Box<Expr>,
        /// The right operand.
        rhs: Box<Expr>,
        /// The span covering both operands.
        span: Span,
    },
    /// A reference to a name, such as a local variable.
    Name {
        /// The referenced name's text.
        name: String,
        /// The reference's span.
        span: Span,
    },
    /// A function call `callee(args)` with a bare function name as callee.
    Call {
        /// The called function's name.
        callee: String,
        /// The argument expressions, in order.
        args: Vec<Expr>,
        /// The span from the callee to the closing parenthesis.
        span: Span,
    },
    /// A placeholder produced where parsing failed.
    Error {
        /// The span of the offending location.
        span: Span,
    },
}

impl Expr {
    /// The source span of this expression.
    pub fn span(&self) -> (r: Span)
        ensures
            r == self@.span(),
    {
        match self {
            Expr::IntLit { span, .. } => *span,
            Expr::BoolLit { span, .. } => *span,
            Expr::Unary { span, .. } => *span,
            Expr::Binary { span, .. } => *span,
            Expr::Name { span, .. } => *span,
            Expr::Call { span, .. } => *span,
            Expr::Error { span } => *span,
        }
    }
}

/// A binary operator.
#[derive(Clone, Copy, Debug, PartialEq, Eq, Structural)]
pub enum BinOp {
    /// `+`
    Add,
    /// `-`
    Sub,
    /// `*`
    Mul,
    /// `/`
    Div,
    /// `==`
    Eq,
    /// `!=`
    Ne,
    /// `<`
    Lt,
    /// `<=`
    Le,
    /// `>`
    Gt,
    /// `>=`
    Ge,
    /// Short-circuiting `&&`.
    And,
    /// Short-circuiting `||`.
    Or,
}

/// The source symbol of a binary operator.
pub open spec fn binop_symbol(op: BinOp) -> Seq<char> {
    match op {
        BinOp::Add => "+"@,
        BinOp::Sub => "-"@,
        BinOp::Mul => "*"@,
        BinOp::Div => "/"@,
        BinOp::Eq => "=="@,
        BinOp::Ne => "!="@,
        BinOp::Lt => "<"@,
        BinOp::Le => "<="@,
        BinOp::Gt => ">"@,
        BinOp::Ge => ">="@,
        BinOp::And => "&&"@,
        BinOp::Or => "||"@,
    }
}

/// Whether a binary operator is a comparison (producing a boolean).
pub open spec fn binop_is_comparison(op: BinOp) -> bool {
    op is Eq || op is Ne || op is Lt || op is Le || op is Gt || op is Ge
}

impl BinOp {
    /// The operator's source symbol (e.g. `"+"`).
    pub fn symbol(self) -> (r: &'static str)
        ensures
            r@ == binop_symbol(self),
    {
        match self {
            BinOp::Add => "+",
            BinOp::Sub => "-",
            BinOp::Mul => "*",
            BinOp::Div => "/",
            BinOp::Eq => "==",
            BinOp::Ne => "!=",
            BinOp::Lt => "<",
            BinOp::Le => "<=",
            BinOp::Gt => ">",
            BinOp::Ge => ">=",
            BinOp::And => "&&",
            BinOp::Or => "||",
        }
    }

    /// Whether this operator is a comparison rather than arithmetic or logical.
    pub fn is_comparison(self) -> (r: bool)
        ensures
            r == binop_is_comparison(self),
    {
        match self {
            BinOp::Eq | BinOp::Ne | BinOp::Lt | BinOp::Le | BinOp::Gt | BinOp::Ge => true,
            _ => false,
        }
    }
}

/// A unary operator.
#[derive(Clone, Copy, Debug, PartialEq, Eq, Structural)]
pub enum UnOp {
    /// Arithmetic negation, `-`.
    Neg,
    /// Logical negation, `!`.
    Not,
}

/// The source symbol of a unary operator.
pub open spec fn unop_symbol(op: UnOp) -> Seq<char> {
    match op {
        UnOp::Neg => "-"@,
        UnOp::Not => "!"@,
    }
}

impl UnOp {
    /// The operator's source symbol (e.g. `"-"`).
    pub fn symbol(self) -> (r: &'static str)
        ensures
            r@ == unop_symbol(self),
    {
        match self {
            UnOp::Neg => "-",
            UnOp::Not => "!",
        }
    }
}

/// An identifier: its text and the span it came from.
#[derive(Clone, Debug, PartialEq, Eq)]
pub struct Ident {
    /// The identifier's text.
    pub name: String,
    /// The identifier's span.
    pub span: Span,
}

// ---------------------------------------------------------------------------
// Views

/// The content of an [`Ident`].
pub struct IdentV {
    pub name: Seq<char>,
    pub span: Span,
}

/// The content of an [`Expr`].
pub enum ExprV {
    IntLit { value: u64, span: Span },
    BoolLit { value: bool, span: Span },
    Unary { op: UnOp, operand: Box<ExprV>, span: Span },
    Binary { op: BinOp, lhs: Box<ExprV>, rhs: Box<ExprV>, span: Span },
    Name { name: Seq<char>, span: Span },
    Call { callee: Seq<char>, args: Seq<ExprV>, span: Span },
    Error { span: Span },
}

impl ExprV {
    /// The span of an expression.
    pub open spec fn span(self) -> Span {
        match self {
            ExprV::IntLit { span, .. } => span,
            ExprV::BoolLit { span, .. } => span,
            ExprV::Unary { span, .. } => span,
            ExprV::Binary { span, .. } => span,
            ExprV::Name { span, .. } => span,
            ExprV::Call { span, .. } => span,
            ExprV::Error { span } => span,
        }
    }
}

/// The content of a [`Param`].
pub struct ParamV {
    pub name: IdentV,
    /// The declared type: the identifier naming it, text and span.
    pub ty: IdentV,
    pub span: Span,
}

/// The content of a [`Block`].
pub struct BlockV {
    pub stmts: Seq<StmtV>,
    pub span: Span,
}

/// The content of an [`IfStmt`].
pub struct IfStmtV {
    pub cond: ExprV,
    pub then_block: BlockV,
    pub else_branch: Option<ElseV>,
    pub span: Span,
}

/// The content of an [`ElseBranch`].
pub enum ElseV {
    Block(BlockV),
    If(Box<IfStmtV>),
}

/// The content of a [`Stmt`].
pub enum StmtV {
    Let { name: IdentV, init: ExprV, span: Span },
    Return { expr: ExprV, span: Span },
    If(IfStmtV),
}

impl StmtV {
    /// The span of a statement.
    pub open spec fn span(self) -> Span {
        match self {
            StmtV::Let { span, .. } => span,
            StmtV::Return { span, .. } => span,
            StmtV::If(i) => i.span,
        }
    }
}

/// The content of a [`FnDecl`].
pub struct FnDeclV {
    pub name: IdentV,
    pub params: Seq<ParamV>,
    /// The declared return type: the identifier naming it, text and span.
    pub return_type: IdentV,
    pub body: BlockV,
    pub span: Span,
}

impl FnDeclV {
    /// The span of a function item.
    pub open spec fn span(self) -> Span {
        self.span
    }
}

impl View for Ident {
    type V = IdentV;

    open spec fn view(&self) -> IdentV {
        IdentV { name: self.name@, span: self.span }
    }
}

impl View for Param {
    type V = ParamV;

    open spec fn view(&self) -> ParamV {
        // A type is its name, so its view is that identifier's view (text
        // and span).
        ParamV { name: self.name@, ty: self.ty.name@, span: self.span }
    }
}

/// The view of an expression.
pub open spec fn expr_view(e: Expr) -> ExprV
    decreases e,
{
    match e {
        Expr::IntLit { value, span } => ExprV::IntLit { value, span },
        Expr::BoolLit { value, span } => ExprV::BoolLit { value, span },
        Expr::Unary { op, operand, span } => ExprV::Unary {
            op,
            operand: Box::new(expr_view(*operand)),
            span,
        },
        Expr::Binary { op, lhs, rhs, span } => ExprV::Binary {
            op,
            lhs: Box::new(expr_view(*lhs)),
            rhs: Box::new(expr_view(*rhs)),
            span,
        },
        Expr::Name { name, span } => ExprV::Name { name: name@, span },
        Expr::Call { callee, args, span } => ExprV::Call {
            callee: callee@,
            args: exprs_view(args@),
            span,
        },
        Expr::Error { span } => ExprV::Error { span },
    }
}

/// The views of a sequence of expressions.
pub open spec fn exprs_view(es: Seq<Expr>) -> Seq<ExprV>
    decreases es,
{
    if es.len() == 0 {
        seq![]
    } else {
        exprs_view(es.drop_last()).push(expr_view(es.last()))
    }
}

impl View for Expr {
    type V = ExprV;

    open spec fn view(&self) -> ExprV {
        expr_view(*self)
    }
}

/// The view of a statement.
pub open spec fn stmt_view(s: Stmt) -> StmtV
    decreases s,
{
    match s {
        Stmt::Let(l) => StmtV::Let { name: l.name@, init: l.init@, span: l.span },
        Stmt::Return(r) => StmtV::Return { expr: r.expr@, span: r.span },
        Stmt::If(i) => StmtV::If(if_view(i)),
    }
}

/// The views of a sequence of statements.
pub open spec fn stmts_view(ss: Seq<Stmt>) -> Seq<StmtV>
    decreases ss,
{
    if ss.len() == 0 {
        seq![]
    } else {
        stmts_view(ss.drop_last()).push(stmt_view(ss.last()))
    }
}

/// The view of a block.
pub open spec fn block_view(b: Block) -> BlockV
    decreases b,
{
    BlockV { stmts: stmts_view(b.stmts@), span: b.span }
}

/// The view of an `if` statement.
pub open spec fn if_view(i: IfStmt) -> IfStmtV
    decreases i,
{
    IfStmtV {
        cond: i.cond@,
        then_block: block_view(i.then_block),
        else_branch: match i.else_branch {
            Some(ElseBranch::Block(b)) => Some(ElseV::Block(block_view(b))),
            Some(ElseBranch::If(n)) => Some(ElseV::If(Box::new(if_view(*n)))),
            None => None,
        },
        span: i.span,
    }
}

impl View for Stmt {
    type V = StmtV;

    open spec fn view(&self) -> StmtV {
        stmt_view(*self)
    }
}

impl View for Block {
    type V = BlockV;

    open spec fn view(&self) -> BlockV {
        block_view(*self)
    }
}

impl View for IfStmt {
    type V = IfStmtV;

    open spec fn view(&self) -> IfStmtV {
        if_view(*self)
    }
}

/// The views of a sequence of parameters.
pub open spec fn params_view(ps: Seq<Param>) -> Seq<ParamV> {
    ps.map_values(|p: Param| p@)
}

impl View for FnDecl {
    type V = FnDeclV;

    open spec fn view(&self) -> FnDeclV {
        FnDeclV {
            name: self.name@,
            params: params_view(self.params@),
            return_type: self.return_type.name@,
            body: self.body@,
            span: self.span,
        }
    }
}

impl View for Item {
    type V = FnDeclV;

    open spec fn view(&self) -> FnDeclV {
        match self {
            Item::Fn(f) => f@,
        }
    }
}

/// The views of a program's items.
pub open spec fn items_view(items: Seq<Item>) -> Seq<FnDeclV> {
    items.map_values(|i: Item| i@)
}

impl View for Program {
    type V = Seq<FnDeclV>;

    open spec fn view(&self) -> Seq<FnDeclV> {
        items_view(self.items@)
    }
}

} // verus!

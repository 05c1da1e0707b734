//! Token definitions: [`TokenKind`] and [`Token`].

use vstd::prelude::*;
use crate::source::Span;
use crate::text::str_eq;

verus! {

/// The lexical category of a [`Token`]. Payload-free: the text of an
/// identifier or literal is recovered from the source through the span.
#[derive(Clone, Copy, PartialEq, Eq, Structural, Hash, Debug)]
pub enum TokenKind {
    /// An identifier, e.g. `main` or `int`.
    Ident,
    /// A decimal integer literal, e.g. `42`.
    Int,
    /// The `fn` keyword.
    Fn,
    /// The `return` keyword.
    Return,
    /// The `let` keyword.
    Let,
    /// The `true` keyword.
    True,
    /// The `false` keyword.
    False,
    /// The `if` keyword.
    If,
    /// The `else` keyword.
    Else,
    /// `(`
    LParen,
    /// `)`
    RParen,
    /// `{`
    LBrace,
    /// `}`
    RBrace,
    /// `;`
    Semicolon,
    /// `:`
    Colon,
    /// `,`
    Comma,
    /// `+`
    Plus,
    /// `-`
    Minus,
    /// `*`
    Star,
    /// `/`
    Slash,
    /// `->`
    Arrow,
    /// `=`
    Eq,
    /// `==`
    EqEq,
    /// `!=`
    BangEq,
    /// `<`
    Lt,
    /// `<=`
    LtEq,
    /// `>`
    Gt,
    /// `>=`
    GtEq,
    /// `!`
    Bang,
    /// `&&`
    AmpAmp,
    /// `||`
    PipePipe,
    /// The end of the input; always the final token, with an empty span.
    Eof,
}

/// A short human-readable description of a token kind.
pub open spec fn description_of(k: TokenKind) -> Seq<char> {
    match k {
        TokenKind::Ident => "identifier"@,
        TokenKind::Int => "integer literal"@,
        TokenKind::Fn => "keyword `fn`"@,
        TokenKind::Return => "keyword `return`"@,
        TokenKind::Let => "keyword `let`"@,
        TokenKind::True => "keyword `true`"@,
        TokenKind::False => "keyword `false`"@,
        TokenKind::If => "keyword `if`"@,
        TokenKind::Else => "keyword `else`"@,
        TokenKind::LParen => "`(`"@,
        TokenKind::RParen => "`)`"@,
        TokenKind::LBrace => "`{`"@,
        TokenKind::RBrace => "`}`"@,
        TokenKind::Semicolon => "`;`"@,
        TokenKind::Colon => "`:`"@,
        TokenKind::Comma => "`,`"@,
        TokenKind::Plus => "`+`"@,
        TokenKind::Minus => "`-`"@,
        TokenKind::Star => "`*`"@,
        TokenKind::Slash => "`/`"@,
        TokenKind::Arrow => "`->`"@,
        TokenKind::Eq => "`=`"@,
        TokenKind::EqEq => "`==`"@,
        TokenKind::BangEq => "`!=`"@,
        TokenKind::Lt => "`<`"@,
        TokenKind::LtEq => "`<=`"@,
        TokenKind::Gt => "`>`"@,
        TokenKind::GtEq => "`>=`"@,
        TokenKind::Bang => "`!`"@,
        TokenKind::AmpAmp => "`&&`"@,
        TokenKind::PipePipe => "`||`"@,
        TokenKind::Eof => "end of file"@,
    }
}

/// Whether `k` is a reserved keyword.
pub open spec fn is_keyword_kind(k: TokenKind) -> bool {
    k is Fn || k is Return || k is Let || k is True || k is False || k is If || k is Else
}

/// The keyword spelled by `s`, if any.
pub open spec fn keyword_of(s: Seq<char>) -> Option<TokenKind> {
    if s == "fn"@ {
        Some(TokenKind::Fn)
    } else if s == "return"@ {
        Some(TokenKind::Return)
    } else if s == "let"@ {
        Some(TokenKind::Let)
    } else if s == "true"@ {
        Some(TokenKind::True)
    } else if s == "false"@ {
        Some(TokenKind::False)
    } else if s == "if"@ {
        Some(TokenKind::If)
    } else if s == "else"@ {
        Some(TokenKind::Else)
    } else {
        None
    }
}

impl TokenKind {
    /// A short human-readable description, suitable for diagnostics.
    pub fn description(self) -> (r: &'static str)
        ensures
            r@ == description_of(self),
    {
        match self {
            TokenKind::Ident => "identifier",
            TokenKind::Int => "integer literal",
            TokenKind::Fn => "keyword `fn`",
            TokenKind::Return => "keyword `return`",
            TokenKind::Let => "keyword `let`",
            TokenKind::True => "keyword `true`",
            TokenKind::False => "keyword `false`",
            TokenKind::If => "keyword `if`",
            TokenKind::Else => "keyword `else`",
            TokenKind::LParen => "`(`",
            TokenKind::RParen => "`)`",
            TokenKind::LBrace => "`{`",
            TokenKind::RBrace => "`}`",
            TokenKind::Semicolon => "`;`",
            TokenKind::Colon => "`:`",
            TokenKind::Comma => "`,`",
            TokenKind::Plus => "`+`",
            TokenKind::Minus => "`-`",
            TokenKind::Star => "`*`",
            TokenKind::Slash => "`/`",
            TokenKind::Arrow => "`->`",
            TokenKind::Eq => "`=`",
            TokenKind::EqEq => "`==`",
            TokenKind::BangEq => "`!=`",
            TokenKind::Lt => "`<`",
            TokenKind::LtEq => "`<=`",
            TokenKind::Gt => "`>`",
            TokenKind::GtEq => "`>=`",
            TokenKind::Bang => "`!`",
            TokenKind::AmpAmp => "`&&`",
            TokenKind::PipePipe => "`||`",
            TokenKind::Eof => "end of file",
        }
    }

    /// Whether this kind is a reserved keyword.
    pub fn is_keyword(self) -> (r: bool)
        ensures
            r == is_keyword_kind(self),
    {
        match self {
            TokenKind::Fn | TokenKind::Return | TokenKind::Let | TokenKind::True
            | TokenKind::False | TokenKind::If | TokenKind::Else => true,
            _ => false,
        }
    }
}

/// If `lexeme` is a reserved keyword, its [`TokenKind`]; otherwise `None`.
pub fn keyword(lexeme: &str) -> (r: Option<TokenKind>)
    ensures
        r == keyword_of(lexeme@),
{
    if str_eq(lexeme, "fn") {
        Some(TokenKind::Fn)
    } else if str_eq(lexeme, "return") {
        Some(TokenKind::Return)
    } else if str_eq(lexeme, "let") {
        Some(TokenKind::Let)
    } else if str_eq(lexeme, "true") {
        Some(TokenKind::True)
    } else if str_eq(lexeme, "false") {
        Some(TokenKind::False)
    } else if str_eq(lexeme, "if") {
        Some(TokenKind::If)
    } else if str_eq(lexeme, "else") {
        Some(TokenKind::Else)
    } else {
        None
    }
}

/// A lexical token: a kind plus the source span it occupies.
#[derive(Clone, Copy, PartialEq, Eq, Debug)]
pub struct Token {
    /// The lexical category of the token.
    pub kind: TokenKind,
    /// The source region the token covers.
    pub span: Span,
}

impl Token {
    /// Create a token from a kind and span.
    pub fn new(kind: TokenKind, span: Span) -> (r: Token)
        ensures
            r == (Token { kind, span }),
    {
        Token { kind, span }
    }
}

} // verus!

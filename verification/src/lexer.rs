//! The scanner: turns source text into tokens, reporting and skipping
//! characters that cannot start a token.

use vstd::prelude::*;
use vstd::utf8::*;
use crate::text::{
    byte_len, byte_offset, byte_slice, char_width, decode_range, lemma_byte_offset_le_len,
    lemma_byte_offset_mono, lemma_byte_offset_step, lemma_char_width_bounds,
    lemma_decode_offsets, lemma_offset_is_boundary,
};
use crate::source::{BytePos, FileId, SourceFile, Span};
use crate::diagnostics::{Diagnostic, DiagnosticV, diags_view, error_with_primary};
use crate::token::{Token, TokenKind, keyword, keyword_of};

verus! {

/// Rust's debug rendering of a character (as `format!("{c:?}")` produces it):
/// the character in single quotes, with escapes for quotes, backslashes and
/// non-printable characters.
pub uninterp spec fn char_debug(c: char) -> Seq<char>;

/// The debug rendering of `c`, produced by the standard library's `Debug`
/// implementation for `char`. The contract only names the result.
#[verifier::external_body]
fn debug_char(c: char) -> (r: String)
    ensures
        r@ == char_debug(c),
{
    format!("{:?}", c)
}

/// Unicode `White_Space`, the set `char::is_whitespace` tests.
pub open spec fn is_whitespace_char(c: char) -> bool {
    let v = c as u32;
    ||| 0x09 <= v <= 0x0D
    ||| v == 0x20
    ||| v == 0x85
    ||| v == 0xA0
    ||| v == 0x1680
    ||| 0x2000 <= v <= 0x200A
    ||| v == 0x2028
    ||| v == 0x2029
    ||| v == 0x202F
    ||| v == 0x205F
    ||| v == 0x3000
}

/// An ASCII decimal digit.
pub open spec fn is_digit(c: char) -> bool {
    0x30 <= (c as u32) <= 0x39
}

/// An ASCII letter.
pub open spec fn is_alpha(c: char) -> bool {
    (0x41 <= (c as u32) <= 0x5A) || (0x61 <= (c as u32) <= 0x7A)
}

/// A character that may begin an identifier: an ASCII letter or `_`.
pub open spec fn is_ident_start(c: char) -> bool {
    c == '_' || is_alpha(c)
}

/// A character that may continue an identifier: ASCII alphanumeric or `_`.
pub open spec fn is_ident_continue(c: char) -> bool {
    is_ident_start(c) || is_digit(c)
}

/// The index of the `\n` ending the comment text starting at `i` (or the end).
pub open spec fn comment_end(cs: Seq<char>, i: int) -> int
    decreases cs.len() - i,
{
    if i < 0 || i >= cs.len() || cs[i] == '\n' {
        i
    } else {
        comment_end(cs, i + 1)
    }
}

/// The index of the first character at or after `i` that is neither
/// whitespace nor part of a `//` line comment.
pub open spec fn trivia_end(cs: Seq<char>, i: int) -> int
    decreases cs.len() - i,
{
    if i < 0 || i >= cs.len() {
        i
    } else if is_whitespace_char(cs[i]) {
        trivia_end(cs, i + 1)
    } else if cs[i] == '/' && i + 1 < cs.len() && cs[i + 1] == '/' {
        let e = comment_end(cs, i + 2);
        if e <= i || e > cs.len() {
            i
        } else {
            trivia_end(cs, e)
        }
    } else {
        i
    }
}

/// The end of the maximal run starting at `i` of digits (`ident == false`)
/// or identifier characters (`ident == true`).
pub open spec fn run_end(cs: Seq<char>, i: int, ident: bool) -> int
    decreases cs.len() - i,
{
    if i < 0 || i >= cs.len() {
        i
    } else if (if ident { is_ident_continue(cs[i]) } else { is_digit(cs[i]) }) {
        run_end(cs, i + 1, ident)
    } else {
        i
    }
}

/// Whether the character after `t` is `d`.
pub open spec fn next_is(cs: Seq<char>, t: int, d: char) -> bool {
    t + 1 < cs.len() && cs[t + 1] == d
}

/// The operator or delimiter starting at `t` and where it ends, or `None`
/// when the character at `t` cannot start a token.
pub open spec fn symbol_at(cs: Seq<char>, t: int) -> Option<(TokenKind, int)> {
    let c = cs[t];
    if c == '(' {
        Some((TokenKind::LParen, t + 1))
    } else if c == ')' {
        Some((TokenKind::RParen, t + 1))
    } else if c == '{' {
        Some((TokenKind::LBrace, t + 1))
    } else if c == '}' {
        Some((TokenKind::RBrace, t + 1))
    } else if c == ';' {
        Some((TokenKind::Semicolon, t + 1))
    } else if c == ':' {
        Some((TokenKind::Colon, t + 1))
    } else if c == ',' {
        Some((TokenKind::Comma, t + 1))
    } else if c == '+' {
        Some((TokenKind::Plus, t + 1))
    } else if c == '*' {
        Some((TokenKind::Star, t + 1))
    } else if c == '/' {
        Some((TokenKind::Slash, t + 1))
    } else if c == '=' {
        if next_is(cs, t, '=') { Some((TokenKind::EqEq, t + 2)) } else { Some((TokenKind::Eq, t + 1)) }
    } else if c == '!' {
        if next_is(cs, t, '=') { Some((TokenKind::BangEq, t + 2)) } else { Some((TokenKind::Bang, t + 1)) }
    } else if c == '<' {
        if next_is(cs, t, '=') { Some((TokenKind::LtEq, t + 2)) } else { Some((TokenKind::Lt, t + 1)) }
    } else if c == '>' {
        if next_is(cs, t, '=') { Some((TokenKind::GtEq, t + 2)) } else { Some((TokenKind::Gt, t + 1)) }
    } else if c == '-' {
        if next_is(cs, t, '>') { Some((TokenKind::Arrow, t + 2)) } else { Some((TokenKind::Minus, t + 1)) }
    } else if c == '&' {
        if next_is(cs, t, '&') { Some((TokenKind::AmpAmp, t + 2)) } else { None }
    } else if c == '|' {
        if next_is(cs, t, '|') { Some((TokenKind::PipePipe, t + 2)) } else { None }
    } else {
        None
    }
}

/// The span of the characters `[a, b)` of `cs`, in bytes.
pub open spec fn char_span(cs: Seq<char>, file: FileId, a: int, b: int) -> Span {
    Span {
        file,
        lo: BytePos(byte_offset(cs, a) as u32),
        hi: BytePos(byte_offset(cs, b) as u32),
    }
}

/// The diagnostic for a character at `t` that cannot start a token.
pub open spec fn unexpected_char(cs: Seq<char>, file: FileId, t: int) -> DiagnosticV {
    error_with_primary(
        "unexpected character "@ + char_debug(cs[t]),
        char_span(cs, file, t, t + 1),
        "unknown start of a token"@,
    )
}

/// Scan the token (or the bad character) starting at `t`, returning it and
/// the index where scanning continues.
pub open spec fn scan_at(cs: Seq<char>, file: FileId, t: int) -> (
    Option<Token>,
    Option<DiagnosticV>,
    int,
) {
    let c = cs[t];
    if is_digit(c) {
        let j = run_end(cs, t + 1, false);
        (Some(Token { kind: TokenKind::Int, span: char_span(cs, file, t, j) }), None, j)
    } else if is_ident_start(c) {
        let j = run_end(cs, t + 1, true);
        let kind = match keyword_of(cs.subrange(t, j)) {
            Some(k) => k,
            None => TokenKind::Ident,
        };
        (Some(Token { kind, span: char_span(cs, file, t, j) }), None, j)
    } else {
        match symbol_at(cs, t) {
            Some((k, j)) => (Some(Token { kind: k, span: char_span(cs, file, t, j) }), None, j),
            None => (None, Some(unexpected_char(cs, file, t)), t + 1),
        }
    }
}

/// The sequence holding the value of an option, if any.
pub open spec fn opt_seq<A>(o: Option<A>) -> Seq<A> {
    match o {
        Some(a) => seq![a],
        None => seq![],
    }
}

/// The tokens and diagnostics produced by lexing `cs` from index `i`.
pub open spec fn lex_from(cs: Seq<char>, file: FileId, i: int) -> (Seq<Token>, Seq<DiagnosticV>)
    decreases cs.len() - i,
{
    if i < 0 || i > cs.len() {
        (seq![], seq![])
    } else {
        let t = trivia_end(cs, i);
        if t < i || t > cs.len() {
            (seq![], seq![])
        } else if t == cs.len() {
            (seq![Token { kind: TokenKind::Eof, span: char_span(cs, file, t, t) }], seq![])
        } else {
            let (tok, diag, j) = scan_at(cs, file, t);
            if j <= t || j > cs.len() {
                (seq![], seq![])
            } else {
                let (ts, ds) = lex_from(cs, file, j);
                (opt_seq(tok) + ts, opt_seq(diag) + ds)
            }
        }
    }
}

/// The tokens and diagnostics produced by lexing the whole text `cs`.
pub open spec fn lex(cs: Seq<char>, file: FileId) -> (Seq<Token>, Seq<DiagnosticV>) {
    lex_from(cs, file, 0)
}

proof fn lemma_comment_end(cs: Seq<char>, i: int)
    requires
        0 <= i <= cs.len(),
    ensures
        i <= comment_end(cs, i) <= cs.len(),
    decreases cs.len() - i,
{
    if i < cs.len() && cs[i] != '\n' {
        lemma_comment_end(cs, i + 1);
    }
}

proof fn lemma_trivia_end(cs: Seq<char>, i: int)
    requires
        0 <= i <= cs.len(),
    ensures
        i <= trivia_end(cs, i) <= cs.len(),
    decreases cs.len() - i,
{
    if i < cs.len() {
        if is_whitespace_char(cs[i]) {
            lemma_trivia_end(cs, i + 1);
        } else if cs[i] == '/' && i + 1 < cs.len() && cs[i + 1] == '/' {
            lemma_comment_end(cs, i + 2);
            lemma_trivia_end(cs, comment_end(cs, i + 2));
        }
    }
}

proof fn lemma_run_end(cs: Seq<char>, i: int, ident: bool)
    requires
        0 <= i <= cs.len(),
    ensures
        i <= run_end(cs, i, ident) <= cs.len(),
    decreases cs.len() - i,
{
    if i < cs.len() && (if ident { is_ident_continue(cs[i]) } else { is_digit(cs[i]) }) {
        lemma_run_end(cs, i + 1, ident);
    }
}

proof fn lemma_scan_at(cs: Seq<char>, file: FileId, t: int)
    requires
        0 <= t < cs.len(),
    ensures
        t < scan_at(cs, file, t).2 <= cs.len(),
{
    lemma_run_end(cs, t + 1, false);
    lemma_run_end(cs, t + 1, true);
}

/// A span of whole characters of `cs`, in file `file`.
pub open spec fn span_in(cs: Seq<char>, file: FileId, s: Span) -> bool {
    &&& s.file == file
    &&& s.lo.0 <= s.hi.0 <= byte_len(cs)
    &&& is_char_boundary(encode_utf8(cs), s.lo.0 as int)
    &&& is_char_boundary(encode_utf8(cs), s.hi.0 as int)
}

proof fn lemma_char_span_in(cs: Seq<char>, file: FileId, a: int, b: int)
    requires
        0 <= a <= b <= cs.len(),
        byte_len(cs) < u32::MAX,
    ensures
        span_in(cs, file, char_span(cs, file, a, b)),
{
    lemma_byte_offset_mono(cs, a, b);
    lemma_byte_offset_le_len(cs, b);
    lemma_offset_is_boundary(cs, a);
    lemma_offset_is_boundary(cs, b);
}

/// What lexing from character `i` produces: a stream ending in `Eof` whose
/// tokens, like the one label of each diagnostic, cover whole characters of
/// the text.
#[verifier::spinoff_prover]
#[verifier::rlimit(40)]
pub proof fn lemma_lex_from(cs: Seq<char>, file: FileId, i: int)
    requires
        0 <= i <= cs.len(),
        byte_len(cs) < u32::MAX,
    ensures
        lex_from(cs, file, i).0.len() >= 1,
        lex_from(cs, file, i).0.last().kind is Eof,
        forall|k: int|
            0 <= k < lex_from(cs, file, i).0.len() ==> span_in(
                cs,
                file,
                (#[trigger] lex_from(cs, file, i).0[k]).span,
            ),
        forall|k: int|
            0 <= k < lex_from(cs, file, i).1.len() ==> (#[trigger] lex_from(cs, file, i).1[k]).labels.len()
                == 1 && span_in(cs, file, lex_from(cs, file, i).1[k].labels[0].span),
    decreases cs.len() - i,
{
    lemma_trivia_end(cs, i);
    let t = trivia_end(cs, i);
    if t == cs.len() {
        lemma_char_span_in(cs, file, t, t);
    } else {
        lemma_scan_at(cs, file, t);
        let (tok, diag, j) = scan_at(cs, file, t);
        lemma_char_span_in(cs, file, t, j);
        lemma_char_span_in(cs, file, t, t + 1);
        lemma_lex_from(cs, file, j);
        let (ts, ds) = lex_from(cs, file, j);
        let r = lex_from(cs, file, i);
        assert(r.0 == opt_seq(tok) + ts);
        assert(r.1 == opt_seq(diag) + ds);
        assert forall|k: int| 0 <= k < r.0.len() implies span_in(cs, file, (#[trigger] r.0[k]).span) by {
            if k < opt_seq(tok).len() {
                assert(r.0[k] == tok->0);
            } else {
                assert(r.0[k] == ts[k - opt_seq(tok).len()]);
            }
        }
        assert forall|k: int| 0 <= k < r.1.len() implies (#[trigger] r.1[k]).labels.len() == 1
            && span_in(cs, file, r.1[k].labels[0].span) by {
            if k < opt_seq(diag).len() {
                assert(r.1[k] == diag->0);
            } else {
                assert(r.1[k] == ds[k - opt_seq(diag).len()]);
            }
        }
    }
}

/// The tokens lexed from character `i` come in source order, after the
/// byte offset of `i`, and only the last one is `Eof`.
#[verifier::spinoff_prover]
#[verifier::rlimit(40)]
pub proof fn lemma_lex_from_order(cs: Seq<char>, file: FileId, i: int)
    requires
        0 <= i <= cs.len(),
        byte_len(cs) < u32::MAX,
    ensures
        forall|k: int|
            0 <= k < lex_from(cs, file, i).0.len() ==> byte_offset(cs, i) <= (
            #[trigger] lex_from(cs, file, i).0[k]).span.lo.0,
        forall|k: int, l: int|
            0 <= k < l < lex_from(cs, file, i).0.len() ==> (#[trigger] lex_from(cs, file, i).0[k]).span.hi.0
                <= (#[trigger] lex_from(cs, file, i).0[l]).span.lo.0,
        forall|k: int|
            0 <= k < lex_from(cs, file, i).0.len() - 1 ==> !((#[trigger] lex_from(
                cs,
                file,
                i,
            ).0[k]).kind is Eof) && lex_from(cs, file, i).0[k].span.lo.0 < lex_from(
                cs,
                file,
                i,
            ).0[k].span.hi.0,
        lex_from(cs, file, i).0.len() >= 1 ==> lex_from(cs, file, i).0.last().span.lo.0 == byte_len(
            cs,
        ) && lex_from(cs, file, i).0.last().span.hi.0 == byte_len(cs),
    decreases cs.len() - i,
{
    lemma_trivia_end(cs, i);
    let t = trivia_end(cs, i);
    lemma_byte_offset_mono(cs, i, t);
    lemma_byte_offset_le_len(cs, t);
    if t < cs.len() {
        lemma_scan_at(cs, file, t);
        let (tok, diag, j) = scan_at(cs, file, t);
        lemma_byte_offset_mono(cs, t, j);
        lemma_byte_offset_le_len(cs, j);
        lemma_lex_from_order(cs, file, j);
        let (ts, ds) = lex_from(cs, file, j);
        let r = lex_from(cs, file, i).0;
        let h = opt_seq(tok);
        assert(r == h + ts);
        assert forall|k: int| 0 <= k < r.len() implies byte_offset(cs, i) <= (#[trigger] r[k]).span.lo.0 by {
            if k >= h.len() {
                assert(r[k] == ts[k - h.len()]);
            }
        }
        assert forall|k: int, l: int| 0 <= k < l < r.len() implies (#[trigger] r[k]).span.hi.0 <= (
        #[trigger] r[l]).span.lo.0 by {
            assert(r[l] == ts[l - h.len()]);
            if k >= h.len() {
                assert(r[k] == ts[k - h.len()]);
            }
        }
        assert forall|k: int| 0 <= k < r.len() - 1 implies !((#[trigger] r[k]).kind is Eof)
            && r[k].span.lo.0 < r[k].span.hi.0 by {
            if k >= h.len() {
                assert(r[k] == ts[k - h.len()]);
            }
        }
        lemma_lex_from(cs, file, j);
        assert(r.last() == ts.last());
    } else if t == cs.len() {
        assert(lex_from(cs, file, i).0 == seq![Token { kind: TokenKind::Eof, span: char_span(cs, file, t, t) }]);
    }
}

/// An ASCII letter.
pub open spec fn ascii_letter(c: char) -> bool {
    ('a' <= c && c <= 'z') || ('A' <= c && c <= 'Z')
}

/// An ASCII decimal digit.
pub open spec fn ascii_digit(c: char) -> bool {
    '0' <= c && c <= '9'
}

/// A character of a word: an ASCII letter, an ASCII digit or `_`.
pub open spec fn word_char(c: char) -> bool {
    ascii_letter(c) || ascii_digit(c) || c == '_'
}

/// Characters `[t, j)` of `cs` form a maximal word: it starts with an ASCII
/// letter or `_`, holds only word characters, and no word character
/// follows it.
pub open spec fn maximal_word(cs: Seq<char>, t: int, j: int) -> bool {
    &&& 0 <= t < j <= cs.len()
    &&& ascii_letter(cs[t]) || cs[t] == '_'
    &&& forall|m: int| t <= m < j ==> word_char(#[trigger] cs[m])
    &&& j == cs.len() || !word_char(cs[j])
}

/// Characters `[t, j)` of `cs` form a maximal run of ASCII digits.
pub open spec fn maximal_number(cs: Seq<char>, t: int, j: int) -> bool {
    &&& 0 <= t < j <= cs.len()
    &&& forall|m: int| t <= m < j ==> ascii_digit(#[trigger] cs[m])
    &&& j == cs.len() || !ascii_digit(cs[j])
}

proof fn lemma_char_classes(c: char)
    ensures
        is_digit(c) == ascii_digit(c),
        is_ident_start(c) == (ascii_letter(c) || c == '_'),
        is_ident_continue(c) == word_char(c),
{
}

proof fn lemma_run_end_maximal(cs: Seq<char>, i: int, ident: bool)
    requires
        0 <= i <= cs.len(),
    ensures
        forall|m: int|
            i <= m < run_end(cs, i, ident) ==> if ident {
                word_char(#[trigger] cs[m])
            } else {
                ascii_digit(cs[m])
            },
        run_end(cs, i, ident) == cs.len() || !(if ident {
            word_char(cs[run_end(cs, i, ident)])
        } else {
            ascii_digit(cs[run_end(cs, i, ident)])
        }),
    decreases cs.len() - i,
{
    if i < cs.len() {
        lemma_char_classes(cs[i]);
        if (if ident { is_ident_continue(cs[i]) } else { is_digit(cs[i]) }) {
            lemma_run_end_maximal(cs, i + 1, ident);
        }
    }
}

/// Identifier and integer tokens lexed from character `i` are maximal:
/// an identifier covers a maximal word, an integer a maximal run of digits.
#[verifier::spinoff_prover]
#[verifier::rlimit(40)]
pub proof fn lemma_lex_from_words(cs: Seq<char>, file: FileId, i: int)
    requires
        0 <= i <= cs.len(),
        byte_len(cs) < u32::MAX,
    ensures
        forall|k: int|
            #![trigger lex_from(cs, file, i).0[k]]
            0 <= k < lex_from(cs, file, i).0.len() ==> {
                let tok = lex_from(cs, file, i).0[k];
                &&& tok.kind is Ident ==> exists|t: int, j: int|
                    maximal_word(cs, t, j) && tok.span == #[trigger] char_span(cs, file, t, j)
                &&& tok.kind is Int ==> exists|t: int, j: int|
                    maximal_number(cs, t, j) && tok.span == #[trigger] char_span(cs, file, t, j)
            },
    decreases cs.len() - i,
{
    lemma_trivia_end(cs, i);
    let t = trivia_end(cs, i);
    if t < cs.len() {
        lemma_scan_at(cs, file, t);
        let (tok, diag, j) = scan_at(cs, file, t);
        lemma_lex_from_words(cs, file, j);
        let ts = lex_from(cs, file, j).0;
        let r = lex_from(cs, file, i).0;
        let h = opt_seq(tok);
        assert(r == h + ts);
        lemma_char_classes(cs[t]);
        if tok is Some && (tok->0.kind is Ident || tok->0.kind is Int) {
            assert(is_digit(cs[t]) || is_ident_start(cs[t]));
            if is_digit(cs[t]) {
                lemma_run_end_maximal(cs, t + 1, false);
                assert(maximal_number(cs, t, j));
            } else {
                lemma_run_end_maximal(cs, t + 1, true);
                assert(maximal_word(cs, t, j));
            }
        }
        assert forall|k: int| #![trigger r[k]] 0 <= k < r.len() implies {
            let tk = r[k];
            &&& tk.kind is Ident ==> exists|a: int, b: int|
                maximal_word(cs, a, b) && tk.span == #[trigger] char_span(cs, file, a, b)
            &&& tk.kind is Int ==> exists|a: int, b: int|
                maximal_number(cs, a, b) && tk.span == #[trigger] char_span(cs, file, a, b)
        } by {
            if k >= h.len() {
                assert(r[k] == ts[k - h.len()]);
            } else {
                assert(r[k] == tok->0);
            }
        }
    } else if t == cs.len() {
        assert(lex_from(cs, file, i).0 == seq![Token { kind: TokenKind::Eof, span: char_span(cs, file, t, t) }]);
    }
}

/// Whether no token can start at character `t`.
pub open spec fn cannot_start(cs: Seq<char>, t: int) -> bool {
    !is_digit(cs[t]) && !is_ident_start(cs[t]) && symbol_at(cs, t) is None
}

/// The diagnostics of lexing from character `i`: one "unexpected character"
/// error for each character from `i` on at which no token can start and
/// scanning stops, in source order, each covering its one character.
#[verifier::spinoff_prover]
#[verifier::rlimit(40)]
pub proof fn lemma_lex_from_diags(cs: Seq<char>, file: FileId, i: int)
    requires
        0 <= i <= cs.len(),
        byte_len(cs) < u32::MAX,
    ensures
        forall|k: int|
            #![trigger lex_from(cs, file, i).1[k]]
            0 <= k < lex_from(cs, file, i).1.len() ==> exists|t: int|
                i <= t < cs.len() && cannot_start(cs, t) && lex_from(cs, file, i).1[k]
                    == #[trigger] unexpected_char(cs, file, t),
        forall|k: int|
            0 <= k < lex_from(cs, file, i).1.len() ==> byte_offset(cs, i) <= (
            #[trigger] lex_from(cs, file, i).1[k]).labels[0].span.lo.0 && lex_from(
                cs,
                file,
                i,
            ).1[k].labels[0].span.lo.0 < lex_from(cs, file, i).1[k].labels[0].span.hi.0,
        forall|k: int, l: int|
            0 <= k < l < lex_from(cs, file, i).1.len() ==> (#[trigger] lex_from(cs, file, i).1[k]).labels[0].span.hi.0
                <= (#[trigger] lex_from(cs, file, i).1[l]).labels[0].span.lo.0,
    decreases cs.len() - i,
{
    lemma_trivia_end(cs, i);
    let t = trivia_end(cs, i);
    lemma_byte_offset_mono(cs, i, t);
    if t < cs.len() {
        lemma_scan_at(cs, file, t);
        let (tok, diag, j) = scan_at(cs, file, t);
        lemma_byte_offset_mono(cs, t, j);
        lemma_byte_offset_le_len(cs, j);
        lemma_lex_from_diags(cs, file, j);
        let ds = lex_from(cs, file, j).1;
        let r = lex_from(cs, file, i).1;
        let h = opt_seq(diag);
        assert(r == h + ds);
        if diag is Some {
            assert(cannot_start(cs, t) && diag->0 == unexpected_char(cs, file, t));
            assert(j == t + 1);
        }
        assert forall|k: int| #![trigger r[k]] 0 <= k < r.len() implies exists|u: int|
            i <= u < cs.len() && cannot_start(cs, u) && r[k] == #[trigger] unexpected_char(cs, file, u) by {
            if k >= h.len() {
                assert(r[k] == ds[k - h.len()]);
                let u = choose|u: int|
                    j <= u < cs.len() && cannot_start(cs, u) && ds[k - h.len()]
                        == #[trigger] unexpected_char(cs, file, u);
                assert(i <= u);
            } else {
                assert(r[k] == unexpected_char(cs, file, t));
            }
        }
        assert forall|k: int| 0 <= k < r.len() implies byte_offset(cs, i) <= (
        #[trigger] r[k]).labels[0].span.lo.0 && r[k].labels[0].span.lo.0 < r[k].labels[0].span.hi.0 by {
            if k >= h.len() {
                assert(r[k] == ds[k - h.len()]);
            }
        }
        assert forall|k: int, l: int| 0 <= k < l < r.len() implies (#[trigger] r[k]).labels[0].span.hi.0
            <= (#[trigger] r[l]).labels[0].span.lo.0 by {
            assert(r[l] == ds[l - h.len()]);
            if k >= h.len() {
                assert(r[k] == ds[k - h.len()]);
            }
        }
    }
}

/// The token stream of a file always ends with `Eof`, whose span is empty
/// at the end of the text, and has no other `Eof`; its other tokens have
/// non-empty spans and come in source order; every token and every
/// diagnostic label covers whole characters of the file; and each
/// diagnostic is the "unexpected character" error for one character at
/// which no token can start, one per character, in source order. Every
/// identifier token covers a maximal word (an ASCII letter or `_` followed
/// by ASCII letters, digits or `_`) and every integer token a maximal run
/// of ASCII digits.
pub proof fn lemma_lex(cs: Seq<char>, file: FileId)
    requires
        byte_len(cs) < u32::MAX,
    ensures
        lex(cs, file).0.len() >= 1,
        lex(cs, file).0.last().kind is Eof,
        lex(cs, file).0.last().span.lo.0 == byte_len(cs),
        lex(cs, file).0.last().span.hi.0 == byte_len(cs),
        forall|k: int|
            0 <= k < lex(cs, file).0.len() - 1 ==> !((#[trigger] lex(cs, file).0[k]).kind is Eof)
                && lex(cs, file).0[k].span.lo.0 < lex(cs, file).0[k].span.hi.0,
        forall|k: int, l: int|
            0 <= k < l < lex(cs, file).0.len() ==> (#[trigger] lex(cs, file).0[k]).span.hi.0 <= (
            #[trigger] lex(cs, file).0[l]).span.lo.0,
        forall|k: int|
            0 <= k < lex(cs, file).0.len() ==> span_in(cs, file, (#[trigger] lex(cs, file).0[k]).span),
        forall|k: int|
            0 <= k < lex(cs, file).1.len() ==> (#[trigger] lex(cs, file).1[k]).labels.len() == 1
                && span_in(cs, file, lex(cs, file).1[k].labels[0].span),
        forall|k: int|
            #![trigger lex(cs, file).1[k]]
            0 <= k < lex(cs, file).1.len() ==> exists|t: int|
                0 <= t < cs.len() && cannot_start(cs, t) && lex(cs, file).1[k]
                    == #[trigger] unexpected_char(cs, file, t),
        forall|k: int|
            0 <= k < lex(cs, file).1.len() ==> (#[trigger] lex(cs, file).1[k]).labels[0].span.lo.0
                < lex(cs, file).1[k].labels[0].span.hi.0,
        forall|k: int, l: int|
            0 <= k < l < lex(cs, file).1.len() ==> (#[trigger] lex(cs, file).1[k]).labels[0].span.hi.0
                <= (#[trigger] lex(cs, file).1[l]).labels[0].span.lo.0,
        forall|k: int|
            #![trigger lex(cs, file).0[k]]
            0 <= k < lex(cs, file).0.len() ==> {
                let tok = lex(cs, file).0[k];
                &&& tok.kind is Ident ==> exists|t: int, j: int|
                    maximal_word(cs, t, j) && tok.span == #[trigger] char_span(cs, file, t, j)
                &&& tok.kind is Int ==> exists|t: int, j: int|
                    maximal_number(cs, t, j) && tok.span == #[trigger] char_span(cs, file, t, j)
            },
{
    lemma_lex_from(cs, file, 0);
    lemma_lex_from_order(cs, file, 0);
    lemma_lex_from_diags(cs, file, 0);
    lemma_lex_from_words(cs, file, 0);
}

/// The result of lexing a file: the token stream and any diagnostics.
#[derive(Debug)]
pub struct LexResult {
    /// The tokens, in source order, terminated by [`TokenKind::Eof`].
    pub tokens: Vec<Token>,
    /// Diagnostics emitted during lexing.
    pub diagnostics: Vec<Diagnostic>,
}

fn char_len(c: char) -> (w: usize)
    ensures
        w == char_width(c),
{
    proof { vstd::utf8::char_is_scalar(c); }
    let v = c as u32;
    if v < 0x80 {
        1
    } else if v < 0x800 {
        2
    } else if v < 0x10000 {
        3
    } else {
        4
    }
}

fn is_whitespace(c: char) -> (r: bool)
    ensures
        r == is_whitespace_char(c),
{
    let v = c as u32;
    (0x09 <= v && v <= 0x0D) || v == 0x20 || v == 0x85 || v == 0xA0 || v == 0x1680 || (0x2000 <= v
        && v <= 0x200A) || v == 0x2028 || v == 0x2029 || v == 0x202F || v == 0x205F || v == 0x3000
}

fn is_ascii_digit(c: char) -> (r: bool)
    ensures
        r == is_digit(c),
{
    let v = c as u32;
    0x30 <= v && v <= 0x39
}

fn is_ident_start_char(c: char) -> (r: bool)
    ensures
        r == is_ident_start(c),
{
    let v = c as u32;
    c == '_' || (0x41 <= v && v <= 0x5A) || (0x61 <= v && v <= 0x7A)
}

fn is_ident_continue_char(c: char) -> (r: bool)
    ensures
        r == is_ident_continue(c),
{
    is_ident_start_char(c) || is_ascii_digit(c)
}

/// Advance past one character, keeping the byte offset in step.
fn advance(cs: &Vec<char>, ci: usize, pos: usize) -> (r: (usize, usize))
    requires
        ci < cs@.len(),
        pos == byte_offset(cs@, ci as int),
        byte_len(cs@) < u32::MAX,
    ensures
        r.0 == ci + 1,
        r.1 == byte_offset(cs@, ci + 1),
{
    // The length of `cs` fits in a `usize`, so `ci + 1` does too.
    let _n = cs.len();
    proof {
        lemma_byte_offset_step(cs@, ci as int);
        lemma_byte_offset_le_len(cs@, ci + 1);
    }
    let w = char_len(cs[ci]);
    assert(w == char_width(cs@[ci as int]));
    (ci + 1, pos + w)
}

fn skip_comment(cs: &Vec<char>, ci: usize, pos: usize) -> (r: (usize, usize))
    requires
        ci <= cs@.len(),
        pos == byte_offset(cs@, ci as int),
        byte_len(cs@) < u32::MAX,
    ensures
        r.0 == comment_end(cs@, ci as int),
        r.1 == byte_offset(cs@, r.0 as int),
{
    let mut i = ci;
    let mut p = pos;
    while i < cs.len() && cs[i] != '\n'
        invariant
            i <= cs@.len(),
            p == byte_offset(cs@, i as int),
            byte_len(cs@) < u32::MAX,
            comment_end(cs@, i as int) == comment_end(cs@, ci as int),
        decreases cs@.len() - i,
    {
        let (a, b) = advance(cs, i, p);
        i = a;
        p = b;
    }
    (i, p)
}

fn skip_trivia(cs: &Vec<char>, ci: usize, pos: usize) -> (r: (usize, usize))
    requires
        ci <= cs@.len(),
        pos == byte_offset(cs@, ci as int),
        byte_len(cs@) < u32::MAX,
    ensures
        r.0 == trivia_end(cs@, ci as int),
        r.1 == byte_offset(cs@, r.0 as int),
{
    let mut i = ci;
    let mut p = pos;
    loop
        invariant
            i <= cs@.len(),
            p == byte_offset(cs@, i as int),
            byte_len(cs@) < u32::MAX,
            trivia_end(cs@, i as int) == trivia_end(cs@, ci as int),
        decreases cs@.len() - i,
    {
        if i >= cs.len() {
            assert(trivia_end(cs@, i as int) == i as int);
            return (i, p);
        }
        let c = cs[i];
        if is_whitespace(c) {
            let (a, b) = advance(cs, i, p);
            i = a;
            p = b;
        } else if c == '/' && cs.len() - i > 1 && cs[i + 1] == '/' {
            let (a, b) = advance(cs, i, p);
            let (a, b) = advance(cs, a, b);
            let (a, b) = skip_comment(cs, a, b);
            proof { lemma_comment_end(cs@, i + 2); }
            i = a;
            p = b;
        } else {
            assert(trivia_end(cs@, i as int) == i as int);
            return (i, p);
        }
    }
}

fn continues_run(c: char, ident: bool) -> (r: bool)
    ensures
        r == (if ident { is_ident_continue(c) } else { is_digit(c) }),
{
    if ident {
        is_ident_continue_char(c)
    } else {
        is_ascii_digit(c)
    }
}

fn scan_run(cs: &Vec<char>, ci: usize, pos: usize, ident: bool) -> (r: (usize, usize))
    requires
        ci <= cs@.len(),
        pos == byte_offset(cs@, ci as int),
        byte_len(cs@) < u32::MAX,
    ensures
        r.0 == run_end(cs@, ci as int, ident),
        r.1 == byte_offset(cs@, r.0 as int),
{
    let mut i = ci;
    let mut p = pos;
    while i < cs.len() && continues_run(cs[i], ident)
        invariant
            i <= cs@.len(),
            p == byte_offset(cs@, i as int),
            byte_len(cs@) < u32::MAX,
            run_end(cs@, i as int, ident) == run_end(cs@, ci as int, ident),
        decreases cs@.len() - i,
    {
        let (a, b) = advance(cs, i, p);
        i = a;
        p = b;
    }
    (i, p)
}

/// The span between two byte offsets of `cs`.
fn make_span(cs: &Vec<char>, file: FileId, a: usize, pa: usize, b: usize, pb: usize) -> (r: Span)
    requires
        a <= b <= cs@.len(),
        pa == byte_offset(cs@, a as int),
        pb == byte_offset(cs@, b as int),
        byte_len(cs@) < u32::MAX,
    ensures
        r == char_span(cs@, file, a as int, b as int),
{
    proof {
        lemma_byte_offset_mono(cs@, a as int, b as int);
        lemma_byte_offset_le_len(cs@, b as int);
    }
    Span::new(file, BytePos(pa as u32), BytePos(pb as u32))
}

/// Resolve a one- or two-character operator whose first character is at `t`.
fn one_or_two(cs: &Vec<char>, t: usize, second: char, two: TokenKind, one: TokenKind) -> (r: (
    TokenKind,
    usize,
))
    requires
        t < cs@.len(),
    ensures
        next_is(cs@, t as int, second) ==> r.0 == two && r.1 == t + 2,
        !next_is(cs@, t as int, second) ==> r.0 == one && r.1 == t + 1,
{
    if cs.len() - t > 1 && cs[t + 1] == second {
        (two, t + 2)
    } else {
        (one, t + 1)
    }
}

/// Classify the operator or delimiter starting at `t`.
fn symbol(cs: &Vec<char>, t: usize) -> (r: Option<(TokenKind, usize)>)
    requires
        t < cs@.len(),
    ensures
        match r {
            Some((k, j)) => symbol_at(cs@, t as int) == Some((k, j as int)),
            None => symbol_at(cs@, t as int) is None,
        },
{
    // `t` indexes `cs`, whose length fits in a `usize`, so `t + 2` cannot
    // overflow.
    let _n = cs.len();
    let c = cs[t];
    if c == '(' {
        Some((TokenKind::LParen, t + 1))
    } else if c == ')' {
        Some((TokenKind::RParen, t + 1))
    } else if c == '{' {
        Some((TokenKind::LBrace, t + 1))
    } else if c == '}' {
        Some((TokenKind::RBrace, t + 1))
    } else if c == ';' {
        Some((TokenKind::Semicolon, t + 1))
    } else if c == ':' {
        Some((TokenKind::Colon, t + 1))
    } else if c == ',' {
        Some((TokenKind::Comma, t + 1))
    } else if c == '+' {
        Some((TokenKind::Plus, t + 1))
    } else if c == '*' {
        Some((TokenKind::Star, t + 1))
    } else if c == '/' {
        Some((TokenKind::Slash, t + 1))
    } else if c == '=' {
        Some(one_or_two(cs, t, '=', TokenKind::EqEq, TokenKind::Eq))
    } else if c == '!' {
        Some(one_or_two(cs, t, '=', TokenKind::BangEq, TokenKind::Bang))
    } else if c == '<' {
        Some(one_or_two(cs, t, '=', TokenKind::LtEq, TokenKind::Lt))
    } else if c == '>' {
        Some(one_or_two(cs, t, '=', TokenKind::GtEq, TokenKind::Gt))
    } else if c == '-' {
        Some(one_or_two(cs, t, '>', TokenKind::Arrow, TokenKind::Minus))
    } else if c == '&' {
        if cs.len() - t > 1 && cs[t + 1] == '&' {
            Some((TokenKind::AmpAmp, t + 2))
        } else {
            None
        }
    } else if c == '|' {
        if cs.len() - t > 1 && cs[t + 1] == '|' {
            Some((TokenKind::PipePipe, t + 2))
        } else {
            None
        }
    } else {
        None
    }
}

/// Scan the token (or report the bad character) at character index `t`.
fn scan_token(src: &str, cs: &Vec<char>, file: FileId, t: usize, pt: usize) -> (r: (
    Option<Token>,
    Option<Diagnostic>,
    usize,
    usize,
))
    requires
        src@ == cs@,
        t < cs@.len(),
        pt == byte_offset(cs@, t as int),
        byte_len(cs@) < u32::MAX,
    ensures
        r.0 == scan_at(cs@, file, t as int).0,
        match r.1 {
            Some(d) => scan_at(cs@, file, t as int).1 == Some(d@),
            None => scan_at(cs@, file, t as int).1 is None,
        },
        r.2 == scan_at(cs@, file, t as int).2,
        r.3 == byte_offset(cs@, r.2 as int),
        t < r.2 <= cs@.len(),
{
    proof { lemma_scan_at(cs@, file, t as int); }
    let c = cs[t];
    let (t1, p1) = advance(cs, t, pt);
    if is_ascii_digit(c) {
        let (j, pj) = scan_run(cs, t1, p1, false);
        let span = make_span(cs, file, t, pt, j, pj);
        (Some(Token::new(TokenKind::Int, span)), None, j, pj)
    } else if is_ident_start_char(c) {
        let (j, pj) = scan_run(cs, t1, p1, true);
        proof {
            lemma_byte_offset_mono(cs@, t as int, j as int);
            lemma_byte_offset_le_len(cs@, j as int);
            lemma_offset_is_boundary(cs@, t as int);
            lemma_offset_is_boundary(cs@, j as int);
            lemma_decode_offsets(cs@, t as int, j as int);
        }
        let lexeme = byte_slice(src, pt, pj);
        let kind = match keyword(lexeme) {
            Some(k) => k,
            None => TokenKind::Ident,
        };
        let span = make_span(cs, file, t, pt, j, pj);
        (Some(Token::new(kind, span)), None, j, pj)
    } else {
        match symbol(cs, t) {
            Some((k, j)) => {
                let (j, pj) = if j == t1 {
                    (t1, p1)
                } else {
                    advance(cs, t1, p1)
                };
                let span = make_span(cs, file, t, pt, j, pj);
                (Some(Token::new(k, span)), None, j, pj)
            },
            None => {
                let span = make_span(cs, file, t, pt, t1, p1);
                let mut message = String::from_str("unexpected character ");
                let shown = debug_char(c);
                message.append(shown.as_str());
                let d = Diagnostic::error(message.as_str()).with_primary(
                    span,
                    "unknown start of a token",
                );
                assert(d@.labels =~= unexpected_char(cs@, file, t as int).labels);
                (None, Some(d), t1, p1)
            },
        }
    }
}

/// The characters of `s`, in order.
fn to_chars(s: &str) -> (r: Vec<char>)
    ensures
        r@ == s@,
{
    let mut v: Vec<char> = Vec::new();
    for c in it: s.chars()
        invariant
            v@ == it.seq().take(it.index() as int),
    {
        v.push(c);
    }
    v
}

/// Tokenize a source file. The stream always ends with an `Eof` token.
pub fn tokenize(file: &SourceFile) -> (r: LexResult)
    ensures
        r.tokens@ == lex(file.text(), file.spec_id()).0,
        diags_view(r.diagnostics@) == lex(file.text(), file.spec_id()).1,
{
    let src = file.source();
    let cs = to_chars(src);
    let fid = file.id();
    let ghost whole = lex(cs@, fid);
    let mut tokens: Vec<Token> = Vec::new();
    let mut diagnostics: Vec<Diagnostic> = Vec::new();
    let mut ci: usize = 0;
    let mut pos: usize = 0;
    proof {
        assert(cs@.take(0) =~= Seq::<char>::empty());
        assert(tokens@ + lex_from(cs@, fid, 0).0 =~= whole.0);
        assert(diags_view(diagnostics@) + lex_from(cs@, fid, 0).1 =~= whole.1);
    }
    loop
        invariant_except_break
            src@ == cs@,
            byte_len(cs@) < u32::MAX,
            ci <= cs@.len(),
            pos == byte_offset(cs@, ci as int),
            whole == lex(cs@, fid),
            whole.0 == tokens@ + lex_from(cs@, fid, ci as int).0,
            whole.1 == diags_view(diagnostics@) + lex_from(cs@, fid, ci as int).1,
        ensures
            tokens@ == whole.0,
            diags_view(diagnostics@) == whole.1,
        decreases cs@.len() - ci,
    {
        let (t, pt) = skip_trivia(&cs, ci, pos);
        proof { lemma_trivia_end(cs@, ci as int); }
        if t >= cs.len() {
            let span = make_span(&cs, fid, t, pt, t, pt);
            tokens.push(Token::new(TokenKind::Eof, span));
            proof {
                assert(lex_from(cs@, fid, ci as int).0 =~= seq![Token { kind: TokenKind::Eof, span }]);
                assert(lex_from(cs@, fid, ci as int).1 =~= Seq::<DiagnosticV>::empty());
                assert(diags_view(diagnostics@) + Seq::<DiagnosticV>::empty() =~= diags_view(diagnostics@));
            }
            break;
        }
        let (tok, diag, j, pj) = scan_token(src, &cs, fid, t, pt);
        let ghost prev_tokens = tokens@;
        let ghost prev_diags = diags_view(diagnostics@);
        match tok {
            Some(tk) => tokens.push(tk),
            None => {},
        }
        match diag {
            Some(d) => {
                diagnostics.push(d);
            },
            None => {},
        }
        proof {
            let rest = lex_from(cs@, fid, j as int);
            assert(lex_from(cs@, fid, ci as int) == (
                opt_seq(scan_at(cs@, fid, t as int).0) + rest.0,
                opt_seq(scan_at(cs@, fid, t as int).1) + rest.1,
            ));
            assert(tokens@ =~= prev_tokens + opt_seq(scan_at(cs@, fid, t as int).0));
            assert(diags_view(diagnostics@) =~= prev_diags + opt_seq(scan_at(cs@, fid, t as int).1));
            assert(whole.0 =~= tokens@ + rest.0);
            assert(whole.1 =~= diags_view(diagnostics@) + rest.1);
        }
        ci = j;
        pos = pj;
    }
    proof {
        assert(file.text() == cs@);
    }
    LexResult { tokens, diagnostics }
}

} // verus!

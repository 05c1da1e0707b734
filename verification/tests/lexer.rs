use aether::diagnostics::Diagnostic;
use aether::lexer::tokenize;
use aether::source::{BytePos, SourceMap};
use aether::token::{keyword, TokenKind};

fn lex(src: &str) -> (Vec<(TokenKind, String)>, Vec<Diagnostic>) {
    let mut map = SourceMap::new();
    let id = map.add_file("test.ae", src);
    let result = tokenize(map.file(id));
    let pairs = result
        .tokens
        .iter()
        .map(|t| (t.kind, map.span_text(t.span).to_string()))
        .collect();
    (pairs, result.diagnostics)
}

fn kinds(src: &str) -> Vec<TokenKind> {
    let (pairs, diags) = lex(src);
    assert!(diags.is_empty(), "unexpected diagnostics: {diags:?}");
    let mut ks: Vec<TokenKind> = pairs.into_iter().map(|(k, _)| k).collect();
    assert_eq!(ks.pop(), Some(TokenKind::Eof), "stream must end with Eof");
    ks
}

#[test]
fn empty_input_is_just_eof() {
    let (pairs, diags) = lex("");
    assert!(diags.is_empty());
    assert_eq!(pairs, vec![(TokenKind::Eof, String::new())]);
}

#[test]
fn whitespace_only_is_just_eof() {
    let (pairs, diags) = lex("  \t\n  ");
    assert!(diags.is_empty());
    assert_eq!(pairs, vec![(TokenKind::Eof, String::new())]);
}

#[test]
fn keywords_versus_identifiers() {
    let (pairs, _) = lex("fn foo return int");
    assert_eq!(
        pairs,
        vec![
            (TokenKind::Fn, "fn".to_string()),
            (TokenKind::Ident, "foo".to_string()),
            (TokenKind::Return, "return".to_string()),
            (TokenKind::Ident, "int".to_string()),
            (TokenKind::Eof, String::new()),
        ]
    );
}

#[test]
fn integer_literals() {
    let (pairs, diags) = lex("0 42 007");
    assert!(diags.is_empty());
    assert_eq!(
        pairs,
        vec![
            (TokenKind::Int, "0".to_string()),
            (TokenKind::Int, "42".to_string()),
            (TokenKind::Int, "007".to_string()),
            (TokenKind::Eof, String::new()),
        ]
    );
}

#[test]
fn number_then_identifier_split_at_boundary() {
    let (pairs, _) = lex("12ab");
    assert_eq!(
        pairs,
        vec![
            (TokenKind::Int, "12".to_string()),
            (TokenKind::Ident, "ab".to_string()),
            (TokenKind::Eof, String::new()),
        ]
    );
}

#[test]
fn all_operators_and_delimiters() {
    assert_eq!(
        kinds("( ) { } ; , + - * /"),
        vec![
            TokenKind::LParen,
            TokenKind::RParen,
            TokenKind::LBrace,
            TokenKind::RBrace,
            TokenKind::Semicolon,
            TokenKind::Comma,
            TokenKind::Plus,
            TokenKind::Minus,
            TokenKind::Star,
            TokenKind::Slash,
        ]
    );
}

#[test]
fn arrow_versus_minus() {
    assert_eq!(kinds("->"), vec![TokenKind::Arrow]);
    assert_eq!(kinds("-"), vec![TokenKind::Minus]);
    assert_eq!(kinds("- ->"), vec![TokenKind::Minus, TokenKind::Arrow]);
    assert_eq!(
        kinds("a-b"),
        vec![TokenKind::Ident, TokenKind::Minus, TokenKind::Ident]
    );
}

#[test]
fn line_comments_are_skipped() {
    let (pairs, diags) = lex("1 // this is a comment\n2");
    assert!(diags.is_empty());
    assert_eq!(
        pairs,
        vec![
            (TokenKind::Int, "1".to_string()),
            (TokenKind::Int, "2".to_string()),
            (TokenKind::Eof, String::new()),
        ]
    );
}

#[test]
fn line_comment_at_end_of_file() {
    let (pairs, diags) = lex("42 // trailing comment with no newline");
    assert!(diags.is_empty());
    assert_eq!(
        pairs,
        vec![
            (TokenKind::Int, "42".to_string()),
            (TokenKind::Eof, String::new()),
        ]
    );
}

#[test]
fn let_binding_tokens() {
    assert_eq!(
        kinds("let x = 5"),
        vec![TokenKind::Let, TokenKind::Ident, TokenKind::Eq, TokenKind::Int]
    );
}

#[test]
fn slash_is_division_not_comment() {
    assert_eq!(
        kinds("1 / 2"),
        vec![TokenKind::Int, TokenKind::Slash, TokenKind::Int]
    );
}

#[test]
fn comparison_and_logical_operators() {
    assert_eq!(
        kinds("== != < <= > >= !"),
        vec![
            TokenKind::EqEq,
            TokenKind::BangEq,
            TokenKind::Lt,
            TokenKind::LtEq,
            TokenKind::Gt,
            TokenKind::GtEq,
            TokenKind::Bang,
        ]
    );
}

#[test]
fn one_versus_two_character_operators() {
    assert_eq!(kinds("="), vec![TokenKind::Eq]);
    assert_eq!(kinds("=="), vec![TokenKind::EqEq]);
    assert_eq!(kinds("!"), vec![TokenKind::Bang]);
    assert_eq!(kinds("!="), vec![TokenKind::BangEq]);
    assert_eq!(kinds("< <="), vec![TokenKind::Lt, TokenKind::LtEq]);
    assert_eq!(kinds("> >="), vec![TokenKind::Gt, TokenKind::GtEq]);
    assert_eq!(kinds("= ="), vec![TokenKind::Eq, TokenKind::Eq]);
}

#[test]
fn boolean_keywords() {
    assert_eq!(kinds("true false"), vec![TokenKind::True, TokenKind::False]);
    assert_eq!(kinds("truer"), vec![TokenKind::Ident]);
}

#[test]
fn spans_track_byte_offsets() {
    let mut map = SourceMap::new();
    let id = map.add_file("test.ae", "  fn  x");
    let result = tokenize(map.file(id));
    assert_eq!(result.tokens[0].kind, TokenKind::Fn);
    assert_eq!(result.tokens[0].span.lo(), BytePos(2));
    assert_eq!(result.tokens[0].span.hi(), BytePos(4));
    assert_eq!(result.tokens[1].kind, TokenKind::Ident);
    assert_eq!(result.tokens[1].span.lo(), BytePos(6));
    assert_eq!(result.tokens[1].span.hi(), BytePos(7));
    let eof = result.tokens.last().unwrap();
    assert_eq!(eof.kind, TokenKind::Eof);
    assert!(eof.span.is_empty());
    assert_eq!(eof.span.lo(), BytePos(7));
}

#[test]
fn lexer_full_minimal_program() {
    assert_eq!(
        kinds("fn main() -> int { return 1 + 2; }"),
        vec![
            TokenKind::Fn,
            TokenKind::Ident,
            TokenKind::LParen,
            TokenKind::RParen,
            TokenKind::Arrow,
            TokenKind::Ident,
            TokenKind::LBrace,
            TokenKind::Return,
            TokenKind::Int,
            TokenKind::Plus,
            TokenKind::Int,
            TokenKind::Semicolon,
            TokenKind::RBrace,
        ]
    );
}

#[test]
fn unexpected_character_is_reported_and_recovered() {
    let (pairs, diags) = lex("1 @ 2");
    assert_eq!(diags.len(), 1);
    assert_eq!(
        pairs,
        vec![
            (TokenKind::Int, "1".to_string()),
            (TokenKind::Int, "2".to_string()),
            (TokenKind::Eof, String::new()),
        ]
    );
}

#[test]
fn unexpected_multibyte_character_spans_whole_char() {
    let (_pairs, diags) = lex("é");
    assert_eq!(diags.len(), 1);
    let span = diags[0].primary_span().expect("a primary label");
    assert_eq!(span.lo(), BytePos(0));
    assert_eq!(span.hi(), BytePos(2));
}

#[test]
fn keywords_are_recognized() {
    assert_eq!(keyword("fn"), Some(TokenKind::Fn));
    assert_eq!(keyword("return"), Some(TokenKind::Return));
    assert_eq!(keyword("let"), Some(TokenKind::Let));
    assert_eq!(keyword("true"), Some(TokenKind::True));
    assert_eq!(keyword("false"), Some(TokenKind::False));
    assert_eq!(keyword("if"), Some(TokenKind::If));
    assert_eq!(keyword("else"), Some(TokenKind::Else));
}

#[test]
fn non_keywords_are_none() {
    assert_eq!(keyword("main"), None);
    assert_eq!(keyword("int"), None);
    assert_eq!(keyword("fna"), None);
    assert_eq!(keyword(""), None);
}

#[test]
fn keyword_predicate_matches_lookup() {
    assert!(TokenKind::Fn.is_keyword());
    assert!(TokenKind::Return.is_keyword());
    assert!(TokenKind::True.is_keyword());
    assert!(TokenKind::False.is_keyword());
    assert!(!TokenKind::Ident.is_keyword());
    assert!(!TokenKind::Plus.is_keyword());
}

#[test]
fn logical_and_colon_tokens() {
    assert_eq!(
        kinds("a && b || c : d"),
        vec![
            TokenKind::Ident,
            TokenKind::AmpAmp,
            TokenKind::Ident,
            TokenKind::PipePipe,
            TokenKind::Ident,
            TokenKind::Colon,
            TokenKind::Ident,
        ]
    );
}

#[test]
fn lone_ampersand_is_reported() {
    let (pairs, diags) = lex("a & b");
    assert_eq!(diags.len(), 1);
    assert_eq!(diags[0].message, "unexpected character '&'");
    assert_eq!(pairs.len(), 3);
}

#[test]
fn unicode_whitespace_is_skipped() {
    assert_eq!(kinds("1\u{00A0}2\u{3000}3"), vec![TokenKind::Int, TokenKind::Int, TokenKind::Int]);
}

#[test]
fn tokens_come_in_source_order_with_one_final_eof() {
    let mut map = SourceMap::new();
    let id = map.add_file("test.ae", "fn f(x: int) -> bool { // note\n return x <= 10 && é || !true; }");
    let result = tokenize(map.file(id));
    let tokens = &result.tokens;
    assert_eq!(result.diagnostics.len(), 1);
    assert_eq!(tokens.last().map(|t| t.kind), Some(TokenKind::Eof));
    for pair in tokens.windows(2) {
        assert!(pair[0].span.hi().to_usize() <= pair[1].span.lo().to_usize());
        assert_ne!(pair[0].kind, TokenKind::Eof);
    }
}

#[test]
fn eof_sits_at_the_end_and_each_bad_character_gives_one_error() {
    let mut map = SourceMap::new();
    let src = "let x = 1 # @ é;";
    let id = map.add_file("test.ae", src);
    let result = tokenize(map.file(id));
    let eof = result.tokens.last().unwrap();
    assert_eq!(eof.span.lo().to_usize(), src.len());
    assert_eq!(eof.span.hi().to_usize(), src.len());
    for t in &result.tokens[..result.tokens.len() - 1] {
        assert!(t.span.lo().to_usize() < t.span.hi().to_usize());
    }
    let texts: Vec<&str> = result
        .diagnostics
        .iter()
        .map(|d| map.span_text(d.labels[0].span))
        .collect();
    assert_eq!(texts, vec!["#", "@", "é"]);
}

use aether::ast::{BinOp, Expr, UnOp};
use aether::source::{BytePos, SourceMap, Span};

fn span(lo: u32, hi: u32) -> Span {
    let mut map = SourceMap::new();
    let file = map.add_file("test.ae", "");
    Span::new(file, BytePos(lo), BytePos(hi))
}

#[test]
fn expr_span_accessor() {
    let e = Expr::Binary {
        op: BinOp::Add,
        lhs: Box::new(Expr::IntLit {
            value: 1,
            span: span(0, 1),
        }),
        rhs: Box::new(Expr::IntLit {
            value: 2,
            span: span(4, 5),
        }),
        span: span(0, 5),
    };
    assert_eq!(e.span(), span(0, 5));
}

#[test]
fn operator_symbols() {
    assert_eq!(BinOp::Add.symbol(), "+");
    assert_eq!(BinOp::Sub.symbol(), "-");
    assert_eq!(BinOp::Mul.symbol(), "*");
    assert_eq!(BinOp::Div.symbol(), "/");
    assert_eq!(BinOp::Eq.symbol(), "==");
    assert_eq!(BinOp::Ne.symbol(), "!=");
    assert_eq!(BinOp::Lt.symbol(), "<");
    assert_eq!(BinOp::Le.symbol(), "<=");
    assert_eq!(BinOp::Gt.symbol(), ">");
    assert_eq!(BinOp::Ge.symbol(), ">=");
    assert_eq!(BinOp::And.symbol(), "&&");
    assert_eq!(BinOp::Or.symbol(), "||");
    assert_eq!(UnOp::Neg.symbol(), "-");
    assert_eq!(UnOp::Not.symbol(), "!");
}

#[test]
fn comparison_classification() {
    assert!(BinOp::Lt.is_comparison());
    assert!(BinOp::Eq.is_comparison());
    assert!(!BinOp::Add.is_comparison());
    assert!(!BinOp::Div.is_comparison());
}

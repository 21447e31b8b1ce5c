//! Tests of the lexer, the parser and their error messages.

use mini_lang::ast::{BinOp, Expr, Stmt, UnaryOp};
use mini_lang::errors::{LexError, MiniError};
use mini_lang::lexer::Lexer;
use mini_lang::parser::Parser;
use mini_lang::token::{Symbol, TokenKind};

fn kinds(source: &str) -> Vec<TokenKind> {
    Lexer::tokenize(source).unwrap().into_iter().map(|t| t.kind).collect()
}

fn parse(source: &str) -> Vec<Stmt> {
    Parser::parse(Lexer::tokenize(source).unwrap()).unwrap().statements
}

fn parse_error(source: &str) -> String {
    match Parser::parse(Lexer::tokenize(source).unwrap()) {
        Err(e) => e.message(),
        Ok(p) => panic!("expected a parse error, got {:?}", p),
    }
}

#[test]
fn tokens_end_with_eof() {
    let ks = kinds("let x = 1;");
    assert_eq!(ks.len(), 6);
    assert!(matches!(ks[5], TokenKind::Sym(Symbol::Eof)));
    assert!(ks[..5].iter().all(|k| !matches!(k, TokenKind::Sym(Symbol::Eof))));
    let ks = kinds("  // only a comment\n");
    assert_eq!(ks.len(), 1);
    assert!(matches!(ks[0], TokenKind::Sym(Symbol::Eof)));
}

#[test]
fn lexes_operators_and_literals() {
    let ks = kinds("a += 2.50 >= \"x\\n\" && !b -> [null]");
    assert!(matches!(&ks[0], TokenKind::Ident(n) if n == "a"));
    assert!(matches!(ks[1], TokenKind::Sym(Symbol::PlusAssign)));
    assert!(matches!(&ks[2], TokenKind::Float(t) if t == "2.50"));
    assert!(matches!(ks[3], TokenKind::Sym(Symbol::GtEq)));
    assert!(matches!(&ks[4], TokenKind::Str(s) if s == "x\n"));
    assert!(matches!(ks[5], TokenKind::Sym(Symbol::And)));
    assert!(matches!(ks[6], TokenKind::Sym(Symbol::Bang)));
    assert!(matches!(ks[8], TokenKind::Sym(Symbol::Arrow)));
    assert!(matches!(ks[10], TokenKind::Sym(Symbol::Null)));
}

#[test]
fn identifiers_may_hold_letters_of_any_script() {
    let ks = kinds("naïve_1 x");
    assert!(matches!(&ks[0], TokenKind::Ident(n) if n == "naïve_1"));
    assert!(matches!(&ks[1], TokenKind::Ident(n) if n == "x"));
}

#[test]
fn token_positions() {
    let ts = Lexer::tokenize("let\n  x").unwrap();
    assert_eq!((ts[0].line, ts[0].col), (1, 1));
    assert_eq!((ts[1].line, ts[1].col), (2, 3));
}

#[test]
fn lex_errors() {
    match Lexer::tokenize("1 @ 2") {
        Err(e) => {
            assert!(matches!(e, LexError::UnexpectedChar { ch: '@', line: 1, col: 3 }));
            assert_eq!(e.message(), "Lex error at 1:3: unexpected character '@'");
        }
        Ok(_) => panic!("expected a lex error"),
    }
    match Lexer::tokenize("\n\"abc") {
        Err(e) => {
            assert!(matches!(e, LexError::UnterminatedString { line: 2 }));
            assert_eq!(e.message(), "Lex error at line 2: unterminated string literal");
        }
        Ok(_) => panic!("expected a lex error"),
    }
    match Lexer::tokenize("99999999999999999999") {
        Err(e) => assert!(matches!(e, LexError::InvalidNumber { .. })),
        Ok(_) => panic!("expected a lex error"),
    }
}

#[test]
fn precedence_and_associativity() {
    match &parse("1 + 2 * 3;")[0] {
        Stmt::ExprStmt(Expr::BinOp { op: BinOp::Add, right, .. }) => {
            assert!(matches!(**right, Expr::BinOp { op: BinOp::Mul, .. }));
        }
        other => panic!("unexpected {:?}", other),
    }
    match &parse("10 - 2 - 3;")[0] {
        Stmt::ExprStmt(Expr::BinOp { op: BinOp::Sub, left, .. }) => {
            assert!(matches!(**left, Expr::BinOp { op: BinOp::Sub, .. }));
        }
        other => panic!("unexpected {:?}", other),
    }
    match &parse("!a || b && c;")[0] {
        Stmt::ExprStmt(Expr::BinOp { op: BinOp::Or, left, right }) => {
            assert!(matches!(**left, Expr::UnaryOp { op: UnaryOp::Not, .. }));
            assert!(matches!(**right, Expr::BinOp { op: BinOp::And, .. }));
        }
        other => panic!("unexpected {:?}", other),
    }
}

#[test]
fn compound_assignment_desugars() {
    match &parse("x -= 1;")[0] {
        Stmt::Assign { target: Expr::Ident(n), value: Expr::BinOp { op: BinOp::Sub, .. } } => {
            assert_eq!(n, "x")
        }
        other => panic!("unexpected {:?}", other),
    }
}

#[test]
fn statements_parse() {
    let ss = parse("const K = 1; fn f(a, b) { return; } while (x) { break; continue; } for (i in y) {} if (a) {} else if (b) {} else {}");
    assert_eq!(ss.len(), 5);
    assert!(matches!(ss[0], Stmt::Const { .. }));
    assert!(matches!(&ss[1], Stmt::Fn { params, .. } if params.len() == 2));
    assert!(matches!(ss[2], Stmt::While { .. }));
    assert!(matches!(ss[3], Stmt::For { .. }));
    match &ss[4] {
        Stmt::If { else_branch: Some(b), .. } => assert!(matches!(b[0], Stmt::If { .. })),
        other => panic!("unexpected {:?}", other),
    }
}

#[test]
fn parse_errors() {
    assert_eq!(parse_error("let x = 5"), "Parse error at 1:10: expected ';', got 'EOF'");
    assert!(parse_error("let = 5;").starts_with("Parse error at 1:5:"));
    assert!(parse_error("(1 + 2;").starts_with("Parse error at 1:7:"));
}

#[test]
fn pipeline_errors_are_tagged() {
    let mut interp = mini_lang::interpreter::Interpreter::new(NoFloats);
    assert!(matches!(mini_lang::run_source("\"open", &mut interp), Err(MiniError::Lex(_))));
    assert!(matches!(mini_lang::run_source("let;", &mut interp), Err(MiniError::Parse(_))));
    assert!(matches!(mini_lang::run_source("x;", &mut interp), Err(MiniError::Runtime(_))));
    let e = mini_lang::run_source("x;", &mut interp).unwrap_err();
    assert_eq!(e.message(), "Runtime error: undefined variable 'x'");
}

/// A host for programs that use no floats and print nothing.
struct NoFloats;

impl mini_lang::interpreter::Host for NoFloats {
    fn float_answer(&self, _: &mini_lang::interpreter::Question) -> u64 {
        unreachable!()
    }
    fn int_answer(&self, _: &mini_lang::interpreter::Question) -> i64 {
        unreachable!()
    }
    fn bool_answer(&self, _: &mini_lang::interpreter::Question) -> bool {
        unreachable!()
    }
    fn text_answer(&self, _: &mini_lang::interpreter::Question) -> String {
        unreachable!()
    }
    fn write(&mut self, _: &str) {}
}

#[test]
fn string_escapes_and_comments() {
    let ks = kinds("\"a\\tb\\\\c\\\"d\" // trailing comment\n1");
    assert!(matches!(&ks[0], TokenKind::Str(s) if s == "a\tb\\c\"d"));
    assert!(matches!(ks[1], TokenKind::Int(1)));
    assert_eq!(ks.len(), 3);
}

#[test]
fn lone_and_or_are_unexpected() {
    assert!(matches!(Lexer::tokenize("a & b"), Err(LexError::UnexpectedChar { ch: '&', line: 1, col: 3 })));
    assert!(matches!(Lexer::tokenize("a | b"), Err(LexError::UnexpectedChar { ch: '|', line: 1, col: 3 })));
    assert!(matches!(Lexer::tokenize("a|"), Err(LexError::UnexpectedChar { ch: '|', line: 1, col: 2 })));
    assert!(matches!(kinds("a || b")[1], TokenKind::Sym(Symbol::Or)));
}

#[test]
fn chained_assignment_is_right_associative() {
    match &parse("a = b = 1;")[0] {
        Stmt::Assign { target: Expr::Ident(a), value: Expr::Assign { target, value } } => {
            assert_eq!(a, "a");
            assert!(matches!(&**target, Expr::Ident(b) if b == "b"));
            assert!(matches!(**value, Expr::Int(1)));
        }
        other => panic!("unexpected {:?}", other),
    }
    match &parse("a += b -= 2;")[0] {
        Stmt::Assign { value: Expr::BinOp { op: BinOp::Add, right, .. }, .. } => {
            assert!(matches!(&**right, Expr::Assign { value, .. } if matches!(**value, Expr::BinOp { op: BinOp::Sub, .. })));
        }
        other => panic!("unexpected {:?}", other),
    }
}

#[test]
fn token_positions_increase() {
    let ts = Lexer::tokenize("let a\n= [1,\n  2];").unwrap();
    for w in ts.windows(2) {
        assert!((w[0].line, w[0].col) < (w[1].line, w[1].col));
    }
    let ts = Lexer::tokenize("x").unwrap();
    assert!(matches!(&ts[0].kind, TokenKind::Ident(n) if n == "x"));
    assert_eq!((ts[0].line, ts[0].col), (1, 1));
    assert!(matches!(ts[1].kind, TokenKind::Sym(Symbol::Eof)));
    assert_eq!((ts[1].line, ts[1].col), (1, 2));
}

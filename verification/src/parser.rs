//! The parser: a recursive-descent parser from tokens to a syntax tree.
//!
//! Operator precedence is encoded in the call structure, from lowest to
//! highest: `||`, `&&`, `== !=`, `< > <= >=`, `+ -`, `* / %`, unary `! -`,
//! postfix calls and indexing, and primaries (literals, names, grouping,
//! array literals).  Assignment (`=`, `+=`, `-=`) is a statement form and
//! right-associative: `a = b = 1` assigns `b = 1` and then its value to
//! `a`; `x += v` is read as `x = x + v`.
//!
//! The grammar is written as spec functions over token views (positions are
//! indices into the token sequence); each parsing function is proved to
//! give exactly the result, the error, and the next position that its spec
//! function describes.  `p_program` at the bottom is the whole grammar.

use crate::ast::{
    exprs_view, lemma_exprs_view_push, lemma_stmts_view_push, names_view, stmts_view, BinOp, Expr,
    Program, SExpr, SStmt, Stmt, UnaryOp,
};
use crate::errors::{ParseError, SParseError};
use crate::token::{kind_text, tokens_view, SToken, STokenKind, Symbol, Token, TokenKind};
use vstd::prelude::*;

verus! {

// ─── Token-level specification ───────────────────────────────

/// The result of parsing: a node and the position after it, or an error.
pub type PResult<T> = Result<(T, int), SParseError>;

/// Whether the token at `p` is the fixed token `s`.
pub open spec fn sym_at(t: Seq<SToken>, p: int, s: Symbol) -> bool {
    0 <= p < t.len() && t[p].kind == STokenKind::Sym(s)
}

/// Whether `p` is at (or past) the end of input.
pub open spec fn at_end(t: Seq<SToken>, p: int) -> bool {
    !(0 <= p < t.len()) || t[p].kind == STokenKind::Sym(Symbol::Eof)
}

/// The position after reading one token; reading stops at the end of input.
pub open spec fn adv(t: Seq<SToken>, p: int) -> int {
    if at_end(t, p) {
        p
    } else {
        p + 1
    }
}

/// An error located at the token at `p`.
pub open spec fn err_at(t: Seq<SToken>, p: int, msg: Seq<char>) -> SParseError {
    SParseError { msg, line: t[p].line, col: t[p].col }
}

/// The message for a missing `what` where the token kind `k` stands.
pub open spec fn expected_msg(what: Seq<char>, k: STokenKind) -> Seq<char> {
    "expected "@ + what + ", got '"@ + kind_text(k) + "'"@
}

/// Reads the fixed token `s` (described as `what` in the error).
pub open spec fn expect_spec(t: Seq<SToken>, p: int, s: Symbol, what: Seq<char>) -> Result<
    int,
    SParseError,
> {
    if sym_at(t, p, s) {
        Ok(adv(t, p))
    } else {
        Err(err_at(t, p, expected_msg(what, t[p].kind)))
    }
}

/// The error given for a position outside the tokens; well-formed token
/// sequences never lead there.
pub open spec fn stray() -> SParseError {
    SParseError { msg: Seq::empty(), line: 0, col: 0 }
}

/// The position `q` reached from `p`, taken to be past `p`.  Every rule
/// that recurses at `q` reads at least one token first, so this is `q`
/// itself on every path the parser takes.
pub open spec fn forward(t: Seq<SToken>, p: int, q: int) -> int {
    if p < q <= t.len() {
        q
    } else {
        p + 1
    }
}

/// An identifier.
pub open spec fn p_ident(t: Seq<SToken>, p: int) -> PResult<Seq<char>> {
    if 0 <= p < t.len() && t[p].kind is Ident {
        Ok((t[p].kind->Ident_0, adv(t, p)))
    } else {
        Err(err_at(t, p, "expected identifier, got '"@ + kind_text(t[p].kind) + "'"@))
    }
}

/// The rest of a parameter list after the names `acc`.
pub open spec fn p_params_rest(t: Seq<SToken>, p: int, acc: Seq<Seq<char>>) -> PResult<
    Seq<Seq<char>>,
>
    decreases t.len() - p,
{
    if sym_at(t, p, Symbol::Comma) {
        match p_ident(t, p + 1) {
            Ok((n, q)) => p_params_rest(t, q, acc.push(n)),
            Err(e) => Err(e),
        }
    } else {
        Ok((acc, p))
    }
}

/// A parameter list, possibly empty (the parentheses are read elsewhere).
pub open spec fn p_params(t: Seq<SToken>, p: int) -> PResult<Seq<Seq<char>>> {
    if sym_at(t, p, Symbol::RParen) {
        Ok((Seq::empty(), p))
    } else {
        match p_ident(t, p) {
            Ok((n, q)) => p_params_rest(t, q, seq![n]),
            Err(e) => Err(e),
        }
    }
}

/// The binary operator that level `lv` reads at a token of kind `k`.
/// Levels from 1 to 6: `||`; `&&`; `== !=`; `< > <= >=`; `+ -`; `* / %`.
pub open spec fn level_op(lv: int, k: STokenKind) -> Option<BinOp> {
    match k {
        STokenKind::Sym(s) => {
            if lv == 1 && s == Symbol::Or {
                Some(BinOp::Or)
            } else if lv == 2 && s == Symbol::And {
                Some(BinOp::And)
            } else if lv == 3 && s == Symbol::Eq {
                Some(BinOp::Eq)
            } else if lv == 3 && s == Symbol::NotEq {
                Some(BinOp::NotEq)
            } else if lv == 4 && s == Symbol::Lt {
                Some(BinOp::Lt)
            } else if lv == 4 && s == Symbol::Gt {
                Some(BinOp::Gt)
            } else if lv == 4 && s == Symbol::LtEq {
                Some(BinOp::LtEq)
            } else if lv == 4 && s == Symbol::GtEq {
                Some(BinOp::GtEq)
            } else if lv == 5 && s == Symbol::Plus {
                Some(BinOp::Add)
            } else if lv == 5 && s == Symbol::Minus {
                Some(BinOp::Sub)
            } else if lv == 6 && s == Symbol::Star {
                Some(BinOp::Mul)
            } else if lv == 6 && s == Symbol::Slash {
                Some(BinOp::Div)
            } else if lv == 6 && s == Symbol::Percent {
                Some(BinOp::Mod)
            } else {
                None
            }
        },
        _ => None,
    }
}

/// A binary node.
pub open spec fn bin(op: BinOp, l: SExpr, r: SExpr) -> SExpr {
    SExpr::BinOp { op, left: Box::new(l), right: Box::new(r) }
}

// ─── The grammar ─────────────────────────────────────────────

/// An expression.
pub open spec fn p_expr(t: Seq<SToken>, p: int) -> PResult<SExpr>
    decreases t.len() - p, 20int,
{
    if !(0 <= p < t.len()) {
        Err(stray())
    } else {
        p_binary(t, p, 1)
    }
}

/// An expression at precedence level `lv` (see `level_op`); level 7 is a
/// unary expression.  Operators of one level associate to the left.
pub open spec fn p_binary(t: Seq<SToken>, p: int, lv: int) -> PResult<SExpr>
    decreases t.len() - p, 19 - lv,
{
    if !(0 <= p < t.len()) || lv < 1 || lv > 7 {
        Err(stray())
    } else if lv == 7 {
        p_unary(t, p)
    } else {
        match p_binary(t, p, lv + 1) {
            Ok((l, q)) => p_binary_rest(t, forward(t, p, q), lv, l),
            Err(e) => Err(e),
        }
    }
}

/// The rest of a level-`lv` expression whose left operand is `l`.
pub open spec fn p_binary_rest(t: Seq<SToken>, p: int, lv: int, l: SExpr) -> PResult<SExpr>
    decreases t.len() - p, 19 - lv,
{
    if !(0 <= p < t.len()) || lv < 1 || lv >= 7 {
        Err(stray())
    } else {
        match level_op(lv, t[p].kind) {
            Some(op) => match p_binary(t, p + 1, lv + 1) {
                Ok((r, q)) => p_binary_rest(t, forward(t, p, q), lv, bin(op, l, r)),
                Err(e) => Err(e),
            },
            None => Ok((l, p)),
        }
    }
}

/// A unary expression: `!` or `-` applied to a unary expression, or a
/// postfix expression.
pub open spec fn p_unary(t: Seq<SToken>, p: int) -> PResult<SExpr>
    decreases t.len() - p, 11int,
{
    if !(0 <= p < t.len()) {
        Err(stray())
    } else if sym_at(t, p, Symbol::Bang) || sym_at(t, p, Symbol::Minus) {
        let op = if sym_at(t, p, Symbol::Bang) {
            UnaryOp::Not
        } else {
            UnaryOp::Neg
        };
        match p_unary(t, p + 1) {
            Ok((e, q)) => Ok((SExpr::UnaryOp { op, operand: Box::new(e) }, q)),
            Err(e) => Err(e),
        }
    } else {
        p_postfix(t, p)
    }
}

/// A primary followed by any number of calls `(args)` and indexings `[i]`.
pub open spec fn p_postfix(t: Seq<SToken>, p: int) -> PResult<SExpr>
    decreases t.len() - p, 10int,
{
    if !(0 <= p < t.len()) {
        Err(stray())
    } else {
        match p_primary(t, p) {
            Ok((e, q)) => p_postfix_rest(t, forward(t, p, q), e),
            Err(e) => Err(e),
        }
    }
}

/// The calls and indexings that follow the expression `e`.
pub open spec fn p_postfix_rest(t: Seq<SToken>, p: int, e: SExpr) -> PResult<SExpr>
    decreases t.len() - p, 10int,
{
    if !(0 <= p < t.len()) {
        Err(stray())
    } else if sym_at(t, p, Symbol::LParen) {
        match p_call_args(t, p + 1) {
            Ok((args, q)) => match expect_spec(t, q, Symbol::RParen, "')'"@) {
                Ok(r) => p_postfix_rest(
                    t,
                    forward(t, p, r),
                    SExpr::Call { callee: Box::new(e), args },
                ),
                Err(x) => Err(x),
            },
            Err(x) => Err(x),
        }
    } else if sym_at(t, p, Symbol::LBracket) {
        match p_expr(t, p + 1) {
            Ok((i, q)) => match expect_spec(t, q, Symbol::RBracket, "']'"@) {
                Ok(r) => p_postfix_rest(
                    t,
                    forward(t, p, r),
                    SExpr::Index { target: Box::new(e), index: Box::new(i) },
                ),
                Err(x) => Err(x),
            },
            Err(x) => Err(x),
        }
    } else {
        Ok((e, p))
    }
}

/// The arguments of a call, possibly none (the parentheses are read
/// elsewhere).
pub open spec fn p_call_args(t: Seq<SToken>, p: int) -> PResult<Seq<SExpr>>
    decreases t.len() - p, 21int,
{
    if !(0 <= p < t.len()) {
        Err(stray())
    } else if sym_at(t, p, Symbol::RParen) {
        Ok((Seq::empty(), p))
    } else {
        match p_expr(t, p) {
            Ok((e, q)) => p_args_rest(t, forward(t, p, q), seq![e]),
            Err(x) => Err(x),
        }
    }
}

/// Further comma-separated arguments after the arguments `acc`.
pub open spec fn p_args_rest(t: Seq<SToken>, p: int, acc: Seq<SExpr>) -> PResult<Seq<SExpr>>
    decreases t.len() - p, 21int,
{
    if !(0 <= p < t.len()) {
        Err(stray())
    } else if sym_at(t, p, Symbol::Comma) {
        match p_expr(t, p + 1) {
            Ok((e, q)) => p_args_rest(t, forward(t, p, q), acc.push(e)),
            Err(x) => Err(x),
        }
    } else {
        Ok((acc, p))
    }
}

/// The elements and closing bracket of an array literal (the opening
/// bracket is read elsewhere); a trailing comma is allowed.
pub open spec fn p_array(t: Seq<SToken>, p: int) -> PResult<SExpr>
    decreases t.len() - p, 21int,
{
    if !(0 <= p < t.len()) {
        Err(stray())
    } else if sym_at(t, p, Symbol::RBracket) {
        match expect_spec(t, p, Symbol::RBracket, "']'"@) {
            Ok(q) => Ok((SExpr::Array(Seq::empty()), q)),
            Err(x) => Err(x),
        }
    } else {
        match p_expr(t, p) {
            Ok((e, q)) => p_elems_rest(t, forward(t, p, q), seq![e]),
            Err(x) => Err(x),
        }
    }
}

/// The rest of an array literal after the elements `acc`.
pub open spec fn p_elems_rest(t: Seq<SToken>, p: int, acc: Seq<SExpr>) -> PResult<SExpr>
    decreases t.len() - p, 21int,
{
    if !(0 <= p < t.len()) {
        Err(stray())
    } else if sym_at(t, p, Symbol::Comma) && sym_at(t, p + 1, Symbol::RBracket) {
        match expect_spec(t, p + 1, Symbol::RBracket, "']'"@) {
            Ok(q) => Ok((SExpr::Array(acc), q)),
            Err(x) => Err(x),
        }
    } else if sym_at(t, p, Symbol::Comma) {
        match p_expr(t, p + 1) {
            Ok((e, q)) => p_elems_rest(t, forward(t, p, q), acc.push(e)),
            Err(x) => Err(x),
        }
    } else {
        match expect_spec(t, p, Symbol::RBracket, "']'"@) {
            Ok(q) => Ok((SExpr::Array(acc), q)),
            Err(x) => Err(x),
        }
    }
}

/// A primary: a literal, a name, a parenthesised expression or an array
/// literal.
pub open spec fn p_primary(t: Seq<SToken>, p: int) -> PResult<SExpr>
    decreases t.len() - p, 9int,
{
    if !(0 <= p < t.len()) {
        Err(stray())
    } else {
        match t[p].kind {
            STokenKind::Int(n) => Ok((SExpr::Int(n), adv(t, p))),
            STokenKind::Float(x) => Ok((SExpr::Float(x), adv(t, p))),
            STokenKind::Str(s) => Ok((SExpr::Str(s), adv(t, p))),
            STokenKind::Ident(n) => Ok((SExpr::Ident(n), adv(t, p))),
            STokenKind::Sym(Symbol::True) => Ok((SExpr::Bool(true), adv(t, p))),
            STokenKind::Sym(Symbol::False) => Ok((SExpr::Bool(false), adv(t, p))),
            STokenKind::Sym(Symbol::Null) => Ok((SExpr::Null, adv(t, p))),
            STokenKind::Sym(Symbol::LParen) => match p_expr(t, p + 1) {
                Ok((e, q)) => match expect_spec(t, q, Symbol::RParen, "')'"@) {
                    Ok(r) => Ok((e, r)),
                    Err(x) => Err(x),
                },
                Err(x) => Err(x),
            },
            STokenKind::Sym(Symbol::LBracket) => p_array(t, p + 1),
            _ => Err(err_at(t, p, "unexpected token '"@ + kind_text(t[p].kind) + "'"@)),
        }
    }
}

/// The statements and closing brace of a block (the opening brace is read
/// elsewhere), after the statements `acc`.
pub open spec fn p_block(t: Seq<SToken>, p: int, acc: Seq<SStmt>) -> PResult<Seq<SStmt>>
    decreases t.len() - p, 30int,
{
    if !(0 <= p < t.len()) {
        Err(stray())
    } else if sym_at(t, p, Symbol::RBrace) || at_end(t, p) {
        match expect_spec(t, p, Symbol::RBrace, "'}'"@) {
            Ok(q) => Ok((acc, q)),
            Err(x) => Err(x),
        }
    } else {
        match p_stmt(t, p) {
            Ok((s, q)) => p_block(t, forward(t, p, q), acc.push(s)),
            Err(x) => Err(x),
        }
    }
}

/// A statement.
pub open spec fn p_stmt(t: Seq<SToken>, p: int) -> PResult<SStmt>
    decreases t.len() - p, 29int,
{
    if !(0 <= p < t.len()) {
        Err(stray())
    } else if sym_at(t, p, Symbol::Let) || sym_at(t, p, Symbol::Const) {
        p_let(t, p)
    } else if sym_at(t, p, Symbol::Fn) {
        p_fn(t, p)
    } else if sym_at(t, p, Symbol::If) {
        p_if(t, p)
    } else if sym_at(t, p, Symbol::While) {
        p_while(t, p)
    } else if sym_at(t, p, Symbol::For) {
        p_for(t, p)
    } else if sym_at(t, p, Symbol::Return) {
        p_return(t, p)
    } else if sym_at(t, p, Symbol::Break) {
        match expect_spec(t, p + 1, Symbol::Semicolon, "';'"@) {
            Ok(q) => Ok((SStmt::Break, q)),
            Err(x) => Err(x),
        }
    } else if sym_at(t, p, Symbol::Continue) {
        match expect_spec(t, p + 1, Symbol::Semicolon, "';'"@) {
            Ok(q) => Ok((SStmt::Continue, q)),
            Err(x) => Err(x),
        }
    } else {
        p_expr_or_assign(t, p)
    }
}

/// `let name = value;` or `const name = value;`.
pub open spec fn p_let(t: Seq<SToken>, p: int) -> PResult<SStmt>
    decreases t.len() - p, 28int,
{
    if !(0 <= p < t.len()) {
        Err(stray())
    } else {
        match p_ident(t, p + 1) {
            Ok((name, q)) => match expect_spec(t, q, Symbol::Assign, "'='"@) {
                Ok(r) => match p_expr(t, r) {
                    Ok((value, u)) => match expect_spec(t, u, Symbol::Semicolon, "';'"@) {
                        Ok(w) => if sym_at(t, p, Symbol::Const) {
                            Ok((SStmt::Const { name, value }, w))
                        } else {
                            Ok((SStmt::Let { name, value }, w))
                        },
                        Err(x) => Err(x),
                    },
                    Err(x) => Err(x),
                },
                Err(x) => Err(x),
            },
            Err(x) => Err(x),
        }
    }
}

/// `fn name(params) { body }`.
pub open spec fn p_fn(t: Seq<SToken>, p: int) -> PResult<SStmt>
    decreases t.len() - p, 28int,
{
    if !(0 <= p < t.len()) {
        Err(stray())
    } else {
        match p_ident(t, p + 1) {
            Ok((name, q)) => match expect_spec(t, q, Symbol::LParen, "'('"@) {
                Ok(r) => match p_params(t, r) {
                    Ok((params, u)) => match expect_spec(t, u, Symbol::RParen, "')'"@) {
                        Ok(v) => match expect_spec(t, v, Symbol::LBrace, "'{'"@) {
                            Ok(w) => match p_block(t, forward(t, p, w), Seq::empty()) {
                                Ok((body, z)) => Ok((SStmt::Fn { name, params, body }, z)),
                                Err(x) => Err(x),
                            },
                            Err(x) => Err(x),
                        },
                        Err(x) => Err(x),
                    },
                    Err(x) => Err(x),
                },
                Err(x) => Err(x),
            },
            Err(x) => Err(x),
        }
    }
}

/// `if (cond) { ... }`, optionally followed by `else { ... }` or by
/// `else if ...` (read as an else branch holding one `if` statement).
pub open spec fn p_if(t: Seq<SToken>, p: int) -> PResult<SStmt>
    decreases t.len() - p, 28int,
{
    if !(0 <= p < t.len()) {
        Err(stray())
    } else {
        match expect_spec(t, p + 1, Symbol::LParen, "'('"@) {
            Ok(q) => match p_expr(t, q) {
                Ok((cond, r)) => match expect_spec(t, r, Symbol::RParen, "')'"@) {
                    Ok(u) => match expect_spec(t, u, Symbol::LBrace, "'{'"@) {
                        Ok(v) => match p_block(t, forward(t, p, v), Seq::empty()) {
                            Ok((then_branch, w0)) => {
                                let w = forward(t, p, w0);
                                if sym_at(t, w, Symbol::Else) && sym_at(t, w + 1, Symbol::If) {
                                    match p_if(t, w + 1) {
                                        Ok((nested, z)) => Ok(
                                            (
                                                SStmt::If {
                                                    cond,
                                                    then_branch,
                                                    else_branch: Some(seq![nested]),
                                                },
                                                z,
                                            ),
                                        ),
                                        Err(x) => Err(x),
                                    }
                                } else if sym_at(t, w, Symbol::Else) {
                                    match expect_spec(t, w + 1, Symbol::LBrace, "'{'"@) {
                                        Ok(y) => match p_block(t, y, Seq::empty()) {
                                            Ok((else_b, z)) => Ok(
                                                (
                                                    SStmt::If {
                                                        cond,
                                                        then_branch,
                                                        else_branch: Some(else_b),
                                                    },
                                                    z,
                                                ),
                                            ),
                                            Err(x) => Err(x),
                                        },
                                        Err(x) => Err(x),
                                    }
                                } else {
                                    Ok((SStmt::If { cond, then_branch, else_branch: None }, w))
                                }
                            },
                            Err(x) => Err(x),
                        },
                        Err(x) => Err(x),
                    },
                    Err(x) => Err(x),
                },
                Err(x) => Err(x),
            },
            Err(x) => Err(x),
        }
    }
}

/// `while (cond) { body }`.
pub open spec fn p_while(t: Seq<SToken>, p: int) -> PResult<SStmt>
    decreases t.len() - p, 28int,
{
    if !(0 <= p < t.len()) {
        Err(stray())
    } else {
        match expect_spec(t, p + 1, Symbol::LParen, "'('"@) {
            Ok(q) => match p_expr(t, q) {
                Ok((cond, r)) => match expect_spec(t, r, Symbol::RParen, "')'"@) {
                    Ok(u) => match expect_spec(t, u, Symbol::LBrace, "'{'"@) {
                        Ok(v) => match p_block(t, forward(t, p, v), Seq::empty()) {
                            Ok((body, w)) => Ok((SStmt::While { cond, body }, w)),
                            Err(x) => Err(x),
                        },
                        Err(x) => Err(x),
                    },
                    Err(x) => Err(x),
                },
                Err(x) => Err(x),
            },
            Err(x) => Err(x),
        }
    }
}

/// `for (var in iterable) { body }`.
pub open spec fn p_for(t: Seq<SToken>, p: int) -> PResult<SStmt>
    decreases t.len() - p, 28int,
{
    if !(0 <= p < t.len()) {
        Err(stray())
    } else {
        match expect_spec(t, p + 1, Symbol::LParen, "'('"@) {
            Ok(q) => match p_ident(t, q) {
                Ok((var, r)) => match expect_spec(t, r, Symbol::In, "'in'"@) {
                    Ok(u) => match p_expr(t, u) {
                        Ok((iterable, v)) => match expect_spec(t, v, Symbol::RParen, "')'"@) {
                            Ok(w) => match expect_spec(t, w, Symbol::LBrace, "'{'"@) {
                                Ok(y) => match p_block(t, forward(t, p, y), Seq::empty()) {
                                    Ok((body, z)) => Ok((SStmt::For { var, iterable, body }, z)),
                                    Err(x) => Err(x),
                                },
                                Err(x) => Err(x),
                            },
                            Err(x) => Err(x),
                        },
                        Err(x) => Err(x),
                    },
                    Err(x) => Err(x),
                },
                Err(x) => Err(x),
            },
            Err(x) => Err(x),
        }
    }
}

/// `return;` or `return expr;`.
pub open spec fn p_return(t: Seq<SToken>, p: int) -> PResult<SStmt>
    decreases t.len() - p, 28int,
{
    if !(0 <= p < t.len()) {
        Err(stray())
    } else if sym_at(t, p + 1, Symbol::Semicolon) {
        Ok((SStmt::Return(None), adv(t, p + 1)))
    } else {
        match p_expr(t, p + 1) {
            Ok((e, q)) => match expect_spec(t, q, Symbol::Semicolon, "';'"@) {
                Ok(r) => Ok((SStmt::Return(Some(e)), r)),
                Err(x) => Err(x),
            },
            Err(x) => Err(x),
        }
    }
}

/// Whether the token at `q` is an assignment operator (`=`, `+=`, `-=`).
pub open spec fn assign_op_at(t: Seq<SToken>, q: int) -> bool {
    sym_at(t, q, Symbol::Assign) || sym_at(t, q, Symbol::PlusAssign) || sym_at(
        t,
        q,
        Symbol::MinusAssign,
    )
}

/// The value assigned to `e` by the assignment operator at `q` with the
/// right-hand side `v`: `v` for `=`, `e + v` for `+=`, `e - v` for `-=`.
pub open spec fn assigned_value(t: Seq<SToken>, q: int, e: SExpr, v: SExpr) -> SExpr {
    if sym_at(t, q, Symbol::PlusAssign) {
        bin(BinOp::Add, e, v)
    } else if sym_at(t, q, Symbol::MinusAssign) {
        bin(BinOp::Sub, e, v)
    } else {
        v
    }
}

/// The right-hand side of an assignment: an expression, or, when an
/// assignment operator follows it, a further assignment whose value is
/// the value of the whole (assignment is right-associative).
pub open spec fn p_assign_value(t: Seq<SToken>, p: int) -> PResult<SExpr>
    decreases t.len() - p, 21int,
{
    if !(0 <= p < t.len()) {
        Err(stray())
    } else {
        match p_expr(t, p) {
            Ok((e, q0)) => {
                let q = forward(t, p, q0);
                if assign_op_at(t, q) {
                    match p_assign_value(t, q + 1) {
                        Ok((v, r)) => Ok(
                            (
                                SExpr::Assign {
                                    target: Box::new(e),
                                    value: Box::new(assigned_value(t, q, e, v)),
                                },
                                r,
                            ),
                        ),
                        Err(x) => Err(x),
                    }
                } else {
                    Ok((e, q))
                }
            },
            Err(x) => Err(x),
        }
    }
}

/// An expression statement `e;` or an assignment `e = v;`, `e += v;`
/// (read as `e = e + v`), `e -= v;` (read as `e = e - v`), where `v` may
/// itself be an assignment.
pub open spec fn p_expr_or_assign(t: Seq<SToken>, p: int) -> PResult<SStmt>
    decreases t.len() - p, 28int,
{
    if !(0 <= p < t.len()) {
        Err(stray())
    } else {
        match p_expr(t, p) {
            Ok((e, q0)) => {
                let q = forward(t, p, q0);
                let parsed: PResult<SStmt> = if assign_op_at(t, q) {
                    match p_assign_value(t, q + 1) {
                        Ok((v, r)) => Ok(
                            (SStmt::Assign { target: e, value: assigned_value(t, q, e, v) }, r),
                        ),
                        Err(x) => Err(x),
                    }
                } else {
                    Ok((SStmt::ExprStmt(e), q))
                };
                match parsed {
                    Ok((s, r)) => match expect_spec(t, r, Symbol::Semicolon, "';'"@) {
                        Ok(u) => Ok((s, u)),
                        Err(x) => Err(x),
                    },
                    Err(x) => Err(x),
                }
            },
            Err(x) => Err(x),
        }
    }
}

/// The statements of a program from `p` to the end of input, after the
/// statements `acc`.
pub open spec fn p_program(t: Seq<SToken>, p: int, acc: Seq<SStmt>) -> Result<
    Seq<SStmt>,
    SParseError,
>
    decreases t.len() - p,
{
    if at_end(t, p) {
        Ok(acc)
    } else {
        match p_stmt(t, p) {
            Ok((s, q)) => p_program(t, forward(t, p, q), acc.push(s)),
            Err(x) => Err(x),
        }
    }
}

/// The program that the tokens `t` spell, or the first syntax error.
pub open spec fn parse_spec(t: Seq<SToken>) -> Result<Seq<SStmt>, SParseError> {
    p_program(t, 0, Seq::empty())
}

/// Some token at or after `p` marks the end of input.
pub open spec fn has_eof_from(t: Seq<SToken>, p: int) -> bool {
    exists|j: int| p <= j < t.len() && #[trigger] t[j].kind == STokenKind::Sym(Symbol::Eof)
}

// ─── Outcome predicates ──────────────────────────────────────

/// `r` is what the spec result `spec` describes, for an expression.
pub open spec fn expr_outcome(spec: PResult<SExpr>, r: Result<(Expr, usize), ParseError>) -> bool {
    match spec {
        Ok((v, q)) => r matches Ok((x, u)) && x@ == v && u == q,
        Err(e) => r matches Err(x) && x@ == e,
    }
}

/// `r` is what the spec result `spec` describes, for a statement.
pub open spec fn stmt_outcome(spec: PResult<SStmt>, r: Result<(Stmt, usize), ParseError>) -> bool {
    match spec {
        Ok((v, q)) => r matches Ok((x, u)) && x@ == v && u == q,
        Err(e) => r matches Err(x) && x@ == e,
    }
}

/// `r` is what the spec result `spec` describes, for a list of statements.
pub open spec fn stmts_outcome(spec: PResult<Seq<SStmt>>, r: Result<(Vec<Stmt>, usize), ParseError>) -> bool {
    match spec {
        Ok((v, q)) => r matches Ok((x, u)) && stmts_view(x@) == v && u == q,
        Err(e) => r matches Err(x) && x@ == e,
    }
}

/// `r` is what the spec result `spec` describes, for a list of expressions.
pub open spec fn exprs_outcome(spec: PResult<Seq<SExpr>>, r: Result<(Vec<Expr>, usize), ParseError>) -> bool {
    match spec {
        Ok((v, q)) => r matches Ok((x, u)) && exprs_view(x@) == v && u == q,
        Err(e) => r matches Err(x) && x@ == e,
    }
}

/// `r` is what the spec result `spec` describes, for a list of names.
pub open spec fn names_outcome(spec: PResult<Seq<Seq<char>>>, r: Result<(Vec<String>, usize), ParseError>) -> bool {
    match spec {
        Ok((v, q)) => r matches Ok((x, u)) && names_view(x@) == v && u == q,
        Err(e) => r matches Err(x) && x@ == e,
    }
}

/// `r` is what the spec result `spec` describes, for a name.
pub open spec fn name_outcome(spec: PResult<Seq<char>>, r: Result<(String, usize), ParseError>) -> bool {
    match spec {
        Ok((v, q)) => r matches Ok((x, u)) && x@ == v && u == q,
        Err(e) => r matches Err(x) && x@ == e,
    }
}

/// A successful parse from `p` ends at a position `q` past `p` (or at `p`
/// itself when `strict` is false), with the end of input still ahead.
pub open spec fn advanced<X>(t: Seq<SToken>, p: usize, r: Result<(X, usize), ParseError>, strict: bool) -> bool {
    r matches Ok((_, q)) ==> (if strict { p < q } else { p <= q }) && has_eof_from(t, q as int)
}

// ─── Laws of precedence ──────────────────────────────────────

/// The expression a single-token operand denotes: a number or a name.
pub open spec fn atom_expr(k: STokenKind) -> Option<SExpr> {
    match k {
        STokenKind::Int(n) => Some(SExpr::Int(n)),
        STokenKind::Ident(x) => Some(SExpr::Ident(x)),
        _ => None,
    }
}

/// The comparison operator (`< > <= >=`) a token denotes.
pub open spec fn comparison_op(k: STokenKind) -> Option<BinOp> {
    if k == STokenKind::Sym(Symbol::Lt) {
        Some(BinOp::Lt)
    } else if k == STokenKind::Sym(Symbol::Gt) {
        Some(BinOp::Gt)
    } else if k == STokenKind::Sym(Symbol::LtEq) {
        Some(BinOp::LtEq)
    } else if k == STokenKind::Sym(Symbol::GtEq) {
        Some(BinOp::GtEq)
    } else {
        None
    }
}

/// The equality operator (`== !=`) a token denotes.
pub open spec fn equality_op(k: STokenKind) -> Option<BinOp> {
    if k == STokenKind::Sym(Symbol::Eq) {
        Some(BinOp::Eq)
    } else if k == STokenKind::Sym(Symbol::NotEq) {
        Some(BinOp::NotEq)
    } else {
        None
    }
}

/// A token that ends an expression: `;`, `)` or the end of input.
pub open spec fn closes_expr(k: STokenKind) -> bool {
    k == STokenKind::Sym(Symbol::Semicolon) || k == STokenKind::Sym(Symbol::RParen) || k
        == STokenKind::Sym(Symbol::Eof)
}

/// The precedence of a binary operator token, from the loosest to the
/// tightest: `||` 1, `&&` 2, `== !=` 3, `< > <= >=` 4, `+ -` 5,
/// `* / %` 6; 0 for any other token.
pub open spec fn precedence(k: STokenKind) -> int {
    match k {
        STokenKind::Sym(Symbol::Or) => 1,
        STokenKind::Sym(Symbol::And) => 2,
        STokenKind::Sym(Symbol::Eq) => 3,
        STokenKind::Sym(Symbol::NotEq) => 3,
        STokenKind::Sym(Symbol::Lt) => 4,
        STokenKind::Sym(Symbol::Gt) => 4,
        STokenKind::Sym(Symbol::LtEq) => 4,
        STokenKind::Sym(Symbol::GtEq) => 4,
        STokenKind::Sym(Symbol::Plus) => 5,
        STokenKind::Sym(Symbol::Minus) => 5,
        STokenKind::Sym(Symbol::Star) => 6,
        STokenKind::Sym(Symbol::Slash) => 6,
        STokenKind::Sym(Symbol::Percent) => 6,
        _ => 0,
    }
}

/// The binary operator a token denotes.
pub open spec fn binary_op(k: STokenKind) -> Option<BinOp> {
    match k {
        STokenKind::Sym(Symbol::Or) => Some(BinOp::Or),
        STokenKind::Sym(Symbol::And) => Some(BinOp::And),
        STokenKind::Sym(Symbol::Eq) => Some(BinOp::Eq),
        STokenKind::Sym(Symbol::NotEq) => Some(BinOp::NotEq),
        STokenKind::Sym(Symbol::Lt) => Some(BinOp::Lt),
        STokenKind::Sym(Symbol::Gt) => Some(BinOp::Gt),
        STokenKind::Sym(Symbol::LtEq) => Some(BinOp::LtEq),
        STokenKind::Sym(Symbol::GtEq) => Some(BinOp::GtEq),
        STokenKind::Sym(Symbol::Plus) => Some(BinOp::Add),
        STokenKind::Sym(Symbol::Minus) => Some(BinOp::Sub),
        STokenKind::Sym(Symbol::Star) => Some(BinOp::Mul),
        STokenKind::Sym(Symbol::Slash) => Some(BinOp::Div),
        STokenKind::Sym(Symbol::Percent) => Some(BinOp::Mod),
        _ => None,
    }
}

/// The parser reads each binary operator at its precedence and nowhere
/// else.
pub proof fn lemma_level_op_precedence(lv: int, k: STokenKind)
    ensures
        level_op(lv, k) == (if 1 <= lv && lv == precedence(k) {
            binary_op(k)
        } else {
            None
        }),
        binary_op(k) is Some <==> 1 <= precedence(k) <= 6,
{
}

/// An operand token followed by a token that is neither a call nor an
/// index nor an operator of precedence `lv` or more is, from level `lv`
/// on, that operand alone.
proof fn lemma_atom_operand(t: Seq<SToken>, p: int, lv: int)
    requires
        0 <= p,
        p + 1 < t.len(),
        atom_expr(t[p].kind) is Some,
        1 <= lv <= 7,
        binary_op(t[p + 1].kind) is Some || closes_expr(t[p + 1].kind),
        precedence(t[p + 1].kind) < lv,
    ensures
        p_binary(t, p, lv) == Ok::<(SExpr, int), SParseError>((atom_expr(t[p].kind)->0, p + 1)),
    decreases 7 - lv,
{
    let a = atom_expr(t[p].kind)->0;
    if lv == 7 {
        assert(p_primary(t, p) == Ok::<(SExpr, int), SParseError>((a, p + 1)));
        assert(p_postfix_rest(t, p + 1, a) == Ok::<(SExpr, int), SParseError>((a, p + 1)));
        assert(p_postfix(t, p) == Ok::<(SExpr, int), SParseError>((a, p + 1)));
        assert(p_unary(t, p) == Ok::<(SExpr, int), SParseError>((a, p + 1)));
    } else {
        lemma_atom_operand(t, p, lv + 1);
        lemma_level_op_precedence(lv, t[p + 1].kind);
        assert(p_binary_rest(t, p + 1, lv, a) == Ok::<(SExpr, int), SParseError>((a, p + 1)));
    }
}

/// `a op b` followed by a token that is neither a call nor an index nor
/// an operator of precedence `lv` or more is, from any level `lv` up to
/// the precedence of `op`, the node `a op b`.
proof fn lemma_two_operands(t: Seq<SToken>, p: int, lv: int)
    requires
        0 <= p,
        p + 3 < t.len(),
        atom_expr(t[p].kind) is Some,
        binary_op(t[p + 1].kind) is Some,
        atom_expr(t[p + 2].kind) is Some,
        binary_op(t[p + 3].kind) is Some || closes_expr(t[p + 3].kind),
        precedence(t[p + 3].kind) < lv,
        1 <= lv <= precedence(t[p + 1].kind),
    ensures
        p_binary(t, p, lv) == Ok::<(SExpr, int), SParseError>(
            (
                bin(binary_op(t[p + 1].kind)->0, atom_expr(t[p].kind)->0, atom_expr(t[p + 2].kind)->0),
                p + 3,
            ),
        ),
    decreases precedence(t[p + 1].kind) - lv,
{
    let i = precedence(t[p + 1].kind);
    let a = atom_expr(t[p].kind)->0;
    let b = atom_expr(t[p + 2].kind)->0;
    let ab = bin(binary_op(t[p + 1].kind)->0, a, b);
    lemma_level_op_precedence(lv, t[p + 1].kind);
    lemma_level_op_precedence(lv, t[p + 3].kind);
    if lv == i {
        lemma_atom_operand(t, p, i + 1);
        lemma_atom_operand(t, p + 2, i + 1);
        assert(p_binary_rest(t, p + 3, i, ab) == Ok::<(SExpr, int), SParseError>((ab, p + 3)));
        assert(p_binary_rest(t, p + 1, i, a) == Ok::<(SExpr, int), SParseError>((ab, p + 3)));
    } else {
        lemma_two_operands(t, p, lv + 1);
        assert(p_binary_rest(t, p + 3, lv, ab) == Ok::<(SExpr, int), SParseError>((ab, p + 3)));
    }
}

/// The expression `a op1 b op2 c` from level `lv` on, for `lv` up to both
/// precedences.
proof fn lemma_three_operands(t: Seq<SToken>, p: int, lv: int)
    requires
        0 <= p,
        p + 5 < t.len(),
        atom_expr(t[p].kind) is Some,
        binary_op(t[p + 1].kind) is Some,
        atom_expr(t[p + 2].kind) is Some,
        binary_op(t[p + 3].kind) is Some,
        atom_expr(t[p + 4].kind) is Some,
        closes_expr(t[p + 5].kind),
        1 <= lv,
        lv <= precedence(t[p + 1].kind),
        lv <= precedence(t[p + 3].kind),
    ensures
        p_binary(t, p, lv) == Ok::<(SExpr, int), SParseError>((three_operands(t, p), p + 5)),
    decreases 7 - lv,
{
    let i = precedence(t[p + 1].kind);
    let j = precedence(t[p + 3].kind);
    let a = atom_expr(t[p].kind)->0;
    let b = atom_expr(t[p + 2].kind)->0;
    let c = atom_expr(t[p + 4].kind)->0;
    let o1 = binary_op(t[p + 1].kind)->0;
    let o2 = binary_op(t[p + 3].kind)->0;
    let e = three_operands(t, p);
    lemma_level_op_precedence(lv, t[p + 1].kind);
    lemma_level_op_precedence(lv, t[p + 3].kind);
    lemma_level_op_precedence(lv, t[p + 5].kind);
    if lv < i && lv < j {
        lemma_three_operands(t, p, lv + 1);
        assert(p_binary_rest(t, p + 5, lv, e) == Ok::<(SExpr, int), SParseError>((e, p + 5)));
    } else if i < j {
        lemma_atom_operand(t, p, i + 1);
        lemma_two_operands(t, p + 2, i + 1);
        assert(p_binary_rest(t, p + 5, i, e) == Ok::<(SExpr, int), SParseError>((e, p + 5)));
        assert(p_binary_rest(t, p + 1, i, a) == Ok::<(SExpr, int), SParseError>((e, p + 5)));
    } else if i == j {
        let ab = bin(o1, a, b);
        lemma_atom_operand(t, p, i + 1);
        lemma_atom_operand(t, p + 2, i + 1);
        lemma_atom_operand(t, p + 4, i + 1);
        assert(p_binary_rest(t, p + 5, i, e) == Ok::<(SExpr, int), SParseError>((e, p + 5)));
        assert(p_binary_rest(t, p + 3, i, ab) == Ok::<(SExpr, int), SParseError>((e, p + 5)));
        assert(p_binary_rest(t, p + 1, i, a) == Ok::<(SExpr, int), SParseError>((e, p + 5)));
    } else {
        let ab = bin(o1, a, b);
        lemma_two_operands(t, p, j + 1);
        lemma_atom_operand(t, p + 4, j + 1);
        assert(p_binary_rest(t, p + 5, j, e) == Ok::<(SExpr, int), SParseError>((e, p + 5)));
        assert(p_binary_rest(t, p + 3, j, ab) == Ok::<(SExpr, int), SParseError>((e, p + 5)));
    }
}

/// How `a op1 b op2 c` groups: around `op2` first when it binds tighter
/// than `op1`, else around `op1` first (operators of one precedence
/// group to the left).
pub open spec fn three_operands(t: Seq<SToken>, p: int) -> SExpr {
    let a = atom_expr(t[p].kind)->0;
    let b = atom_expr(t[p + 2].kind)->0;
    let c = atom_expr(t[p + 4].kind)->0;
    let o1 = binary_op(t[p + 1].kind)->0;
    let o2 = binary_op(t[p + 3].kind)->0;
    if precedence(t[p + 1].kind) < precedence(t[p + 3].kind) {
        bin(o1, a, bin(o2, b, c))
    } else {
        bin(o2, bin(o1, a, b), c)
    }
}

/// Operator precedence and associativity: `a op1 b op2 c` (numbers or
/// names for operands, any two binary operators, then `;`, `)` or the
/// end) parses as `a op1 (b op2 c)` when `op2` binds tighter than `op1`
/// and as `(a op1 b) op2 c` otherwise; so `*` groups before `+`, `+`
/// before `<`, `<` before `==`, `==` before `&&`, `&&` before `||`, and
/// `a - b - c` is `(a - b) - c`.
pub proof fn lemma_precedence_and_grouping(t: Seq<SToken>, p: int)
    requires
        0 <= p,
        p + 5 < t.len(),
        atom_expr(t[p].kind) is Some,
        binary_op(t[p + 1].kind) is Some,
        atom_expr(t[p + 2].kind) is Some,
        binary_op(t[p + 3].kind) is Some,
        atom_expr(t[p + 4].kind) is Some,
        closes_expr(t[p + 5].kind),
    ensures
        p_expr(t, p) == Ok::<(SExpr, int), SParseError>((three_operands(t, p), p + 5)),
{
    lemma_level_op_precedence(1, t[p + 1].kind);
    lemma_level_op_precedence(1, t[p + 3].kind);
    lemma_three_operands(t, p, 1);
}

/// Comparisons bind tighter than equality: `a < b == c < d` (with any of
/// `< > <= >=` and either of `== !=`, and numbers or names for operands)
/// parses as `(a < b) == (c < d)`.
pub proof fn lemma_comparison_binds_tighter_than_equality(t: Seq<SToken>, p: int)
    requires
        0 <= p,
        p + 7 < t.len(),
        atom_expr(t[p].kind) is Some,
        comparison_op(t[p + 1].kind) is Some,
        atom_expr(t[p + 2].kind) is Some,
        equality_op(t[p + 3].kind) is Some,
        atom_expr(t[p + 4].kind) is Some,
        comparison_op(t[p + 5].kind) is Some,
        atom_expr(t[p + 6].kind) is Some,
        closes_expr(t[p + 7].kind),
    ensures
        p_expr(t, p) == Ok::<(SExpr, int), SParseError>(
            (
                bin(
                    equality_op(t[p + 3].kind)->0,
                    bin(
                        comparison_op(t[p + 1].kind)->0,
                        atom_expr(t[p].kind)->0,
                        atom_expr(t[p + 2].kind)->0,
                    ),
                    bin(
                        comparison_op(t[p + 5].kind)->0,
                        atom_expr(t[p + 4].kind)->0,
                        atom_expr(t[p + 6].kind)->0,
                    ),
                ),
                p + 7,
            ),
        ),
{
    let a = atom_expr(t[p].kind)->0;
    let b = atom_expr(t[p + 2].kind)->0;
    let c = atom_expr(t[p + 4].kind)->0;
    let d = atom_expr(t[p + 6].kind)->0;
    let ab = bin(comparison_op(t[p + 1].kind)->0, a, b);
    let cd = bin(comparison_op(t[p + 5].kind)->0, c, d);
    let e = bin(equality_op(t[p + 3].kind)->0, ab, cd);
    lemma_level_op_precedence(5, t[p + 1].kind);
    lemma_level_op_precedence(5, t[p + 3].kind);
    lemma_level_op_precedence(5, t[p + 5].kind);
    lemma_level_op_precedence(5, t[p + 7].kind);
    lemma_atom_operand(t, p, 5);
    lemma_atom_operand(t, p + 2, 5);
    lemma_atom_operand(t, p + 4, 5);
    lemma_atom_operand(t, p + 6, 5);
    assert(level_op(4, t[p + 1].kind) == comparison_op(t[p + 1].kind));
    assert(level_op(4, t[p + 5].kind) == comparison_op(t[p + 5].kind));
    assert(level_op(3, t[p + 3].kind) == equality_op(t[p + 3].kind));
    assert(level_op(4, t[p + 3].kind) is None);
    assert(level_op(4, t[p + 7].kind) is None);
    assert(level_op(3, t[p + 7].kind) is None);
    assert(level_op(2, t[p + 7].kind) is None);
    assert(level_op(1, t[p + 7].kind) is None);
    assert(p_binary_rest(t, p + 3, 4, ab) == Ok::<(SExpr, int), SParseError>((ab, p + 3)));
    assert(p_binary_rest(t, p + 1, 4, a) == Ok::<(SExpr, int), SParseError>((ab, p + 3)));
    assert(p_binary(t, p, 4) == Ok::<(SExpr, int), SParseError>((ab, p + 3)));
    assert(p_binary_rest(t, p + 7, 4, cd) == Ok::<(SExpr, int), SParseError>((cd, p + 7)));
    assert(p_binary_rest(t, p + 5, 4, c) == Ok::<(SExpr, int), SParseError>((cd, p + 7)));
    assert(p_binary(t, p + 4, 4) == Ok::<(SExpr, int), SParseError>((cd, p + 7)));
    assert(p_binary_rest(t, p + 7, 3, e) == Ok::<(SExpr, int), SParseError>((e, p + 7)));
    assert(p_binary_rest(t, p + 3, 3, ab) == Ok::<(SExpr, int), SParseError>((e, p + 7)));
    assert(p_binary(t, p, 3) == Ok::<(SExpr, int), SParseError>((e, p + 7)));
    assert(p_binary_rest(t, p + 7, 2, e) == Ok::<(SExpr, int), SParseError>((e, p + 7)));
    assert(p_binary(t, p, 2) == Ok::<(SExpr, int), SParseError>((e, p + 7)));
    assert(p_binary_rest(t, p + 7, 1, e) == Ok::<(SExpr, int), SParseError>((e, p + 7)));
    assert(p_binary(t, p, 1) == Ok::<(SExpr, int), SParseError>((e, p + 7)));
}

// ─── Token helpers ───────────────────────────────────────────

proof fn lemma_in_range(t: Seq<SToken>, p: int)
    requires
        has_eof_from(t, p),
    ensures
        p < t.len(),
{
}

/// Reading a token that is not the end of input keeps the end ahead.
proof fn lemma_step(t: Seq<SToken>, p: int)
    requires
        has_eof_from(t, p),
    ensures
        has_eof_from(t, adv(t, p)),
        p <= adv(t, p) < t.len(),
{
    let j = choose|j: int| p <= j < t.len() && #[trigger] t[j].kind == STokenKind::Sym(Symbol::Eof);
    if !at_end(t, p) {
        assert(j != p);
        assert(p + 1 <= j < t.len() && t[j].kind == STokenKind::Sym(Symbol::Eof));
    }
}

/// Whether the token at `p` is the fixed token `s`.
fn check(t: &Vec<Token>, p: usize, s: Symbol) -> (r: bool)
    requires
        p < t@.len(),
    ensures
        r == sym_at(tokens_view(t@), p as int, s),
{
    match &t[p].kind {
        TokenKind::Sym(k) => *k == s,
        _ => false,
    }
}

/// Whether `p` is at the end of input.
fn is_at_end(t: &Vec<Token>, p: usize) -> (r: bool)
    requires
        p < t@.len(),
    ensures
        r == at_end(tokens_view(t@), p as int),
{
    check(t, p, Symbol::Eof)
}

/// The position after reading the token at `p`.
fn advance(t: &Vec<Token>, p: usize) -> (r: usize)
    requires
        has_eof_from(tokens_view(t@), p as int),
    ensures
        r == adv(tokens_view(t@), p as int),
        has_eof_from(tokens_view(t@), r as int),
{
    proof {
        lemma_step(tokens_view(t@), p as int);
        lemma_in_range(tokens_view(t@), p as int);
        assert(tokens_view(t@).len() == t@.len());
        assert(p < t.len());
    }
    if is_at_end(t, p) {
        p
    } else {
        p + 1
    }
}

/// An error located at the token at `p`.
fn error_at(t: &Vec<Token>, p: usize, msg: String) -> (r: ParseError)
    requires
        p < t@.len(),
    ensures
        r@ == err_at(tokens_view(t@), p as int, msg@),
{
    ParseError { msg, line: t[p].line, col: t[p].col }
}

/// `expected {what}, got '{kind}'`.
fn expected_message(what: &str, k: &TokenKind) -> (r: String)
    ensures
        r@ == expected_msg(what@, k@),
{
    let mut s = String::from_str("expected ");
    s.append(what);
    s.append(", got '");
    let d = k.describe();
    s.append(d.as_str());
    s.append("'");
    assert(s@ =~= expected_msg(what@, k@));
    s
}

/// `{prefix}{kind}'`.
fn kind_message(prefix: &str, k: &TokenKind) -> (r: String)
    ensures
        r@ == prefix@ + kind_text(k@) + "'"@,
{
    let mut s = String::from_str(prefix);
    let d = k.describe();
    s.append(d.as_str());
    s.append("'");
    assert(s@ =~= prefix@ + kind_text(k@) + "'"@);
    s
}

/// Reads the fixed token `s`, or fails with "expected {what}".
fn expect(t: &Vec<Token>, p: usize, s: Symbol, what: &str) -> (r: Result<usize, ParseError>)
    requires
        has_eof_from(tokens_view(t@), p as int),
    ensures
        match expect_spec(tokens_view(t@), p as int, s, what@) {
            Ok(q) => r matches Ok(u) && u == q,
            Err(e) => r matches Err(x) && x@ == e,
        },
        r matches Ok(u) ==> has_eof_from(tokens_view(t@), u as int),
{
    if check(t, p, s) {
        Ok(advance(t, p))
    } else {
        let msg = expected_message(what, &t[p].kind);
        Err(error_at(t, p, msg))
    }
}

/// An identifier.
fn parse_ident(t: &Vec<Token>, p: usize) -> (r: Result<(String, usize), ParseError>)
    requires
        has_eof_from(tokens_view(t@), p as int),
    ensures
        name_outcome(p_ident(tokens_view(t@), p as int), r),
        advanced(tokens_view(t@), p, r, false),
{
    let q = advance(t, p);
    match &t[p].kind {
        TokenKind::Ident(name) => Ok((name.clone(), q)),
        other => {
            let msg = kind_message("expected identifier, got '", other);
            Err(error_at(t, p, msg))
        },
    }
}

/// A parameter list, possibly empty.
fn parse_params(t: &Vec<Token>, p: usize) -> (r: Result<(Vec<String>, usize), ParseError>)
    requires
        has_eof_from(tokens_view(t@), p as int),
    ensures
        names_outcome(p_params(tokens_view(t@), p as int), r),
        advanced(tokens_view(t@), p, r, false),
{
    let ghost tv = tokens_view(t@);
    let mut params: Vec<String> = Vec::new();
    if check(t, p, Symbol::RParen) {
        assert(names_view(params@) =~= Seq::<Seq<char>>::empty());
        return Ok((params, p));
    }
    let (first, mut q) = parse_ident(t, p)?;
    params.push(first);
    assert(names_view(params@) =~= seq![first@]);
    loop
        invariant
            tv == tokens_view(t@),
            has_eof_from(tv, q as int),
            p <= q,
            p_params(tv, p as int) == p_params_rest(tv, q as int, names_view(params@)),
        decreases tv.len() - q,
    {
        proof {
            lemma_in_range(tv, q as int);
        }
        if !check(t, q, Symbol::Comma) {
            return Ok((params, q));
        }
        let q1 = advance(t, q);
        let (name, q2) = parse_ident(t, q1)?;
        let ghost before = params@;
        params.push(name);
        assert(names_view(params@) =~= names_view(before).push(name@));
        q = q2;
    }
}

// ─── Expressions ─────────────────────────────────────────────

/// An expression.
fn parse_expr(t: &Vec<Token>, p: usize) -> (r: Result<(Expr, usize), ParseError>)
    requires
        has_eof_from(tokens_view(t@), p as int),
    ensures
        expr_outcome(p_expr(tokens_view(t@), p as int), r),
        advanced(tokens_view(t@), p, r, true),
    decreases t@.len() - p, 20int,
{
    proof {
        lemma_in_range(tokens_view(t@), p as int);
    }
    parse_binary(t, p, 1)
}

/// The operator that level `lv` reads at `p`, if any.
fn level_op_at(t: &Vec<Token>, p: usize, lv: u8) -> (r: Option<BinOp>)
    requires
        p < t@.len(),
    ensures
        r == level_op(lv as int, tokens_view(t@)[p as int].kind),
{
    match &t[p].kind {
        TokenKind::Sym(s) => {
            let s = *s;
            if lv == 1 && s == Symbol::Or {
                Some(BinOp::Or)
            } else if lv == 2 && s == Symbol::And {
                Some(BinOp::And)
            } else if lv == 3 && s == Symbol::Eq {
                Some(BinOp::Eq)
            } else if lv == 3 && s == Symbol::NotEq {
                Some(BinOp::NotEq)
            } else if lv == 4 && s == Symbol::Lt {
                Some(BinOp::Lt)
            } else if lv == 4 && s == Symbol::Gt {
                Some(BinOp::Gt)
            } else if lv == 4 && s == Symbol::LtEq {
                Some(BinOp::LtEq)
            } else if lv == 4 && s == Symbol::GtEq {
                Some(BinOp::GtEq)
            } else if lv == 5 && s == Symbol::Plus {
                Some(BinOp::Add)
            } else if lv == 5 && s == Symbol::Minus {
                Some(BinOp::Sub)
            } else if lv == 6 && s == Symbol::Star {
                Some(BinOp::Mul)
            } else if lv == 6 && s == Symbol::Slash {
                Some(BinOp::Div)
            } else if lv == 6 && s == Symbol::Percent {
                Some(BinOp::Mod)
            } else {
                None
            }
        },
        _ => None,
    }
}

/// An expression at precedence level `lv` (1 for `||` up to 6 for
/// `* / %`; 7 for a unary expression); operators of a level associate to
/// the left.
fn parse_binary(t: &Vec<Token>, p: usize, lv: u8) -> (r: Result<(Expr, usize), ParseError>)
    requires
        has_eof_from(tokens_view(t@), p as int),
        1 <= lv <= 7,
    ensures
        expr_outcome(p_binary(tokens_view(t@), p as int, lv as int), r),
        advanced(tokens_view(t@), p, r, true),
    decreases t@.len() - p, 19 - lv,
{
    let ghost tv = tokens_view(t@);
    proof {
        lemma_in_range(tv, p as int);
    }
    if lv == 7 {
        return parse_unary(t, p);
    }
    let (mut left, mut q) = parse_binary(t, p, lv + 1)?;
    loop
        invariant
            tv == tokens_view(t@),
            1 <= lv <= 6,
            has_eof_from(tv, q as int),
            p < q,
            p_binary(tv, p as int, lv as int) == p_binary_rest(tv, q as int, lv as int, left@),
        decreases tv.len() - q,
    {
        proof {
            lemma_in_range(tv, q as int);
        }
        match level_op_at(t, q, lv) {
            Some(op) => {
                let q1 = advance(t, q);
                let (right, q2) = parse_binary(t, q1, lv + 1)?;
                left = Expr::BinOp { op, left: Box::new(left), right: Box::new(right) };
                q = q2;
            },
            None => {
                return Ok((left, q));
            },
        }
    }
}

/// A unary expression.
fn parse_unary(t: &Vec<Token>, p: usize) -> (r: Result<(Expr, usize), ParseError>)
    requires
        has_eof_from(tokens_view(t@), p as int),
    ensures
        expr_outcome(p_unary(tokens_view(t@), p as int), r),
        advanced(tokens_view(t@), p, r, true),
    decreases t@.len() - p, 11int,
{
    proof {
        lemma_in_range(tokens_view(t@), p as int);
    }
    let op = if check(t, p, Symbol::Bang) {
        Some(UnaryOp::Not)
    } else if check(t, p, Symbol::Minus) {
        Some(UnaryOp::Neg)
    } else {
        None
    };
    match op {
        Some(op) => {
            let q = advance(t, p);
            let (operand, r) = parse_unary(t, q)?;
            Ok((Expr::UnaryOp { op, operand: Box::new(operand) }, r))
        },
        None => parse_postfix(t, p),
    }
}

/// A primary followed by calls and indexings.
fn parse_postfix(t: &Vec<Token>, p: usize) -> (r: Result<(Expr, usize), ParseError>)
    requires
        has_eof_from(tokens_view(t@), p as int),
    ensures
        expr_outcome(p_postfix(tokens_view(t@), p as int), r),
        advanced(tokens_view(t@), p, r, true),
    decreases t@.len() - p, 10int,
{
    let ghost tv = tokens_view(t@);
    proof {
        lemma_in_range(tv, p as int);
    }
    let (mut expr, mut q) = parse_primary(t, p)?;
    loop
        invariant
            tv == tokens_view(t@),
            has_eof_from(tv, q as int),
            p < q,
            p_postfix(tv, p as int) == p_postfix_rest(tv, q as int, expr@),
        decreases tv.len() - q,
    {
        proof {
            lemma_in_range(tv, q as int);
        }
        if check(t, q, Symbol::LParen) {
            let q1 = advance(t, q);
            let (args, q2) = parse_call_args(t, q1)?;
            let q3 = expect(t, q2, Symbol::RParen, "')'")?;
            expr = Expr::Call { callee: Box::new(expr), args };
            q = q3;
        } else if check(t, q, Symbol::LBracket) {
            let q1 = advance(t, q);
            let (index, q2) = parse_expr(t, q1)?;
            let q3 = expect(t, q2, Symbol::RBracket, "']'")?;
            expr = Expr::Index { target: Box::new(expr), index: Box::new(index) };
            q = q3;
        } else {
            return Ok((expr, q));
        }
    }
}

/// The arguments of a call, possibly none.
fn parse_call_args(t: &Vec<Token>, p: usize) -> (r: Result<(Vec<Expr>, usize), ParseError>)
    requires
        has_eof_from(tokens_view(t@), p as int),
    ensures
        exprs_outcome(p_call_args(tokens_view(t@), p as int), r),
        advanced(tokens_view(t@), p, r, false),
    decreases t@.len() - p, 21int,
{
    let ghost tv = tokens_view(t@);
    proof {
        lemma_in_range(tv, p as int);
    }
    let mut args: Vec<Expr> = Vec::new();
    if check(t, p, Symbol::RParen) {
        assert(exprs_view(args@) =~= Seq::<SExpr>::empty());
        return Ok((args, p));
    }
    let (first, mut q) = parse_expr(t, p)?;
    let ghost e0 = args@;
    args.push(first);
    proof {
        lemma_exprs_view_push(e0, first);
        assert(exprs_view(args@) =~= seq![first@]);
    }
    loop
        invariant
            tv == tokens_view(t@),
            has_eof_from(tv, q as int),
            p < q,
            p_call_args(tv, p as int) == p_args_rest(tv, q as int, exprs_view(args@)),
        decreases tv.len() - q,
    {
        proof {
            lemma_in_range(tv, q as int);
        }
        if !check(t, q, Symbol::Comma) {
            return Ok((args, q));
        }
        let q1 = advance(t, q);
        let (e, q2) = parse_expr(t, q1)?;
        let ghost before = args@;
        args.push(e);
        proof {
            lemma_exprs_view_push(before, e);
        }
        q = q2;
    }
}

/// The elements and closing bracket of an array literal.
fn parse_array(t: &Vec<Token>, p: usize) -> (r: Result<(Expr, usize), ParseError>)
    requires
        has_eof_from(tokens_view(t@), p as int),
    ensures
        expr_outcome(p_array(tokens_view(t@), p as int), r),
        advanced(tokens_view(t@), p, r, true),
    decreases t@.len() - p, 21int,
{
    let ghost tv = tokens_view(t@);
    proof {
        lemma_in_range(tv, p as int);
    }
    let mut elements: Vec<Expr> = Vec::new();
    if check(t, p, Symbol::RBracket) {
        let q = expect(t, p, Symbol::RBracket, "']'")?;
        assert(exprs_view(elements@) =~= Seq::<SExpr>::empty());
        return Ok((Expr::Array(elements), q));
    }
    let (first, mut q) = parse_expr(t, p)?;
    let ghost e0 = elements@;
    elements.push(first);
    proof {
        lemma_exprs_view_push(e0, first);
        assert(exprs_view(elements@) =~= seq![first@]);
    }
    loop
        invariant
            tv == tokens_view(t@),
            has_eof_from(tv, q as int),
            p < q,
            p_array(tv, p as int) == p_elems_rest(tv, q as int, exprs_view(elements@)),
        decreases tv.len() - q,
    {
        proof {
            lemma_in_range(tv, q as int);
        }
        if check(t, q, Symbol::Comma) {
            let q1 = advance(t, q);
            if check(t, q1, Symbol::RBracket) {
                let q2 = expect(t, q1, Symbol::RBracket, "']'")?;
                return Ok((Expr::Array(elements), q2));
            }
            let (e, q2) = parse_expr(t, q1)?;
            let ghost before = elements@;
            elements.push(e);
            proof {
                lemma_exprs_view_push(before, e);
            }
            q = q2;
        } else {
            let q2 = expect(t, q, Symbol::RBracket, "']'")?;
            return Ok((Expr::Array(elements), q2));
        }
    }
}

/// A primary expression.
fn parse_primary(t: &Vec<Token>, p: usize) -> (r: Result<(Expr, usize), ParseError>)
    requires
        has_eof_from(tokens_view(t@), p as int),
    ensures
        expr_outcome(p_primary(tokens_view(t@), p as int), r),
        advanced(tokens_view(t@), p, r, true),
    decreases t@.len() - p, 9int,
{
    proof {
        lemma_in_range(tokens_view(t@), p as int);
    }
    let q = advance(t, p);
    match &t[p].kind {
        TokenKind::Int(n) => Ok((Expr::Int(*n), q)),
        TokenKind::Float(x) => Ok((Expr::Float(x.clone()), q)),
        TokenKind::Str(s) => Ok((Expr::Str(s.clone()), q)),
        TokenKind::Ident(n) => Ok((Expr::Ident(n.clone()), q)),
        TokenKind::Sym(Symbol::True) => Ok((Expr::Bool(true), q)),
        TokenKind::Sym(Symbol::False) => Ok((Expr::Bool(false), q)),
        TokenKind::Sym(Symbol::Null) => Ok((Expr::Null, q)),
        TokenKind::Sym(Symbol::LParen) => {
            let (e, q1) = parse_expr(t, q)?;
            let q2 = expect(t, q1, Symbol::RParen, "')'")?;
            Ok((e, q2))
        },
        TokenKind::Sym(Symbol::LBracket) => parse_array(t, q),
        other => {
            let msg = kind_message("unexpected token '", other);
            Err(error_at(t, p, msg))
        },
    }
}

// ─── Statements ──────────────────────────────────────────────

/// The statements and closing brace of a block.
fn parse_block(t: &Vec<Token>, p: usize) -> (r: Result<(Vec<Stmt>, usize), ParseError>)
    requires
        has_eof_from(tokens_view(t@), p as int),
    ensures
        stmts_outcome(p_block(tokens_view(t@), p as int, Seq::empty()), r),
        advanced(tokens_view(t@), p, r, true),
    decreases t@.len() - p, 30int,
{
    let ghost tv = tokens_view(t@);
    let mut stmts: Vec<Stmt> = Vec::new();
    let mut q = p;
    assert(stmts_view(stmts@) =~= Seq::<SStmt>::empty());
    loop
        invariant
            tv == tokens_view(t@),
            has_eof_from(tv, q as int),
            p <= q,
            p_block(tv, p as int, Seq::empty()) == p_block(tv, q as int, stmts_view(stmts@)),
        decreases tv.len() - q,
    {
        proof {
            lemma_in_range(tv, q as int);
        }
        if check(t, q, Symbol::RBrace) || is_at_end(t, q) {
            let q1 = expect(t, q, Symbol::RBrace, "'}'")?;
            return Ok((stmts, q1));
        }
        let (s, q1) = parse_stmt(t, q)?;
        let ghost before = stmts@;
        stmts.push(s);
        proof {
            lemma_stmts_view_push(before, s);
        }
        q = q1;
    }
}

/// A statement.
fn parse_stmt(t: &Vec<Token>, p: usize) -> (r: Result<(Stmt, usize), ParseError>)
    requires
        has_eof_from(tokens_view(t@), p as int),
    ensures
        stmt_outcome(p_stmt(tokens_view(t@), p as int), r),
        advanced(tokens_view(t@), p, r, true),
    decreases t@.len() - p, 29int,
{
    proof {
        lemma_in_range(tokens_view(t@), p as int);
    }
    if check(t, p, Symbol::Let) || check(t, p, Symbol::Const) {
        parse_let(t, p)
    } else if check(t, p, Symbol::Fn) {
        parse_fn(t, p)
    } else if check(t, p, Symbol::If) {
        parse_if(t, p)
    } else if check(t, p, Symbol::While) {
        parse_while(t, p)
    } else if check(t, p, Symbol::For) {
        parse_for(t, p)
    } else if check(t, p, Symbol::Return) {
        parse_return(t, p)
    } else if check(t, p, Symbol::Break) {
        let q = advance(t, p);
        let q1 = expect(t, q, Symbol::Semicolon, "';'")?;
        Ok((Stmt::Break, q1))
    } else if check(t, p, Symbol::Continue) {
        let q = advance(t, p);
        let q1 = expect(t, q, Symbol::Semicolon, "';'")?;
        Ok((Stmt::Continue, q1))
    } else {
        parse_expr_or_assign(t, p)
    }
}

/// `let name = value;` or `const name = value;`.
fn parse_let(t: &Vec<Token>, p: usize) -> (r: Result<(Stmt, usize), ParseError>)
    requires
        has_eof_from(tokens_view(t@), p as int),
        sym_at(tokens_view(t@), p as int, Symbol::Let) || sym_at(tokens_view(t@), p as int, Symbol::Const),
    ensures
        stmt_outcome(p_let(tokens_view(t@), p as int), r),
        advanced(tokens_view(t@), p, r, true),
    decreases t@.len() - p, 28int,
{
    let q = advance(t, p);
    let (name, q1) = parse_ident(t, q)?;
    let q2 = expect(t, q1, Symbol::Assign, "'='")?;
    let (value, q3) = parse_expr(t, q2)?;
    let q4 = expect(t, q3, Symbol::Semicolon, "';'")?;
    if check(t, p, Symbol::Const) {
        Ok((Stmt::Const { name, value }, q4))
    } else {
        Ok((Stmt::Let { name, value }, q4))
    }
}

/// `fn name(params) { body }`.
fn parse_fn(t: &Vec<Token>, p: usize) -> (r: Result<(Stmt, usize), ParseError>)
    requires
        has_eof_from(tokens_view(t@), p as int),
        sym_at(tokens_view(t@), p as int, Symbol::Fn),
    ensures
        stmt_outcome(p_fn(tokens_view(t@), p as int), r),
        advanced(tokens_view(t@), p, r, true),
    decreases t@.len() - p, 28int,
{
    let q = advance(t, p);
    let (name, q1) = parse_ident(t, q)?;
    let q2 = expect(t, q1, Symbol::LParen, "'('")?;
    let (params, q3) = parse_params(t, q2)?;
    let q4 = expect(t, q3, Symbol::RParen, "')'")?;
    let q5 = expect(t, q4, Symbol::LBrace, "'{'")?;
    let (body, q6) = parse_block(t, q5)?;
    Ok((Stmt::Fn { name, params, body }, q6))
}

/// `if (cond) { ... }` with an optional `else` part.
fn parse_if(t: &Vec<Token>, p: usize) -> (r: Result<(Stmt, usize), ParseError>)
    requires
        has_eof_from(tokens_view(t@), p as int),
        sym_at(tokens_view(t@), p as int, Symbol::If),
    ensures
        stmt_outcome(p_if(tokens_view(t@), p as int), r),
        advanced(tokens_view(t@), p, r, true),
    decreases t@.len() - p, 28int,
{
    let q = advance(t, p);
    let q1 = expect(t, q, Symbol::LParen, "'('")?;
    let (cond, q2) = parse_expr(t, q1)?;
    let q3 = expect(t, q2, Symbol::RParen, "')'")?;
    let q4 = expect(t, q3, Symbol::LBrace, "'{'")?;
    let (then_branch, q5) = parse_block(t, q4)?;
    proof {
        lemma_in_range(tokens_view(t@), q5 as int);
    }
    if check(t, q5, Symbol::Else) {
        let q6 = advance(t, q5);
        if check(t, q6, Symbol::If) {
            let (nested, q7) = parse_if(t, q6)?;
            let mut else_branch: Vec<Stmt> = Vec::new();
            else_branch.push(nested);
            proof {
                lemma_stmts_view_push(Seq::empty(), nested);
                assert(Seq::<Stmt>::empty().push(nested) =~= else_branch@);
                assert(stmts_view(Seq::<Stmt>::empty()) =~= Seq::<SStmt>::empty());
                assert(Seq::<SStmt>::empty().push(nested@) =~= seq![nested@]);
            }
            Ok((Stmt::If { cond, then_branch, else_branch: Some(else_branch) }, q7))
        } else {
            let q7 = expect(t, q6, Symbol::LBrace, "'{'")?;
            let (else_b, q8) = parse_block(t, q7)?;
            Ok((Stmt::If { cond, then_branch, else_branch: Some(else_b) }, q8))
        }
    } else {
        Ok((Stmt::If { cond, then_branch, else_branch: None }, q5))
    }
}

/// `while (cond) { body }`.
fn parse_while(t: &Vec<Token>, p: usize) -> (r: Result<(Stmt, usize), ParseError>)
    requires
        has_eof_from(tokens_view(t@), p as int),
        sym_at(tokens_view(t@), p as int, Symbol::While),
    ensures
        stmt_outcome(p_while(tokens_view(t@), p as int), r),
        advanced(tokens_view(t@), p, r, true),
    decreases t@.len() - p, 28int,
{
    let q = advance(t, p);
    let q1 = expect(t, q, Symbol::LParen, "'('")?;
    let (cond, q2) = parse_expr(t, q1)?;
    let q3 = expect(t, q2, Symbol::RParen, "')'")?;
    let q4 = expect(t, q3, Symbol::LBrace, "'{'")?;
    let (body, q5) = parse_block(t, q4)?;
    Ok((Stmt::While { cond, body }, q5))
}

/// `for (var in iterable) { body }`.
fn parse_for(t: &Vec<Token>, p: usize) -> (r: Result<(Stmt, usize), ParseError>)
    requires
        has_eof_from(tokens_view(t@), p as int),
        sym_at(tokens_view(t@), p as int, Symbol::For),
    ensures
        stmt_outcome(p_for(tokens_view(t@), p as int), r),
        advanced(tokens_view(t@), p, r, true),
    decreases t@.len() - p, 28int,
{
    let q = advance(t, p);
    let q1 = expect(t, q, Symbol::LParen, "'('")?;
    let (var, q2) = parse_ident(t, q1)?;
    let q3 = expect(t, q2, Symbol::In, "'in'")?;
    let (iterable, q4) = parse_expr(t, q3)?;
    let q5 = expect(t, q4, Symbol::RParen, "')'")?;
    let q6 = expect(t, q5, Symbol::LBrace, "'{'")?;
    let (body, q7) = parse_block(t, q6)?;
    Ok((Stmt::For { var, iterable, body }, q7))
}

/// `return;` or `return expr;`.
fn parse_return(t: &Vec<Token>, p: usize) -> (r: Result<(Stmt, usize), ParseError>)
    requires
        has_eof_from(tokens_view(t@), p as int),
        sym_at(tokens_view(t@), p as int, Symbol::Return),
    ensures
        stmt_outcome(p_return(tokens_view(t@), p as int), r),
        advanced(tokens_view(t@), p, r, true),
    decreases t@.len() - p, 28int,
{
    let q = advance(t, p);
    proof {
        lemma_in_range(tokens_view(t@), q as int);
    }
    if check(t, q, Symbol::Semicolon) {
        let q1 = advance(t, q);
        return Ok((Stmt::Return(None), q1));
    }
    let (e, q1) = parse_expr(t, q)?;
    let q2 = expect(t, q1, Symbol::Semicolon, "';'")?;
    Ok((Stmt::Return(Some(e)), q2))
}

/// The value assigned to `e` by the assignment operator at `q` with the
/// right-hand side `v`.
fn assigned(t: &Vec<Token>, q: usize, e: &Expr, v: Expr) -> (r: Expr)
    requires
        q < t@.len(),
    ensures
        r@ == assigned_value(tokens_view(t@), q as int, e@, v@),
{
    if check(t, q, Symbol::PlusAssign) {
        Expr::BinOp { op: BinOp::Add, left: Box::new(e.deep_copy()), right: Box::new(v) }
    } else if check(t, q, Symbol::MinusAssign) {
        Expr::BinOp { op: BinOp::Sub, left: Box::new(e.deep_copy()), right: Box::new(v) }
    } else {
        v
    }
}

/// The right-hand side of an assignment, itself possibly an assignment.
fn parse_assign_value(t: &Vec<Token>, p: usize) -> (r: Result<(Expr, usize), ParseError>)
    requires
        has_eof_from(tokens_view(t@), p as int),
    ensures
        expr_outcome(p_assign_value(tokens_view(t@), p as int), r),
        advanced(tokens_view(t@), p, r, true),
    decreases t@.len() - p, 21int,
{
    let ghost tv = tokens_view(t@);
    proof {
        lemma_in_range(tv, p as int);
    }
    let (expr, q) = parse_expr(t, p)?;
    proof {
        lemma_in_range(tv, q as int);
    }
    if check(t, q, Symbol::Assign) || check(t, q, Symbol::PlusAssign) || check(
        t,
        q,
        Symbol::MinusAssign,
    ) {
        let q0 = advance(t, q);
        let (value, q1) = parse_assign_value(t, q0)?;
        let v = assigned(t, q, &expr, value);
        Ok((Expr::Assign { target: Box::new(expr), value: Box::new(v) }, q1))
    } else {
        Ok((expr, q))
    }
}

/// An expression statement or an assignment statement.
fn parse_expr_or_assign(t: &Vec<Token>, p: usize) -> (r: Result<(Stmt, usize), ParseError>)
    requires
        has_eof_from(tokens_view(t@), p as int),
    ensures
        stmt_outcome(p_expr_or_assign(tokens_view(t@), p as int), r),
        advanced(tokens_view(t@), p, r, true),
    decreases t@.len() - p, 28int,
{
    let ghost tv = tokens_view(t@);
    let (expr, q) = parse_expr(t, p)?;
    proof {
        lemma_in_range(tv, q as int);
    }
    let (stmt, q1) = if check(t, q, Symbol::Assign) || check(t, q, Symbol::PlusAssign) || check(
        t,
        q,
        Symbol::MinusAssign,
    ) {
        let q0 = advance(t, q);
        let (value, q1) = parse_assign_value(t, q0)?;
        let v = assigned(t, q, &expr, value);
        (Stmt::Assign { target: expr, value: v }, q1)
    } else {
        (Stmt::ExprStmt(expr), q)
    };
    let q2 = expect(t, q1, Symbol::Semicolon, "';'")?;
    Ok((stmt, q2))
}

// ─── The parser ──────────────────────────────────────────────

/// A parser over a sequence of tokens, with the position of the next one.
pub struct Parser {
    tokens: Vec<Token>,
    pos: usize,
}

impl Parser {
    /// The views of the tokens being parsed.
    pub closed spec fn tokens(&self) -> Seq<SToken> {
        tokens_view(self.tokens@)
    }

    /// The position of the next token.
    pub closed spec fn position(&self) -> int {
        self.pos as int
    }

    /// A parser at the first of `tokens`.
    pub fn new(tokens: Vec<Token>) -> (r: Parser)
        ensures
            r.tokens() == tokens_view(tokens@),
            r.position() == 0,
    {
        Parser { tokens, pos: 0 }
    }

    /// Parses a whole program: statements up to the end-of-input token.
    /// The tokens must hold an end-of-input token (as those of
    /// `Lexer::tokenize` do); reading never goes past the first one.
    pub fn parse(tokens: Vec<Token>) -> (r: Result<Program, ParseError>)
        requires
            has_eof_from(tokens_view(tokens@), 0),
        ensures
            match parse_spec(tokens_view(tokens@)) {
                Ok(stmts) => r matches Ok(prog) && prog@ == stmts,
                Err(e) => r matches Err(x) && x@ == e,
            },
    {
        let parser = Parser::new(tokens);
        let statements = parse_statements(&parser.tokens)?;
        Ok(Program { statements })
    }
}

/// The statements of a whole program.
fn parse_statements(t: &Vec<Token>) -> (r: Result<Vec<Stmt>, ParseError>)
    requires
        has_eof_from(tokens_view(t@), 0),
    ensures
        match parse_spec(tokens_view(t@)) {
            Ok(stmts) => r matches Ok(v) && stmts_view(v@) == stmts,
            Err(e) => r matches Err(x) && x@ == e,
        },
{
    let ghost tv = tokens_view(t@);
    let mut statements: Vec<Stmt> = Vec::new();
    let mut q: usize = 0;
    assert(stmts_view(statements@) =~= Seq::<SStmt>::empty());
    loop
        invariant
            tv == tokens_view(t@),
            has_eof_from(tv, q as int),
            parse_spec(tv) == p_program(tv, q as int, stmts_view(statements@)),
        decreases tv.len() - q,
    {
        proof {
            lemma_in_range(tv, q as int);
        }
        if is_at_end(t, q) {
            return Ok(statements);
        }
        let (s, q1) = parse_stmt(t, q)?;
        let ghost before = statements@;
        statements.push(s);
        proof {
            lemma_stmts_view_push(before, s);
        }
        q = q1;
    }
}

} // verus!

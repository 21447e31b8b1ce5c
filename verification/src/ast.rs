//! The abstract syntax tree: what the parser produces and the interpreter
//! runs.
//!
//! Each node type has a mathematical view (`SExpr`, `SStmt`, `SProgram`)
//! in which text is a `Seq<char>` and lists are `Seq`s; the parser's and the
//! interpreter's contracts speak of these views.

use vstd::prelude::*;

verus! {

/// Binary operators, roughly from lowest to highest precedence.
#[derive(Clone, Copy, Debug, PartialEq, Eq, Structural)]
pub enum BinOp {
    Add,
    Sub,
    Mul,
    Div,
    Mod,
    Eq,
    NotEq,
    Lt,
    Gt,
    LtEq,
    GtEq,
    And,
    Or,
}

/// Unary operators.
#[derive(Clone, Copy, Debug, PartialEq, Eq, Structural)]
pub enum UnaryOp {
    Neg,
    Not,
}

/// An expression: anything that evaluates to a value.  A float literal
/// keeps its source text.
#[derive(Debug)]
pub enum Expr {
    Int(i64),
    Float(String),
    Str(String),
    Bool(bool),
    Null,
    Ident(String),
    Array(Vec<Expr>),
    Index { target: Box<Expr>, index: Box<Expr> },
    BinOp { op: BinOp, left: Box<Expr>, right: Box<Expr> },
    UnaryOp { op: UnaryOp, operand: Box<Expr> },
    Call { callee: Box<Expr>, args: Vec<Expr> },
    /// An assignment `target = value` inside a chained assignment
    /// (`a = b = 1` assigns `b = 1` and then its value to `a`); its value is
    /// the value assigned.
    Assign { target: Box<Expr>, value: Box<Expr> },
}

/// A statement: anything run for its effect.
#[derive(Debug)]
pub enum Stmt {
    Let { name: String, value: Expr },
    Const { name: String, value: Expr },
    Assign { target: Expr, value: Expr },
    ExprStmt(Expr),
    If { cond: Expr, then_branch: Vec<Stmt>, else_branch: Option<Vec<Stmt>> },
    While { cond: Expr, body: Vec<Stmt> },
    For { var: String, iterable: Expr, body: Vec<Stmt> },
    Fn { name: String, params: Vec<String>, body: Vec<Stmt> },
    Return(Option<Expr>),
    Break,
    Continue,
}

/// A whole program: a sequence of statements.
#[derive(Debug)]
pub struct Program {
    pub statements: Vec<Stmt>,
}

/// The view of an [`Expr`].
pub enum SExpr {
    Int(i64),
    Float(Seq<char>),
    Str(Seq<char>),
    Bool(bool),
    Null,
    Ident(Seq<char>),
    Array(Seq<SExpr>),
    Index { target: Box<SExpr>, index: Box<SExpr> },
    BinOp { op: BinOp, left: Box<SExpr>, right: Box<SExpr> },
    UnaryOp { op: UnaryOp, operand: Box<SExpr> },
    Call { callee: Box<SExpr>, args: Seq<SExpr> },
    Assign { target: Box<SExpr>, value: Box<SExpr> },
}

/// The view of a [`Stmt`].
pub enum SStmt {
    Let { name: Seq<char>, value: SExpr },
    Const { name: Seq<char>, value: SExpr },
    Assign { target: SExpr, value: SExpr },
    ExprStmt(SExpr),
    If { cond: SExpr, then_branch: Seq<SStmt>, else_branch: Option<Seq<SStmt>> },
    While { cond: SExpr, body: Seq<SStmt> },
    For { var: Seq<char>, iterable: SExpr, body: Seq<SStmt> },
    Fn { name: Seq<char>, params: Seq<Seq<char>>, body: Seq<SStmt> },
    Return(Option<SExpr>),
    Break,
    Continue,
}

/// The view of an expression.
pub open spec fn expr_view(e: Expr) -> SExpr
    decreases e,
{
    match e {
        Expr::Int(n) => SExpr::Int(n),
        Expr::Float(t) => SExpr::Float(t@),
        Expr::Str(s) => SExpr::Str(s@),
        Expr::Bool(b) => SExpr::Bool(b),
        Expr::Null => SExpr::Null,
        Expr::Ident(n) => SExpr::Ident(n@),
        Expr::Array(v) => SExpr::Array(exprs_view(v@)),
        Expr::Index { target, index } => SExpr::Index {
            target: Box::new(expr_view(*target)),
            index: Box::new(expr_view(*index)),
        },
        Expr::BinOp { op, left, right } => SExpr::BinOp {
            op,
            left: Box::new(expr_view(*left)),
            right: Box::new(expr_view(*right)),
        },
        Expr::UnaryOp { op, operand } => SExpr::UnaryOp {
            op,
            operand: Box::new(expr_view(*operand)),
        },
        Expr::Call { callee, args } => SExpr::Call {
            callee: Box::new(expr_view(*callee)),
            args: exprs_view(args@),
        },
        Expr::Assign { target, value } => SExpr::Assign {
            target: Box::new(expr_view(*target)),
            value: Box::new(expr_view(*value)),
        },
    }
}

/// The views of a sequence of expressions.
pub open spec fn exprs_view(s: Seq<Expr>) -> Seq<SExpr>
    decreases s,
{
    if s.len() == 0 {
        Seq::empty()
    } else {
        exprs_view(s.drop_last()).push(expr_view(s.last()))
    }
}

/// The views of a sequence of names.
pub open spec fn names_view(s: Seq<String>) -> Seq<Seq<char>> {
    s.map_values(|n: String| n@)
}

/// The view of a statement.
pub open spec fn stmt_view(s: Stmt) -> SStmt
    decreases s,
{
    match s {
        Stmt::Let { name, value } => SStmt::Let { name: name@, value: expr_view(value) },
        Stmt::Const { name, value } => SStmt::Const { name: name@, value: expr_view(value) },
        Stmt::Assign { target, value } => SStmt::Assign {
            target: expr_view(target),
            value: expr_view(value),
        },
        Stmt::ExprStmt(e) => SStmt::ExprStmt(expr_view(e)),
        Stmt::If { cond, then_branch, else_branch } => SStmt::If {
            cond: expr_view(cond),
            then_branch: stmts_view(then_branch@),
            else_branch: match else_branch {
                Some(b) => Some(stmts_view(b@)),
                None => None,
            },
        },
        Stmt::While { cond, body } => SStmt::While { cond: expr_view(cond), body: stmts_view(body@) },
        Stmt::For { var, iterable, body } => SStmt::For {
            var: var@,
            iterable: expr_view(iterable),
            body: stmts_view(body@),
        },
        Stmt::Fn { name, params, body } => SStmt::Fn {
            name: name@,
            params: names_view(params@),
            body: stmts_view(body@),
        },
        Stmt::Return(e) => SStmt::Return(
            match e {
                Some(x) => Some(expr_view(x)),
                None => None,
            },
        ),
        Stmt::Break => SStmt::Break,
        Stmt::Continue => SStmt::Continue,
    }
}

/// The views of a sequence of statements.
pub open spec fn stmts_view(s: Seq<Stmt>) -> Seq<SStmt>
    decreases s,
{
    if s.len() == 0 {
        Seq::empty()
    } else {
        stmts_view(s.drop_last()).push(stmt_view(s.last()))
    }
}

impl View for Expr {
    type V = SExpr;

    open spec fn view(&self) -> SExpr {
        expr_view(*self)
    }
}

impl View for Stmt {
    type V = SStmt;

    open spec fn view(&self) -> SStmt {
        stmt_view(*self)
    }
}

impl View for Program {
    type V = Seq<SStmt>;

    open spec fn view(&self) -> Seq<SStmt> {
        stmts_view(self.statements@)
    }
}

// ─── Facts about the views ───────────────────────────────────

pub broadcast proof fn lemma_exprs_view_push(s: Seq<Expr>, e: Expr)
    ensures
        #[trigger] exprs_view(s.push(e)) == exprs_view(s).push(expr_view(e)),
{
    assert(s.push(e).drop_last() =~= s);
}

pub broadcast proof fn lemma_exprs_view_index(s: Seq<Expr>)
    ensures
        #[trigger] exprs_view(s).len() == s.len(),
        forall|i: int| 0 <= i < s.len() ==> #[trigger] exprs_view(s)[i] == expr_view(s[i]),
    decreases s.len(),
{
    if s.len() > 0 {
        lemma_exprs_view_index(s.drop_last());
    }
}

pub broadcast proof fn lemma_stmts_view_push(s: Seq<Stmt>, e: Stmt)
    ensures
        #[trigger] stmts_view(s.push(e)) == stmts_view(s).push(stmt_view(e)),
{
    assert(s.push(e).drop_last() =~= s);
}

pub broadcast proof fn lemma_stmts_view_index(s: Seq<Stmt>)
    ensures
        #[trigger] stmts_view(s).len() == s.len(),
        forall|i: int| 0 <= i < s.len() ==> #[trigger] stmts_view(s)[i] == stmt_view(s[i]),
    decreases s.len(),
{
    if s.len() > 0 {
        lemma_stmts_view_index(s.drop_last());
    }
}

pub broadcast group group_ast_view_lemmas {
    lemma_exprs_view_push,
    lemma_exprs_view_index,
    lemma_stmts_view_push,
    lemma_stmts_view_index,
}

// ─── Copies ──────────────────────────────────────────────────

/// A copy of a list of names.
pub fn copy_names(v: &Vec<String>) -> (r: Vec<String>)
    ensures
        names_view(r@) == names_view(v@),
        r@ == v@,
{
    let mut r: Vec<String> = Vec::new();
    let mut i: usize = 0;
    while i < v.len()
        invariant
            i <= v@.len(),
            r@ == v@.take(i as int),
        decreases v@.len() - i,
    {
        r.push(v[i].clone());
        i = i + 1;
        assert(r@ =~= v@.take(i as int));
    }
    assert(v@.take(v@.len() as int) =~= v@);
    r
}

/// A copy of a list of expressions.
pub fn copy_exprs(v: &Vec<Expr>) -> (r: Vec<Expr>)
    ensures
        exprs_view(r@) == exprs_view(v@),
    decreases v,
{
    broadcast use group_ast_view_lemmas;

    let mut r: Vec<Expr> = Vec::new();
    let mut i: usize = 0;
    while i < v.len()
        invariant
            i <= v@.len(),
            exprs_view(r@) == exprs_view(v@.take(i as int)),
        decreases v@.len() - i,
    {
        proof {
            assert(decreases_to!(v => v@[i as int]));
        }
        let e = v[i].deep_copy();
        let ghost r0 = r@;
        r.push(e);
        proof {
            assert(v@.take(i + 1) =~= v@.take(i as int).push(v@[i as int]));
            lemma_exprs_view_push(r0, e);
            lemma_exprs_view_push(v@.take(i as int), v@[i as int]);
        }
        i = i + 1;
    }
    assert(v@.take(v@.len() as int) =~= v@);
    r
}

/// A copy of a list of statements.
pub fn copy_stmts(v: &Vec<Stmt>) -> (r: Vec<Stmt>)
    ensures
        stmts_view(r@) == stmts_view(v@),
    decreases v,
{
    broadcast use group_ast_view_lemmas;

    let mut r: Vec<Stmt> = Vec::new();
    let mut i: usize = 0;
    while i < v.len()
        invariant
            i <= v@.len(),
            stmts_view(r@) == stmts_view(v@.take(i as int)),
        decreases v@.len() - i,
    {
        proof {
            assert(decreases_to!(v => v@[i as int]));
        }
        let e = v[i].deep_copy();
        let ghost r0 = r@;
        r.push(e);
        proof {
            assert(v@.take(i + 1) =~= v@.take(i as int).push(v@[i as int]));
            lemma_stmts_view_push(r0, e);
            lemma_stmts_view_push(v@.take(i as int), v@[i as int]);
        }
        i = i + 1;
    }
    assert(v@.take(v@.len() as int) =~= v@);
    r
}

impl Expr {
    /// A copy of this expression.
    pub fn deep_copy(&self) -> (r: Expr)
        ensures
            r@ == self@,
        decreases self,
    {
        match self {
            Expr::Int(n) => Expr::Int(*n),
            Expr::Float(t) => Expr::Float(t.clone()),
            Expr::Str(s) => Expr::Str(s.clone()),
            Expr::Bool(b) => Expr::Bool(*b),
            Expr::Null => Expr::Null,
            Expr::Ident(n) => Expr::Ident(n.clone()),
            Expr::Array(v) => Expr::Array(copy_exprs(v)),
            Expr::Index { target, index } => Expr::Index {
                target: Box::new((**target).deep_copy()),
                index: Box::new((**index).deep_copy()),
            },
            Expr::BinOp { op, left, right } => Expr::BinOp {
                op: *op,
                left: Box::new((**left).deep_copy()),
                right: Box::new((**right).deep_copy()),
            },
            Expr::UnaryOp { op, operand } => Expr::UnaryOp {
                op: *op,
                operand: Box::new((**operand).deep_copy()),
            },
            Expr::Call { callee, args } => Expr::Call {
                callee: Box::new((**callee).deep_copy()),
                args: copy_exprs(args),
            },
            Expr::Assign { target, value } => Expr::Assign {
                target: Box::new((**target).deep_copy()),
                value: Box::new((**value).deep_copy()),
            },
        }
    }
}

impl Stmt {
    /// A copy of this statement.
    pub fn deep_copy(&self) -> (r: Stmt)
        ensures
            r@ == self@,
        decreases self,
    {
        match self {
            Stmt::Let { name, value } => Stmt::Let { name: name.clone(), value: value.deep_copy() },
            Stmt::Const { name, value } => Stmt::Const {
                name: name.clone(),
                value: value.deep_copy(),
            },
            Stmt::Assign { target, value } => Stmt::Assign {
                target: target.deep_copy(),
                value: value.deep_copy(),
            },
            Stmt::ExprStmt(e) => Stmt::ExprStmt(e.deep_copy()),
            Stmt::If { cond, then_branch, else_branch } => Stmt::If {
                cond: cond.deep_copy(),
                then_branch: copy_stmts(then_branch),
                else_branch: match else_branch {
                    Some(b) => Some(copy_stmts(b)),
                    None => None,
                },
            },
            Stmt::While { cond, body } => Stmt::While { cond: cond.deep_copy(), body: copy_stmts(body) },
            Stmt::For { var, iterable, body } => Stmt::For {
                var: var.clone(),
                iterable: iterable.deep_copy(),
                body: copy_stmts(body),
            },
            Stmt::Fn { name, params, body } => Stmt::Fn {
                name: name.clone(),
                params: copy_names(params),
                body: copy_stmts(body),
            },
            Stmt::Return(e) => Stmt::Return(
                match e {
                    Some(x) => Some(x.deep_copy()),
                    None => None,
                },
            ),
            Stmt::Break => Stmt::Break,
            Stmt::Continue => Stmt::Continue,
        }
    }
}

impl Clone for Expr {
    fn clone(&self) -> (r: Expr)
        ensures
            r@ == self@,
    {
        self.deep_copy()
    }
}

impl Clone for Stmt {
    fn clone(&self) -> (r: Stmt)
        ensures
            r@ == self@,
    {
        self.deep_copy()
    }
}

impl Clone for Program {
    fn clone(&self) -> (r: Program)
        ensures
            r@ == self@,
    {
        Program { statements: copy_stmts(&self.statements) }
    }
}

} // verus!

//! Tokens: the units the lexer produces and the parser consumes.

use crate::text::{chars_of, i64_to_decimal, signed_decimal};
use vstd::prelude::*;

verus! {

/// A token whose spelling is fixed: a keyword, an operator, a delimiter,
/// or the end of the input.
#[derive(Clone, Copy, Debug, PartialEq, Eq, Structural)]
pub enum Symbol {
    Let,
    Const,
    Fn,
    If,
    Else,
    While,
    For,
    In,
    Return,
    Break,
    Continue,
    True,
    False,
    Null,
    Plus,
    Minus,
    Star,
    Slash,
    Percent,
    Assign,
    PlusAssign,
    MinusAssign,
    Eq,
    NotEq,
    Lt,
    Gt,
    LtEq,
    GtEq,
    And,
    Or,
    Bang,
    Arrow,
    LParen,
    RParen,
    LBrace,
    RBrace,
    LBracket,
    RBracket,
    Comma,
    Semicolon,
    Colon,
    Eof,
}

/// The kind of a token, with its payload for literals and identifiers.
/// A float literal keeps its source text (digits, a point, digits).
#[derive(Debug)]
pub enum TokenKind {
    Int(i64),
    Float(String),
    Str(String),
    Ident(String),
    Sym(Symbol),
}

/// The view of a [`TokenKind`].
pub enum STokenKind {
    Int(i64),
    Float(Seq<char>),
    Str(Seq<char>),
    Ident(Seq<char>),
    Sym(Symbol),
}

impl View for TokenKind {
    type V = STokenKind;

    open spec fn view(&self) -> STokenKind {
        match self {
            TokenKind::Int(n) => STokenKind::Int(*n),
            TokenKind::Float(t) => STokenKind::Float(t@),
            TokenKind::Str(s) => STokenKind::Str(s@),
            TokenKind::Ident(s) => STokenKind::Ident(s@),
            TokenKind::Sym(s) => STokenKind::Sym(*s),
        }
    }
}

/// A token with the line and column (both counted from 1) where it starts.
#[derive(Debug)]
pub struct Token {
    pub kind: TokenKind,
    pub line: usize,
    pub col: usize,
}

/// The view of a [`Token`].
pub struct SToken {
    pub kind: STokenKind,
    pub line: usize,
    pub col: usize,
}

impl View for Token {
    type V = SToken;

    open spec fn view(&self) -> SToken {
        SToken { kind: self.kind@, line: self.line, col: self.col }
    }
}

/// The views of a sequence of tokens.
pub open spec fn tokens_view(v: Seq<Token>) -> Seq<SToken> {
    v.map_values(|t: Token| t@)
}

impl TokenKind {
    /// A copy of this kind.
    pub fn duplicate(&self) -> (r: TokenKind)
        ensures
            r == *self,
    {
        match self {
            TokenKind::Int(n) => TokenKind::Int(*n),
            TokenKind::Float(t) => TokenKind::Float(t.clone()),
            TokenKind::Str(s) => TokenKind::Str(s.clone()),
            TokenKind::Ident(s) => TokenKind::Ident(s.clone()),
            TokenKind::Sym(s) => TokenKind::Sym(*s),
        }
    }
}

impl Token {
    /// A token of the given kind at the given position.
    pub fn new(kind: TokenKind, line: usize, col: usize) -> (r: Token)
        ensures
            r.kind == kind,
            r.line == line,
            r.col == col,
    {
        Token { kind, line, col }
    }

    /// A copy of this token.
    pub fn duplicate(&self) -> (r: Token)
        ensures
            r == *self,
    {
        Token { kind: self.kind.duplicate(), line: self.line, col: self.col }
    }
}

/// The keyword spelled `w`, if `w` is one.
pub open spec fn keyword_spec(w: Seq<char>) -> Option<Symbol> {
    if w == "let"@ { Some(Symbol::Let) }
    else if w == "const"@ { Some(Symbol::Const) }
    else if w == "fn"@ { Some(Symbol::Fn) }
    else if w == "if"@ { Some(Symbol::If) }
    else if w == "else"@ { Some(Symbol::Else) }
    else if w == "while"@ { Some(Symbol::While) }
    else if w == "for"@ { Some(Symbol::For) }
    else if w == "in"@ { Some(Symbol::In) }
    else if w == "return"@ { Some(Symbol::Return) }
    else if w == "break"@ { Some(Symbol::Break) }
    else if w == "continue"@ { Some(Symbol::Continue) }
    else if w == "true"@ { Some(Symbol::True) }
    else if w == "false"@ { Some(Symbol::False) }
    else if w == "null"@ { Some(Symbol::Null) }
    else { None }
}

/// Whether `v[from..to]` spells `word`.
fn spells(v: &Vec<char>, from: usize, to: usize, word: &str) -> (r: bool)
    requires
        from <= to <= v@.len(),
    ensures
        r == (v@.subrange(from as int, to as int) == word@),
{
    let w = chars_of(word);
    if w.len() != to - from {
        proof {
            if v@.subrange(from as int, to as int) == word@ {
                assert(v@.subrange(from as int, to as int).len() == w@.len());
            }
        }
        return false;
    }
    let mut i: usize = 0;
    while i < w.len()
        invariant
            w@ == word@,
            w@.len() == to - from,
            from <= to <= v@.len(),
            i <= w@.len(),
            forall|k: int| 0 <= k < i ==> v@[from + k] == w@[k],
        decreases w@.len() - i,
    {
        if v[from + i] != w[i] {
            proof {
                assert(v@.subrange(from as int, to as int)[i as int] != w@[i as int]);
            }
            return false;
        }
        i = i + 1;
    }
    assert(v@.subrange(from as int, to as int) =~= w@);
    true
}

/// The keyword spelled by `v[from..to]`, if it spells one.
pub fn keyword_lookup(v: &Vec<char>, from: usize, to: usize) -> (r: Option<Symbol>)
    requires
        from <= to <= v@.len(),
    ensures
        r == keyword_spec(v@.subrange(from as int, to as int)),
{
    if spells(v, from, to, "let") { Some(Symbol::Let) }
    else if spells(v, from, to, "const") { Some(Symbol::Const) }
    else if spells(v, from, to, "fn") { Some(Symbol::Fn) }
    else if spells(v, from, to, "if") { Some(Symbol::If) }
    else if spells(v, from, to, "else") { Some(Symbol::Else) }
    else if spells(v, from, to, "while") { Some(Symbol::While) }
    else if spells(v, from, to, "for") { Some(Symbol::For) }
    else if spells(v, from, to, "in") { Some(Symbol::In) }
    else if spells(v, from, to, "return") { Some(Symbol::Return) }
    else if spells(v, from, to, "break") { Some(Symbol::Break) }
    else if spells(v, from, to, "continue") { Some(Symbol::Continue) }
    else if spells(v, from, to, "true") { Some(Symbol::True) }
    else if spells(v, from, to, "false") { Some(Symbol::False) }
    else if spells(v, from, to, "null") { Some(Symbol::Null) }
    else { None }
}

/// How a fixed token is written.
pub open spec fn symbol_text(s: Symbol) -> Seq<char> {
    match s {
        Symbol::Let => "let"@,
        Symbol::Const => "const"@,
        Symbol::Fn => "fn"@,
        Symbol::If => "if"@,
        Symbol::Else => "else"@,
        Symbol::While => "while"@,
        Symbol::For => "for"@,
        Symbol::In => "in"@,
        Symbol::Return => "return"@,
        Symbol::Break => "break"@,
        Symbol::Continue => "continue"@,
        Symbol::True => "true"@,
        Symbol::False => "false"@,
        Symbol::Null => "null"@,
        Symbol::Plus => "+"@,
        Symbol::Minus => "-"@,
        Symbol::Star => "*"@,
        Symbol::Slash => "/"@,
        Symbol::Percent => "%"@,
        Symbol::Assign => "="@,
        Symbol::PlusAssign => "+="@,
        Symbol::MinusAssign => "-="@,
        Symbol::Eq => "=="@,
        Symbol::NotEq => "!="@,
        Symbol::Lt => "<"@,
        Symbol::Gt => ">"@,
        Symbol::LtEq => "<="@,
        Symbol::GtEq => ">="@,
        Symbol::And => "&&"@,
        Symbol::Or => "||"@,
        Symbol::Bang => "!"@,
        Symbol::Arrow => "->"@,
        Symbol::LParen => "("@,
        Symbol::RParen => ")"@,
        Symbol::LBrace => "{"@,
        Symbol::RBrace => "}"@,
        Symbol::LBracket => "["@,
        Symbol::RBracket => "]"@,
        Symbol::Comma => ","@,
        Symbol::Semicolon => ";"@,
        Symbol::Colon => ":"@,
        Symbol::Eof => "EOF"@,
    }
}

/// How a token kind is shown in error messages: literals and identifiers
/// by their value (a string literal in double quotes), fixed tokens by
/// their spelling.
pub open spec fn kind_text(k: STokenKind) -> Seq<char> {
    match k {
        STokenKind::Int(n) => signed_decimal(n as int),
        STokenKind::Float(t) => t,
        STokenKind::Str(s) => seq!['"'] + s + seq!['"'],
        STokenKind::Ident(s) => s,
        STokenKind::Sym(s) => symbol_text(s),
    }
}

impl Symbol {
    /// How this fixed token is written.
    pub fn text(&self) -> (r: String)
        ensures
            r@ == symbol_text(*self),
    {
        let s: &str = match self {
            Symbol::Let => "let",
            Symbol::Const => "const",
            Symbol::Fn => "fn",
            Symbol::If => "if",
            Symbol::Else => "else",
            Symbol::While => "while",
            Symbol::For => "for",
            Symbol::In => "in",
            Symbol::Return => "return",
            Symbol::Break => "break",
            Symbol::Continue => "continue",
            Symbol::True => "true",
            Symbol::False => "false",
            Symbol::Null => "null",
            Symbol::Plus => "+",
            Symbol::Minus => "-",
            Symbol::Star => "*",
            Symbol::Slash => "/",
            Symbol::Percent => "%",
            Symbol::Assign => "=",
            Symbol::PlusAssign => "+=",
            Symbol::MinusAssign => "-=",
            Symbol::Eq => "==",
            Symbol::NotEq => "!=",
            Symbol::Lt => "<",
            Symbol::Gt => ">",
            Symbol::LtEq => "<=",
            Symbol::GtEq => ">=",
            Symbol::And => "&&",
            Symbol::Or => "||",
            Symbol::Bang => "!",
            Symbol::Arrow => "->",
            Symbol::LParen => "(",
            Symbol::RParen => ")",
            Symbol::LBrace => "{",
            Symbol::RBrace => "}",
            Symbol::LBracket => "[",
            Symbol::RBracket => "]",
            Symbol::Comma => ",",
            Symbol::Semicolon => ";",
            Symbol::Colon => ":",
            Symbol::Eof => "EOF",
        };
        String::from_str(s)
    }
}

impl TokenKind {
    /// How this token kind is shown in error messages.
    pub fn describe(&self) -> (r: String)
        ensures
            r@ == kind_text(self@),
    {
        match self {
            TokenKind::Int(n) => i64_to_decimal(*n),
            TokenKind::Float(t) => t.clone(),
            TokenKind::Str(s) => {
                let mut r = String::from_str("\"");
                r.append(s.as_str());
                r.append("\"");
                proof {
                    reveal_strlit("\"");
                }
                assert(r@ =~= kind_text(self@));
                r
            },
            TokenKind::Ident(s) => s.clone(),
            TokenKind::Sym(s) => s.text(),
        }
    }
}

} // verus!

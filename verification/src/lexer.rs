//! The lexer: turns source text into a sequence of tokens.
//!
//! The lexer scans the source character by character, keeping the line and
//! column of the current character.  Two-character operators (`==`, `!=`,
//! `<=`, `>=`, `+=`, `-=`, `->`, `&&`, `||`) are recognised by looking one
//! character ahead; string literals understand the escapes `\n \t \r \" \\
//! \0`; `//` starts a comment that runs to the end of the line.
//!
//! The specification is a set of spec functions over the source's
//! characters (`tokenize_spec` at the top); `Lexer::tokenize` is proved to
//! compute exactly what it describes.

use crate::errors::{LexError, SLexError};
use crate::text::{
    all_digits, char_is_digit, chars_of, digits_value, digits_value_upto, is_digit,
    string_from_chars,
};
use crate::token::{
    keyword_lookup, keyword_spec, tokens_view, SToken, STokenKind, Symbol, Token, TokenKind,
};
use vstd::prelude::*;

verus! {

// ─── Specification ───────────────────────────────────────────

/// Whitespace between tokens.
pub open spec fn is_ws(c: char) -> bool {
    c == ' ' || c == '\t' || c == '\r' || c == '\n'
}

/// Whether `c` may start an identifier or keyword.
pub open spec fn is_ident_start(c: char) -> bool {
    ('a' <= c && c <= 'z') || ('A' <= c && c <= 'Z') || c == '_'
}

/// Unicode's alphanumeric property, as the standard library's
/// `char::is_alphanumeric` decides it.
pub uninterp spec fn char_is_alphanumeric(c: char) -> bool;

/// Whether `c` may continue an identifier: a letter, a digit or `_` in
/// ASCII; beyond it, any character Unicode counts as alphanumeric.
pub open spec fn is_ident_continue(c: char) -> bool {
    if c <= '\x7f' {
        ('a' <= c && c <= 'z') || ('A' <= c && c <= 'Z') || ('0' <= c && c <= '9') || c == '_'
    } else {
        char_is_alphanumeric(c)
    }
}

/// Line and column after reading `c` at line and column `lc`.
pub open spec fn lc_step(lc: (nat, nat), c: char) -> (nat, nat) {
    if c == '\n' {
        (lc.0 + 1, 1)
    } else {
        (lc.0, lc.1 + 1)
    }
}

/// Line and column (both from 1) of the character at index `n` of `s`.
pub open spec fn line_col(s: Seq<char>, n: int) -> (nat, nat)
    decreases n,
{
    if n <= 0 || n > s.len() {
        (1, 1)
    } else {
        lc_step(line_col(s, n - 1), s[n - 1])
    }
}

/// Index of the first `'\n'` at or after `p`, or the length of `s`.
pub open spec fn line_end(s: Seq<char>, p: int) -> int
    decreases s.len() - p,
{
    if p < 0 || p >= s.len() || s[p] == '\n' {
        p
    } else {
        line_end(s, p + 1)
    }
}

/// Index of the first character at or after `p` that is neither
/// whitespace nor part of a `//` comment.
pub open spec fn skip_ws(s: Seq<char>, p: int) -> int
    decreases s.len() - p,
{
    if p < 0 || p >= s.len() {
        p
    } else if is_ws(s[p]) {
        skip_ws(s, p + 1)
    } else if s[p] == '/' && p + 1 < s.len() && s[p + 1] == '/' {
        let q = line_end(s, p + 2);
        proof {
            lemma_line_end(s, p + 2);
        }
        skip_ws(s, q)
    } else {
        p
    }
}

/// End of the run of ASCII digits that starts at `p`.
pub open spec fn digits_end(s: Seq<char>, p: int) -> int
    decreases s.len() - p,
{
    if 0 <= p < s.len() && is_digit(s[p]) {
        digits_end(s, p + 1)
    } else {
        p
    }
}

/// End of the run of identifier characters that starts at `p`.
pub open spec fn ident_end(s: Seq<char>, p: int) -> int
    decreases s.len() - p,
{
    if 0 <= p < s.len() && is_ident_continue(s[p]) {
        ident_end(s, p + 1)
    } else {
        p
    }
}

/// A token spec at the line and column of index `q`.
pub open spec fn tok_at(s: Seq<char>, q: int, kind: STokenKind) -> SToken {
    SToken { kind, line: line_col(s, q).0 as usize, col: line_col(s, q).1 as usize }
}

/// The outcome of scanning one token: the token and the index after it.
pub type ScanResult = Result<(SToken, int), SLexError>;

/// A number literal at `q`: digits, and optionally a point followed by at
/// least one digit (then it is a float literal, kept as its text).
pub open spec fn scan_number_spec(s: Seq<char>, q: int) -> ScanResult {
    let e = digits_end(s, q);
    if e + 1 < s.len() && s[e] == '.' && is_digit(s[e + 1]) {
        let f = digits_end(s, e + 1);
        Ok((tok_at(s, q, STokenKind::Float(s.subrange(q, f))), f))
    } else {
        let text = s.subrange(q, e);
        if digits_value(text) <= 0x7fff_ffff_ffff_ffff {
            Ok((tok_at(s, q, STokenKind::Int(digits_value(text) as i64)), e))
        } else {
            Err(
                SLexError::InvalidNumber {
                    src: text,
                    line: line_col(s, q).0 as usize,
                    col: line_col(s, q).1 as usize,
                },
            )
        }
    }
}

/// An identifier or keyword at `q`, whose first character is an ASCII
/// letter or `_`.
pub open spec fn scan_ident_spec(s: Seq<char>, q: int) -> ScanResult {
    let e = ident_end(s, q + 1);
    let text = s.subrange(q, e);
    match keyword_spec(text) {
        Some(k) => Ok((tok_at(s, q, STokenKind::Sym(k)), e)),
        None => Ok((tok_at(s, q, STokenKind::Ident(text)), e)),
    }
}

/// The character that the escape `\c` stands for in a string literal.
pub open spec fn escape_char(c: char) -> char {
    if c == 'n' {
        '\n'
    } else if c == 't' {
        '\t'
    } else if c == 'r' {
        '\r'
    } else if c == '0' {
        '\0'
    } else {
        c
    }
}

/// The rest of a string literal from `p`, after the characters `acc`
/// have been read; `line` is the line of the opening quote.
pub open spec fn string_body(s: Seq<char>, p: int, acc: Seq<char>, line: usize) -> Result<
    (Seq<char>, int),
    SLexError,
>
    decreases s.len() - p,
{
    if p < 0 || p >= s.len() {
        Err(SLexError::UnterminatedString { line })
    } else if s[p] == '"' {
        Ok((acc, p + 1))
    } else if s[p] == '\\' {
        if p + 1 >= s.len() {
            Err(SLexError::UnterminatedString { line })
        } else {
            string_body(s, p + 2, acc.push(escape_char(s[p + 1])), line)
        }
    } else {
        string_body(s, p + 1, acc.push(s[p]), line)
    }
}

/// A string literal whose opening quote is at `q`.
pub open spec fn scan_string_spec(s: Seq<char>, q: int) -> ScanResult {
    match string_body(s, q + 1, Seq::empty(), line_col(s, q).0 as usize) {
        Ok((text, r)) => Ok((tok_at(s, q, STokenKind::Str(text)), r)),
        Err(e) => Err(e),
    }
}

/// A one- or two-character operator at `q`: `two` when the next character
/// is `next`, else `one`.
pub open spec fn scan_pair_spec(s: Seq<char>, q: int, next: char, two: Symbol, one: Symbol) -> ScanResult {
    if q + 1 < s.len() && s[q + 1] == next {
        Ok((tok_at(s, q, STokenKind::Sym(two)), q + 2))
    } else {
        Ok((tok_at(s, q, STokenKind::Sym(one)), q + 1))
    }
}

/// A two-character token `cc` at `q`; the character `c` alone is an
/// unexpected character.
pub open spec fn scan_double_spec(s: Seq<char>, q: int, c: char, k: Symbol) -> ScanResult {
    if q + 1 < s.len() && s[q + 1] == c {
        Ok((tok_at(s, q, STokenKind::Sym(k)), q + 2))
    } else {
        Err(
            SLexError::UnexpectedChar {
                ch: c,
                line: line_col(s, q).0 as usize,
                col: line_col(s, q).1 as usize,
            },
        )
    }
}

/// A one-character token at `q`.
pub open spec fn scan_single_spec(s: Seq<char>, q: int, k: Symbol) -> ScanResult {
    Ok((tok_at(s, q, STokenKind::Sym(k)), q + 1))
}

/// The token that starts at index `q` (which holds no whitespace).
pub open spec fn scan_token_spec(s: Seq<char>, q: int) -> ScanResult {
    let c = s[q];
    if is_digit(c) {
        scan_number_spec(s, q)
    } else if is_ident_start(c) {
        scan_ident_spec(s, q)
    } else if c == '"' {
        scan_string_spec(s, q)
    } else if c == '+' {
        scan_pair_spec(s, q, '=', Symbol::PlusAssign, Symbol::Plus)
    } else if c == '-' {
        if q + 1 < s.len() && s[q + 1] == '=' {
            Ok((tok_at(s, q, STokenKind::Sym(Symbol::MinusAssign)), q + 2))
        } else if q + 1 < s.len() && s[q + 1] == '>' {
            Ok((tok_at(s, q, STokenKind::Sym(Symbol::Arrow)), q + 2))
        } else {
            Ok((tok_at(s, q, STokenKind::Sym(Symbol::Minus)), q + 1))
        }
    } else if c == '*' {
        scan_single_spec(s, q, Symbol::Star)
    } else if c == '/' {
        scan_single_spec(s, q, Symbol::Slash)
    } else if c == '%' {
        scan_single_spec(s, q, Symbol::Percent)
    } else if c == '=' {
        scan_pair_spec(s, q, '=', Symbol::Eq, Symbol::Assign)
    } else if c == '!' {
        scan_pair_spec(s, q, '=', Symbol::NotEq, Symbol::Bang)
    } else if c == '<' {
        scan_pair_spec(s, q, '=', Symbol::LtEq, Symbol::Lt)
    } else if c == '>' {
        scan_pair_spec(s, q, '=', Symbol::GtEq, Symbol::Gt)
    } else if c == '&' {
        scan_double_spec(s, q, '&', Symbol::And)
    } else if c == '|' {
        scan_double_spec(s, q, '|', Symbol::Or)
    } else if c == '(' {
        scan_single_spec(s, q, Symbol::LParen)
    } else if c == ')' {
        scan_single_spec(s, q, Symbol::RParen)
    } else if c == '{' {
        scan_single_spec(s, q, Symbol::LBrace)
    } else if c == '}' {
        scan_single_spec(s, q, Symbol::RBrace)
    } else if c == '[' {
        scan_single_spec(s, q, Symbol::LBracket)
    } else if c == ']' {
        scan_single_spec(s, q, Symbol::RBracket)
    } else if c == ',' {
        scan_single_spec(s, q, Symbol::Comma)
    } else if c == ';' {
        scan_single_spec(s, q, Symbol::Semicolon)
    } else if c == ':' {
        scan_single_spec(s, q, Symbol::Colon)
    } else {
        Err(
            SLexError::UnexpectedChar {
                ch: c,
                line: line_col(s, q).0 as usize,
                col: line_col(s, q).1 as usize,
            },
        )
    }
}

/// The tokens of `s` from index `p` on, after the tokens `acc`.
pub open spec fn lex_from(s: Seq<char>, p: int, acc: Seq<SToken>) -> Result<Seq<SToken>, SLexError>
    decreases s.len() - p,
{
    let q = skip_ws(s, p);
    if p < 0 || q >= s.len() {
        Ok(acc.push(tok_at(s, q, STokenKind::Sym(Symbol::Eof))))
    } else {
        proof {
            lemma_skip_ws(s, p);
            lemma_scan_token_advances(s, q);
        }
        match scan_token_spec(s, q) {
            Ok((t, r)) => lex_from(s, r, acc.push(t)),
            Err(e) => Err(e),
        }
    }
}

/// The tokens of the source text `s`, ending with an end-of-input token,
/// or the first lexical error.
pub open spec fn tokenize_spec(s: Seq<char>) -> Result<Seq<SToken>, SLexError> {
    lex_from(s, 0, Seq::empty())
}

// ─── Lemmas ──────────────────────────────────────────────────

/// A tab, a space, a carriage return or a line feed is skipped between
/// tokens: lexing from it gives the same tokens as lexing from the
/// character after it (so a text that starts with one has the tokens of
/// the rest of the text, read in place).
pub proof fn lemma_whitespace_skipped(s: Seq<char>, p: int, acc: Seq<SToken>)
    requires
        0 <= p < s.len(),
        s[p] == '\t' || s[p] == ' ' || s[p] == '\r' || s[p] == '\n',
    ensures
        skip_ws(s, p) == skip_ws(s, p + 1),
        lex_from(s, p, acc) == lex_from(s, p + 1, acc),
        p == 0 ==> tokenize_spec(s) == lex_from(s, 1, Seq::empty()),
{
    assert(skip_ws(s, p) == skip_ws(s, p + 1));
    lemma_skip_ws(s, p + 1);
}

/// A `//` comment runs to the end of its line: lexing from it gives the
/// same tokens as lexing from the line feed that ends it (or from the end
/// of the text).
pub proof fn lemma_comment_skipped(s: Seq<char>, p: int, e: int, acc: Seq<SToken>)
    requires
        0 <= p,
        p + 2 <= e <= s.len(),
        s[p] == '/',
        s[p + 1] == '/',
        forall|k: int| p + 2 <= k < e ==> s[k] != '\n',
        e == s.len() || s[e] == '\n',
    ensures
        lex_from(s, p, acc) == lex_from(s, e, acc),
{
    lemma_line_end_at(s, p + 2, e);
    lemma_skip_ws(s, e);
    if e < s.len() {
        lemma_skip_ws(s, e + 1);
        assert(skip_ws(s, e) == skip_ws(s, e + 1));
    }
    assert(skip_ws(s, p) == skip_ws(s, e));
}

/// `line_end` finds the first line feed at or after `p`.
proof fn lemma_line_end_at(s: Seq<char>, p: int, e: int)
    requires
        0 <= p <= e <= s.len(),
        forall|k: int| p <= k < e ==> s[k] != '\n',
        e == s.len() || s[e] == '\n',
    ensures
        line_end(s, p) == e,
    decreases e - p,
{
    if p < e {
        lemma_line_end_at(s, p + 1, e);
    }
}

/// The operator spelt with the two characters `a` and `b`, if any.
pub open spec fn two_char_operator(a: char, b: char) -> Option<Symbol> {
    if a == '=' && b == '=' {
        Some(Symbol::Eq)
    } else if a == '!' && b == '=' {
        Some(Symbol::NotEq)
    } else if a == '<' && b == '=' {
        Some(Symbol::LtEq)
    } else if a == '>' && b == '=' {
        Some(Symbol::GtEq)
    } else if a == '&' && b == '&' {
        Some(Symbol::And)
    } else if a == '|' && b == '|' {
        Some(Symbol::Or)
    } else if a == '+' && b == '=' {
        Some(Symbol::PlusAssign)
    } else if a == '-' && b == '=' {
        Some(Symbol::MinusAssign)
    } else if a == '-' && b == '>' {
        Some(Symbol::Arrow)
    } else {
        None
    }
}

/// The operator spelt with the one character `a` when the next character
/// does not make it a two-character operator, if any.
pub open spec fn one_char_operator(a: char) -> Option<Symbol> {
    if a == '=' {
        Some(Symbol::Assign)
    } else if a == '!' {
        Some(Symbol::Bang)
    } else if a == '<' {
        Some(Symbol::Lt)
    } else if a == '>' {
        Some(Symbol::Gt)
    } else if a == '+' {
        Some(Symbol::Plus)
    } else if a == '-' {
        Some(Symbol::Minus)
    } else if a == '*' {
        Some(Symbol::Star)
    } else if a == '/' {
        Some(Symbol::Slash)
    } else if a == '%' {
        Some(Symbol::Percent)
    } else {
        None
    }
}

/// Operators are read longest first: two characters that spell an
/// operator make one token, and an operator character not followed by a
/// character that extends it is a token of its own.
pub proof fn lemma_operators(s: Seq<char>, q: int)
    requires
        0 <= q < s.len(),
    ensures
        q + 1 < s.len() && two_char_operator(s[q], s[q + 1]) is Some ==> scan_token_spec(s, q) == Ok::<
            (SToken, int),
            SLexError,
        >((tok_at(s, q, STokenKind::Sym(two_char_operator(s[q], s[q + 1])->0)), q + 2)),
        one_char_operator(s[q]) is Some && !(q + 1 < s.len() && two_char_operator(s[q], s[q + 1]) is Some)
            && !(s[q] == '/' && q + 1 < s.len() && s[q + 1] == '/') ==> scan_token_spec(s, q) == Ok::<
            (SToken, int),
            SLexError,
        >((tok_at(s, q, STokenKind::Sym(one_char_operator(s[q])->0)), q + 1)),
{
}

/// Line and column stay positive and grow at most by one per character.
pub proof fn lemma_line_col_bound(s: Seq<char>, n: int)
    requires
        0 <= n <= s.len(),
    ensures
        line_col(s, n).0 >= 1,
        line_col(s, n).1 >= 1,
        line_col(s, n).0 + line_col(s, n).1 <= n + 2,
    decreases n,
{
    if n > 0 {
        lemma_line_col_bound(s, n - 1);
    }
}

pub proof fn lemma_line_end(s: Seq<char>, p: int)
    requires
        0 <= p <= s.len(),
    ensures
        p <= line_end(s, p) <= s.len(),
        line_end(s, p) < s.len() ==> s[line_end(s, p)] == '\n',
    decreases s.len() - p,
{
    if p < s.len() && s[p] != '\n' {
        lemma_line_end(s, p + 1);
    }
}

pub proof fn lemma_skip_ws(s: Seq<char>, p: int)
    requires
        0 <= p <= s.len(),
    ensures
        p <= skip_ws(s, p) <= s.len(),
    decreases s.len() - p,
{
    if p < s.len() {
        if is_ws(s[p]) {
            lemma_skip_ws(s, p + 1);
        } else if s[p] == '/' && p + 1 < s.len() && s[p + 1] == '/' {
            lemma_line_end(s, p + 2);
            lemma_skip_ws(s, line_end(s, p + 2));
        }
    }
}

pub proof fn lemma_digits_end(s: Seq<char>, p: int)
    requires
        0 <= p <= s.len(),
    ensures
        p <= digits_end(s, p) <= s.len(),
        all_digits(s.subrange(p, digits_end(s, p))),
    decreases s.len() - p,
{
    if p < s.len() && is_digit(s[p]) {
        lemma_digits_end(s, p + 1);
        let e = digits_end(s, p);
        assert forall|i: int| 0 <= i < e - p implies is_digit(#[trigger] s.subrange(p, e)[i]) by {
            if i > 0 {
                assert(s.subrange(p, e)[i] == s.subrange(p + 1, e)[i - 1]);
            }
        }
    } else {
        assert(s.subrange(p, p).len() == 0);
    }
}

pub proof fn lemma_ident_end(s: Seq<char>, p: int)
    requires
        0 <= p <= s.len(),
    ensures
        p <= ident_end(s, p) <= s.len(),
    decreases s.len() - p,
{
    if p < s.len() && is_ident_continue(s[p]) {
        lemma_ident_end(s, p + 1);
    }
}

pub proof fn lemma_string_body(s: Seq<char>, p: int, acc: Seq<char>, line: usize)
    requires
        0 <= p,
    ensures
        string_body(s, p, acc, line) matches Ok((_, r)) ==> p < r <= s.len(),
    decreases s.len() - p,
{
    if 0 <= p < s.len() && s[p] != '"' {
        if s[p] == '\\' {
            if p + 1 < s.len() {
                lemma_string_body(s, p + 2, acc.push(escape_char(s[p + 1])), line);
            }
        } else {
            lemma_string_body(s, p + 1, acc.push(s[p]), line);
        }
    }
}

/// Every token takes at least one character, and none beyond the end.
pub proof fn lemma_scan_token_advances(s: Seq<char>, q: int)
    requires
        0 <= q < s.len(),
    ensures
        scan_token_spec(s, q) matches Ok((_, r)) ==> q < r <= s.len(),
{
    let c = s[q];
    if is_digit(c) {
        lemma_digits_end(s, q);
        lemma_digits_end(s, q + 1);
        let e = digits_end(s, q);
        if e + 1 < s.len() {
            lemma_digits_end(s, e + 1);
        }
    } else if is_ident_start(c) {
        lemma_ident_end(s, q + 1);
    } else if c == '"' {
        lemma_string_body(s, q + 1, Seq::empty(), line_col(s, q).0 as usize);
    }
}

/// Scanning one token never yields the end-of-input token.
pub proof fn lemma_scan_not_eof(s: Seq<char>, q: int)
    requires
        0 <= q < s.len(),
    ensures
        scan_token_spec(s, q) matches Ok((t, _)) ==> t.kind != STokenKind::Sym(Symbol::Eof),
{
}

/// The tokens lexed from `p` on, after tokens `acc` that hold no
/// end-of-input token, extend `acc` and hold one end-of-input token, the
/// last.
pub proof fn lemma_lex_from_eof(s: Seq<char>, p: int, acc: Seq<SToken>)
    requires
        forall|k: int| 0 <= k < acc.len() ==> (#[trigger] acc[k]).kind != STokenKind::Sym(Symbol::Eof),
    ensures
        lex_from(s, p, acc) matches Ok(ts) ==> {
            &&& ts.len() > acc.len()
            &&& ts.subrange(0, acc.len() as int) == acc
            &&& ts.last().kind == STokenKind::Sym(Symbol::Eof)
            &&& forall|k: int| 0 <= k < ts.len() - 1 ==> (#[trigger] ts[k]).kind != STokenKind::Sym(Symbol::Eof)
        },
    decreases s.len() - p,
{
    let q = skip_ws(s, p);
    if p < 0 || q >= s.len() {
        let ts = acc.push(tok_at(s, q, STokenKind::Sym(Symbol::Eof)));
        assert(ts.subrange(0, acc.len() as int) =~= acc);
    } else {
        lemma_skip_ws(s, p);
        lemma_scan_token_advances(s, q);
        lemma_scan_not_eof(s, q);
        match scan_token_spec(s, q) {
            Ok((t, r)) => {
                let acc2 = acc.push(t);
                assert forall|k: int| 0 <= k < acc2.len() implies (#[trigger] acc2[k]).kind
                    != STokenKind::Sym(Symbol::Eof) by {
                    if k < acc.len() {
                        assert(acc2[k] == acc[k]);
                    }
                }
                lemma_lex_from_eof(s, r, acc2);
                if let Ok(ts) = lex_from(s, r, acc2) {
                    assert(ts.subrange(0, acc.len() as int) =~= ts.subrange(0, acc2.len() as int).subrange(
                        0,
                        acc.len() as int,
                    ));
                    assert(acc2.subrange(0, acc.len() as int) =~= acc);
                }
            },
            Err(_) => {},
        }
    }
}

/// The tokens of a text that lexes end with the end-of-input token, and
/// hold no other.
pub proof fn lemma_tokens_end_with_eof(s: Seq<char>)
    ensures
        tokenize_spec(s) matches Ok(ts) ==> {
            &&& ts.len() > 0
            &&& ts.last().kind == STokenKind::Sym(Symbol::Eof)
            &&& forall|k: int| 0 <= k < ts.len() - 1 ==> (#[trigger] ts[k]).kind != STokenKind::Sym(Symbol::Eof)
        },
{
    lemma_lex_from_eof(s, 0, Seq::empty());
}

/// Position `a` (line, column) comes before position `b` in reading order.
pub open spec fn pos_before(a: (nat, nat), b: (nat, nat)) -> bool {
    a.0 < b.0 || (a.0 == b.0 && a.1 < b.1)
}

/// The position of a token.
pub open spec fn token_pos(t: SToken) -> (nat, nat) {
    (t.line as nat, t.col as nat)
}

/// Reading a character moves the position forward.
proof fn lemma_line_col_increases(s: Seq<char>, a: int, b: int)
    requires
        0 <= a < b <= s.len(),
    ensures
        pos_before(line_col(s, a), line_col(s, b)),
    decreases b - a,
{
    if a + 1 < b {
        lemma_line_col_increases(s, a, b - 1);
    }
}

/// Every token that scanning yields is placed at the index it starts at.
proof fn lemma_scan_token_pos(s: Seq<char>, q: int)
    requires
        0 <= q < s.len(),
        s.len() < usize::MAX,
    ensures
        scan_token_spec(s, q) matches Ok((t, _)) ==> token_pos(t) == line_col(s, q),
{
    lemma_line_col_bound(s, q);
}

/// Tokens lexed from `p` on, after tokens `acc` that come in reading
/// order and all before index `p`, come in reading order.
proof fn lemma_lex_from_ordered(s: Seq<char>, p: int, acc: Seq<SToken>)
    requires
        0 <= p <= s.len(),
        s.len() < usize::MAX,
        forall|j: int, k: int| 0 <= j < k < acc.len() ==> pos_before(
            token_pos(#[trigger] acc[j]),
            token_pos(#[trigger] acc[k]),
        ),
        forall|j: int| 0 <= j < acc.len() ==> pos_before(token_pos(#[trigger] acc[j]), line_col(s, p)),
    ensures
        lex_from(s, p, acc) matches Ok(ts) ==> forall|j: int, k: int|
            0 <= j < k < ts.len() ==> pos_before(token_pos(#[trigger] ts[j]), token_pos(#[trigger] ts[k])),
    decreases s.len() - p,
{
    let q = skip_ws(s, p);
    lemma_skip_ws(s, p);
    if p < q {
        lemma_line_col_increases(s, p, q);
    }
    if q >= s.len() {
        let t = tok_at(s, q, STokenKind::Sym(Symbol::Eof));
        lemma_line_col_bound(s, q);
        let ts = acc.push(t);
        assert forall|j: int, k: int| 0 <= j < k < ts.len() implies pos_before(
            token_pos(#[trigger] ts[j]),
            token_pos(#[trigger] ts[k]),
        ) by {
            if k == acc.len() {
                assert(ts[j] == acc[j]);
                assert(token_pos(ts[k]) == line_col(s, q));
            } else {
                assert(ts[j] == acc[j] && ts[k] == acc[k]);
            }
        }
    } else {
        lemma_scan_token_advances(s, q);
        lemma_scan_token_pos(s, q);
        match scan_token_spec(s, q) {
            Ok((t, r)) => {
                lemma_line_col_increases(s, q, r);
                let acc2 = acc.push(t);
                assert forall|j: int, k: int| 0 <= j < k < acc2.len() implies pos_before(
                    token_pos(#[trigger] acc2[j]),
                    token_pos(#[trigger] acc2[k]),
                ) by {
                    if k == acc.len() {
                        assert(acc2[j] == acc[j]);
                    } else {
                        assert(acc2[j] == acc[j] && acc2[k] == acc[k]);
                    }
                }
                assert forall|j: int| 0 <= j < acc2.len() implies pos_before(
                    token_pos(#[trigger] acc2[j]),
                    line_col(s, r),
                ) by {
                    if j < acc.len() {
                        assert(acc2[j] == acc[j]);
                    }
                }
                lemma_lex_from_ordered(s, r, acc2);
            },
            Err(_) => {},
        }
    }
}

/// The tokens of a text come in reading order: each starts at a later
/// line, or later on the same line, than the one before.
pub proof fn lemma_token_positions_increase(s: Seq<char>)
    requires
        s.len() < usize::MAX,
    ensures
        tokenize_spec(s) matches Ok(ts) ==> forall|j: int, k: int|
            0 <= j < k < ts.len() ==> pos_before(token_pos(#[trigger] ts[j]), token_pos(#[trigger] ts[k])),
{
    lemma_lex_from_ordered(s, 0, Seq::empty());
}

// ─── The lexer ───────────────────────────────────────────────

/// A lexer over one source text: the characters, the index of the next one,
/// and its line and column.
pub struct Lexer {
    chars: Vec<char>,
    pos: usize,
    line: usize,
    col: usize,
}

impl Lexer {
    /// The characters of the source text.
    pub closed spec fn source(&self) -> Seq<char> {
        self.chars@
    }

    /// The index of the next character to read.
    pub closed spec fn position(&self) -> int {
        self.pos as int
    }

    /// The lexer's state is consistent: the position is within the text and
    /// the line and column are those of the position.
    pub closed spec fn wf(&self) -> bool {
        &&& self.pos <= self.chars@.len()
        &&& self.chars@.len() < usize::MAX
        &&& self.line as nat == line_col(self.chars@, self.pos as int).0
        &&& self.col as nat == line_col(self.chars@, self.pos as int).1
    }

    /// The line and column (both from 1) of the next character to read.
    pub closed spec fn place(&self) -> (nat, nat) {
        (self.line as nat, self.col as nat)
    }

    /// In a consistent lexer, the line and column are those of the
    /// position in the source text.
    pub proof fn lemma_place(&self)
        requires
            self.wf(),
        ensures
            self.place() == line_col(self.source(), self.position()),
            self.position() <= self.source().len(),
    {
    }

    /// A lexer at the start of `source`: nothing read, at line 1,
    /// column 1.
    pub fn new(source: &str) -> (r: Lexer)
        requires
            source@.len() < usize::MAX,
        ensures
            r.wf(),
            r.source() == source@,
            r.position() == 0,
            r.place() == (1nat, 1nat),
    {
        Lexer { chars: chars_of(source), pos: 0, line: 1, col: 1 }
    }

    /// Splits `source` into tokens, ending with an end-of-input token.
    pub fn tokenize(source: &str) -> (r: Result<Vec<Token>, LexError>)
        requires
            source@.len() < usize::MAX,
        ensures
            match tokenize_spec(source@) {
                Ok(ts) => r matches Ok(v) && tokens_view(v@) == ts,
                Err(e) => r matches Err(x) && x@ == e,
            },
    {
        let mut lexer = Lexer::new(source);
        let mut tokens: Vec<Token> = Vec::new();
        let ghost s = source@;
        assert(tokens_view(tokens@) =~= Seq::<SToken>::empty());
        loop
            invariant
                lexer.wf(),
                lexer.chars@ == s,
                s == source@,
                tokenize_spec(s) == lex_from(s, lexer.pos as int, tokens_view(tokens@)),
            decreases s.len() - lexer.pos,
        {
            let ghost p = lexer.pos as int;
            let ghost acc = tokens_view(tokens@);
            lexer.skip_whitespace_and_comments();
            proof {
                lemma_skip_ws(s, p);
            }
            if lexer.pos >= lexer.chars.len() {
                let t = Token::new(TokenKind::Sym(Symbol::Eof), lexer.line, lexer.col);
                tokens.push(t);
                assert(tokens_view(tokens@) =~= acc.push(
                    tok_at(s, lexer.pos as int, STokenKind::Sym(Symbol::Eof)),
                ));
                return Ok(tokens);
            }
            let ghost q = lexer.pos as int;
            proof {
                lemma_scan_token_advances(s, q);
            }
            let token = match lexer.scan_token() {
                Ok(t) => t,
                Err(e) => {
                    return Err(e);
                },
            };
            let ghost tv = token@;
            tokens.push(token);
            assert(tokens_view(tokens@) =~= acc.push(tv));
        }
    }

    /// The next character, if any, without reading it.
    fn peek(&self) -> (r: Option<char>)
        requires
            self.wf(),
        ensures
            self.pos < self.chars@.len() ==> r == Some(self.chars@[self.pos as int]),
            self.pos >= self.chars@.len() ==> r is None,
    {
        if self.pos < self.chars.len() {
            Some(self.chars[self.pos])
        } else {
            None
        }
    }

    /// The character after the next one, if any.
    fn peek_second(&self) -> (r: Option<char>)
        requires
            self.wf(),
        ensures
            self.pos + 1 < self.chars@.len() ==> r == Some(self.chars@[self.pos + 1]),
            self.pos + 1 >= self.chars@.len() ==> r is None,
    {
        if self.pos + 1 < self.chars.len() {
            Some(self.chars[self.pos + 1])
        } else {
            None
        }
    }

    /// Line and column of the next character.
    fn pos(&self) -> (r: (usize, usize))
        requires
            self.wf(),
        ensures
            r.0 == line_col(self.chars@, self.pos as int).0,
            r.1 == line_col(self.chars@, self.pos as int).1,
    {
        (self.line, self.col)
    }

    /// Reads the next character, if any, keeping line and column.
    fn advance(&mut self) -> (r: Option<char>)
        requires
            old(self).wf(),
        ensures
            final(self).wf(),
            final(self).chars@ == old(self).chars@,
            old(self).pos < old(self).chars@.len() ==> final(self).pos == old(self).pos + 1 && r
                == Some(old(self).chars@[old(self).pos as int]),
            old(self).pos >= old(self).chars@.len() ==> final(self).pos == old(self).pos && r is None,
    {
        if self.pos < self.chars.len() {
            let ch = self.chars[self.pos];
            proof {
                lemma_line_col_bound(self.chars@, self.pos + 1);
            }
            if ch == '\n' {
                self.line = self.line + 1;
                self.col = 1;
            } else {
                self.col = self.col + 1;
            }
            self.pos = self.pos + 1;
            Some(ch)
        } else {
            None
        }
    }

    fn skip_whitespace_and_comments(&mut self)
        requires
            old(self).wf(),
        ensures
            final(self).wf(),
            final(self).chars@ == old(self).chars@,
            final(self).pos as int == skip_ws(old(self).chars@, old(self).pos as int),
    {
        let ghost s = self.chars@;
        loop
            invariant
                self.wf(),
                self.chars@ == s,
                s == old(self).chars@,
                skip_ws(s, old(self).pos as int) == skip_ws(s, self.pos as int),
            decreases s.len() - self.pos,
        {
            match self.peek() {
                Some(ch) => {
                    if ch == ' ' || ch == '\t' || ch == '\r' || ch == '\n' {
                        self.advance();
                    } else if ch == '/' && self.peek_second() == Some('/') {
                        let ghost p = self.pos as int;
                        self.advance();
                        self.advance();
                        while self.pos < self.chars.len() && self.chars[self.pos] != '\n'
                            invariant
                                self.wf(),
                                self.chars@ == s,
                                p + 2 <= self.pos <= s.len(),
                                line_end(s, p + 2) == line_end(s, self.pos as int),
                            decreases s.len() - self.pos,
                        {
                            self.advance();
                        }
                        assert(line_end(s, self.pos as int) == self.pos);
                    } else {
                        return;
                    }
                },
                None => {
                    return;
                },
            }
        }
    }

    /// Reads a run of ASCII digits.
    fn skip_digits(&mut self)
        requires
            old(self).wf(),
        ensures
            final(self).wf(),
            final(self).chars@ == old(self).chars@,
            final(self).pos as int == digits_end(old(self).chars@, old(self).pos as int),
    {
        let ghost s = self.chars@;
        loop
            invariant
                self.wf(),
                self.chars@ == s,
                s == old(self).chars@,
                digits_end(s, old(self).pos as int) == digits_end(s, self.pos as int),
            decreases s.len() - self.pos,
        {
            match self.peek() {
                Some(ch) => {
                    if char_is_digit(ch) {
                        self.advance();
                    } else {
                        return;
                    }
                },
                None => {
                    return;
                },
            }
        }
    }

    /// Reads a number literal starting at a digit.
    fn scan_number(&mut self) -> (r: Result<Token, LexError>)
        requires
            old(self).wf(),
            old(self).pos < old(self).chars@.len(),
            is_digit(old(self).chars@[old(self).pos as int]),
        ensures
            final(self).wf(),
            final(self).chars@ == old(self).chars@,
            match scan_number_spec(old(self).chars@, old(self).pos as int) {
                Ok((t, e)) => r matches Ok(x) && x@ == t && final(self).pos == e,
                Err(e) => r matches Err(x) && x@ == e,
            },
    {
        let ghost s = self.chars@;
        let start = self.pos;
        let (line, col) = self.pos();
        self.skip_digits();
        let e = self.pos;
        proof {
            lemma_digits_end(s, start as int);
        }
        if self.peek() == Some('.') {
            match self.peek_second() {
                Some(c) => {
                    if char_is_digit(c) {
                        self.advance();
                        self.skip_digits();
                        proof {
                            lemma_digits_end(s, e + 1);
                        }
                        let text = string_from_chars(&self.chars, start, self.pos);
                        return Ok(Token::new(TokenKind::Float(text), line, col));
                    }
                },
                None => {},
            }
        }
        match digits_value_upto(&self.chars, start, e, 0x7fff_ffff_ffff_ffffu64) {
            Some(v) => Ok(Token::new(TokenKind::Int(v as i64), line, col)),
            None => {
                let src = string_from_chars(&self.chars, start, e);
                Err(LexError::InvalidNumber { src, line, col })
            },
        }
    }

    /// Reads an identifier or keyword starting at an ASCII letter or `_`.
    fn scan_identifier(&mut self) -> (r: Token)
        requires
            old(self).wf(),
            old(self).pos < old(self).chars@.len(),
            is_ident_start(old(self).chars@[old(self).pos as int]),
        ensures
            final(self).wf(),
            final(self).chars@ == old(self).chars@,
            scan_ident_spec(old(self).chars@, old(self).pos as int) matches Ok((t, e)) && r@ == t
                && final(self).pos == e,
    {
        let ghost s = self.chars@;
        let start = self.pos;
        let (line, col) = self.pos();
        self.advance();
        while self.pos < self.chars.len() && (is_alphanumeric(self.chars[self.pos])
            || self.chars[self.pos] == '_')
            invariant
                self.wf(),
                self.chars@ == s,
                s == old(self).chars@,
                start < self.pos <= s.len(),
                ident_end(s, start + 1) == ident_end(s, self.pos as int),
            decreases s.len() - self.pos,
        {
            self.advance();
        }
        let kind = match keyword_lookup(&self.chars, start, self.pos) {
            Some(k) => TokenKind::Sym(k),
            None => TokenKind::Ident(string_from_chars(&self.chars, start, self.pos)),
        };
        Token::new(kind, line, col)
    }

    /// Reads a string literal starting at its opening quote.
    fn scan_string(&mut self) -> (r: Result<Token, LexError>)
        requires
            old(self).wf(),
            old(self).pos < old(self).chars@.len(),
            old(self).chars@[old(self).pos as int] == '"',
        ensures
            final(self).wf(),
            final(self).chars@ == old(self).chars@,
            match scan_string_spec(old(self).chars@, old(self).pos as int) {
                Ok((t, e)) => r matches Ok(x) && x@ == t && final(self).pos == e,
                Err(e) => r matches Err(x) && x@ == e,
            },
    {
        let ghost s = self.chars@;
        let (line, col) = self.pos();
        self.advance();
        let mut text = String::new();
        loop
            invariant_except_break
                string_body(s, old(self).pos + 1, Seq::empty(), line) == string_body(
                    s,
                    self.pos as int,
                    text@,
                    line,
                ),
            invariant
                self.wf(),
                self.chars@ == s,
                s == old(self).chars@,
                line == line_col(s, old(self).pos as int).0,
            ensures
                self.wf(),
                self.chars@ == s,
                s == old(self).chars@,
                string_body(s, old(self).pos + 1, Seq::empty(), line) == Ok::<(Seq<char>, int), SLexError>((text@, self.pos as int)),
            decreases s.len() - self.pos,
        {
            match self.peek() {
                None => {
                    return Err(LexError::UnterminatedString { line });
                },
                Some(ch) => {
                    if ch == '"' {
                        self.advance();
                        break;
                    } else if ch == '\\' {
                        self.advance();
                        match self.peek() {
                            None => {
                                return Err(LexError::UnterminatedString { line });
                            },
                            Some(c) => {
                                let e = if c == 'n' {
                                    '\n'
                                } else if c == 't' {
                                    '\t'
                                } else if c == 'r' {
                                    '\r'
                                } else if c == '0' {
                                    '\0'
                                } else {
                                    c
                                };
                                crate::text::push_char(&mut text, e);
                                self.advance();
                            },
                        }
                    } else {
                        crate::text::push_char(&mut text, ch);
                        self.advance();
                    }
                },
            }
        }
        Ok(Token::new(TokenKind::Str(text), line, col))
    }

    /// Reads a one-character token.
    fn single(&mut self, kind: Symbol) -> (r: Token)
        requires
            old(self).wf(),
            old(self).pos < old(self).chars@.len(),
        ensures
            final(self).wf(),
            final(self).chars@ == old(self).chars@,
            scan_single_spec(old(self).chars@, old(self).pos as int, kind) matches Ok((t, e)) && r@
                == t && final(self).pos == e,
    {
        let (line, col) = self.pos();
        self.advance();
        Token::new(TokenKind::Sym(kind), line, col)
    }

    /// Reads `two` when the character after the next is `next`, else `one`.
    fn scan_pair(&mut self, next: char, two: Symbol, one: Symbol) -> (r: Token)
        requires
            old(self).wf(),
            old(self).pos < old(self).chars@.len(),
        ensures
            final(self).wf(),
            final(self).chars@ == old(self).chars@,
            scan_pair_spec(old(self).chars@, old(self).pos as int, next, two, one) matches Ok(
                (t, e),
            ) && r@ == t && final(self).pos == e,
    {
        let (line, col) = self.pos();
        self.advance();
        if self.peek() == Some(next) {
            self.advance();
            Token::new(TokenKind::Sym(two), line, col)
        } else {
            Token::new(TokenKind::Sym(one), line, col)
        }
    }

    /// Reads `+` or `+=`.
    fn scan_plus(&mut self) -> (r: Token)
        requires
            old(self).wf(),
            old(self).pos < old(self).chars@.len(),
        ensures
            final(self).wf(),
            final(self).chars@ == old(self).chars@,
            scan_pair_spec(old(self).chars@, old(self).pos as int, '=', Symbol::PlusAssign, Symbol::Plus) matches Ok(
                (t, e),
            ) && r@ == t && final(self).pos == e,
    {
        self.scan_pair('=', Symbol::PlusAssign, Symbol::Plus)
    }

    /// Reads `-`, `-=` or `->`.
    fn scan_minus_or_arrow(&mut self) -> (r: Token)
        requires
            old(self).wf(),
            old(self).pos < old(self).chars@.len(),
            old(self).chars@[old(self).pos as int] == '-',
        ensures
            final(self).wf(),
            final(self).chars@ == old(self).chars@,
            scan_token_spec(old(self).chars@, old(self).pos as int) matches Ok((t, e)) && r@ == t
                && final(self).pos == e,
    {
        let (line, col) = self.pos();
        self.advance();
        if self.peek() == Some('=') {
            self.advance();
            Token::new(TokenKind::Sym(Symbol::MinusAssign), line, col)
        } else if self.peek() == Some('>') {
            self.advance();
            Token::new(TokenKind::Sym(Symbol::Arrow), line, col)
        } else {
            Token::new(TokenKind::Sym(Symbol::Minus), line, col)
        }
    }

    /// Reads `=` or `==`.
    fn scan_eq_or_assign(&mut self) -> (r: Token)
        requires
            old(self).wf(),
            old(self).pos < old(self).chars@.len(),
        ensures
            final(self).wf(),
            final(self).chars@ == old(self).chars@,
            scan_pair_spec(old(self).chars@, old(self).pos as int, '=', Symbol::Eq, Symbol::Assign) matches Ok(
                (t, e),
            ) && r@ == t && final(self).pos == e,
    {
        self.scan_pair('=', Symbol::Eq, Symbol::Assign)
    }

    /// Reads `!` or `!=`.
    fn scan_bang(&mut self) -> (r: Token)
        requires
            old(self).wf(),
            old(self).pos < old(self).chars@.len(),
        ensures
            final(self).wf(),
            final(self).chars@ == old(self).chars@,
            scan_pair_spec(old(self).chars@, old(self).pos as int, '=', Symbol::NotEq, Symbol::Bang) matches Ok(
                (t, e),
            ) && r@ == t && final(self).pos == e,
    {
        self.scan_pair('=', Symbol::NotEq, Symbol::Bang)
    }

    /// Reads `<` or `<=`.
    fn scan_lt(&mut self) -> (r: Token)
        requires
            old(self).wf(),
            old(self).pos < old(self).chars@.len(),
        ensures
            final(self).wf(),
            final(self).chars@ == old(self).chars@,
            scan_pair_spec(old(self).chars@, old(self).pos as int, '=', Symbol::LtEq, Symbol::Lt) matches Ok(
                (t, e),
            ) && r@ == t && final(self).pos == e,
    {
        self.scan_pair('=', Symbol::LtEq, Symbol::Lt)
    }

    /// Reads `>` or `>=`.
    fn scan_gt(&mut self) -> (r: Token)
        requires
            old(self).wf(),
            old(self).pos < old(self).chars@.len(),
        ensures
            final(self).wf(),
            final(self).chars@ == old(self).chars@,
            scan_pair_spec(old(self).chars@, old(self).pos as int, '=', Symbol::GtEq, Symbol::Gt) matches Ok(
                (t, e),
            ) && r@ == t && final(self).pos == e,
    {
        self.scan_pair('=', Symbol::GtEq, Symbol::Gt)
    }

    /// Reads `&&` or `||` (`c` twice); `c` alone is an unexpected
    /// character.
    fn scan_double(&mut self, c: char, k: Symbol) -> (r: Result<Token, LexError>)
        requires
            old(self).wf(),
            old(self).pos < old(self).chars@.len(),
            old(self).chars@[old(self).pos as int] == c,
        ensures
            final(self).wf(),
            final(self).chars@ == old(self).chars@,
            match scan_double_spec(old(self).chars@, old(self).pos as int, c, k) {
                Ok((t, e)) => r matches Ok(x) && x@ == t && final(self).pos == e,
                Err(e) => r matches Err(x) && x@ == e,
            },
    {
        let (line, col) = self.pos();
        self.advance();
        if self.peek() == Some(c) {
            self.advance();
            Ok(Token::new(TokenKind::Sym(k), line, col))
        } else {
            Err(LexError::UnexpectedChar { ch: c, line, col })
        }
    }

    /// Reads `&&`; a single `&` is an unexpected character.
    fn scan_and(&mut self) -> (r: Result<Token, LexError>)
        requires
            old(self).wf(),
            old(self).pos < old(self).chars@.len(),
            old(self).chars@[old(self).pos as int] == '&',
        ensures
            final(self).wf(),
            final(self).chars@ == old(self).chars@,
            match scan_double_spec(old(self).chars@, old(self).pos as int, '&', Symbol::And) {
                Ok((t, e)) => r matches Ok(x) && x@ == t && final(self).pos == e,
                Err(e) => r matches Err(x) && x@ == e,
            },
    {
        self.scan_double('&', Symbol::And)
    }

    /// Reads `||`; a single `|` is an unexpected character.
    fn scan_or(&mut self) -> (r: Result<Token, LexError>)
        requires
            old(self).wf(),
            old(self).pos < old(self).chars@.len(),
            old(self).chars@[old(self).pos as int] == '|',
        ensures
            final(self).wf(),
            final(self).chars@ == old(self).chars@,
            match scan_double_spec(old(self).chars@, old(self).pos as int, '|', Symbol::Or) {
                Ok((t, e)) => r matches Ok(x) && x@ == t && final(self).pos == e,
                Err(e) => r matches Err(x) && x@ == e,
            },
    {
        self.scan_double('|', Symbol::Or)
    }

    /// Reads the token at the next character, which is not whitespace.
    fn scan_token(&mut self) -> (r: Result<Token, LexError>)
        requires
            old(self).wf(),
            old(self).pos < old(self).chars@.len(),
        ensures
            final(self).wf(),
            final(self).chars@ == old(self).chars@,
            match scan_token_spec(old(self).chars@, old(self).pos as int) {
                Ok((t, e)) => r matches Ok(x) && x@ == t && final(self).pos == e,
                Err(e) => r matches Err(x) && x@ == e,
            },
    {
        let ch = self.chars[self.pos];
        if char_is_digit(ch) {
            self.scan_number()
        } else if ('a' <= ch && ch <= 'z') || ('A' <= ch && ch <= 'Z') || ch == '_' {
            Ok(self.scan_identifier())
        } else if ch == '"' {
            self.scan_string()
        } else if ch == '+' {
            Ok(self.scan_plus())
        } else if ch == '-' {
            Ok(self.scan_minus_or_arrow())
        } else if ch == '*' {
            Ok(self.single(Symbol::Star))
        } else if ch == '/' {
            Ok(self.single(Symbol::Slash))
        } else if ch == '%' {
            Ok(self.single(Symbol::Percent))
        } else if ch == '=' {
            Ok(self.scan_eq_or_assign())
        } else if ch == '!' {
            Ok(self.scan_bang())
        } else if ch == '<' {
            Ok(self.scan_lt())
        } else if ch == '>' {
            Ok(self.scan_gt())
        } else if ch == '&' {
            self.scan_and()
        } else if ch == '|' {
            self.scan_or()
        } else if ch == '(' {
            Ok(self.single(Symbol::LParen))
        } else if ch == ')' {
            Ok(self.single(Symbol::RParen))
        } else if ch == '{' {
            Ok(self.single(Symbol::LBrace))
        } else if ch == '}' {
            Ok(self.single(Symbol::RBrace))
        } else if ch == '[' {
            Ok(self.single(Symbol::LBracket))
        } else if ch == ']' {
            Ok(self.single(Symbol::RBracket))
        } else if ch == ',' {
            Ok(self.single(Symbol::Comma))
        } else if ch == ';' {
            Ok(self.single(Symbol::Semicolon))
        } else if ch == ':' {
            Ok(self.single(Symbol::Colon))
        } else {
            let (line, col) = self.pos();
            self.advance();
            Err(LexError::UnexpectedChar { ch, line, col })
        }
    }
}

/// Whether `c` is alphanumeric in Unicode's sense (the standard library's
/// `char::is_alphanumeric`).  The contract names the result and states it
/// for ASCII, where the alphanumeric characters are the letters and the
/// digits; beyond ASCII it says no more than the name.
#[verifier::external_body]
fn is_alphanumeric(c: char) -> (r: bool)
    ensures
        r == char_is_alphanumeric(c),
        c <= '\x7f' ==> (r <==> (('a' <= c && c <= 'z') || ('A' <= c && c <= 'Z') || ('0' <= c
            && c <= '9'))),
{
    c.is_alphanumeric()
}

} // verus!

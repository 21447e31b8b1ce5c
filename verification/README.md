# mini_lang

A small tree-walking interpreter for a dynamically typed scripting language
(variables and constants, integers, floats, strings, booleans, arrays,
functions with closures, `if`/`while`/`for`, `break`/`continue`/`return`,
and the built-ins `print println len push pop int str type`), written in
Verus and proved against its specification.

## Layout

- `src/lexer.rs`, `src/token.rs` — the lexer, proved equal to a spec
  function from characters to tokens (or the first lexical error).
- `src/parser.rs`, `src/ast.rs` — a recursive-descent parser, proved equal to
  a spec grammar from tokens to statements (or the first syntax error).
- `src/semantics.rs` — a big-step semantics of the language as spec
  functions over an abstract machine state (scopes, arrays, functions,
  printed text), with its laws.
- `src/interpreter.rs`, `src/environment.rs`, `src/value.rs` — the
  interpreter, proved to compute exactly what the semantics says and to keep
  the state consistent.
- `src/repl.rs` — the interactive prompt's decisions (brace counting,
  commands, gathering multi-line input).
- `src/errors.rs`, `src/text.rs` — error types with their messages, and text
  helpers.
- `app/main.rs` — the command line: line editing, files, printing.
- `tests/` — end-to-end and unit tests.

## Design notes

Arrays, functions and scopes live in stores inside the interpreter and values
refer to them by index, so sharing (two names bound to one array) and
closures (a function keeps the scope it was defined in) need no shared
mutable pointers.

Floating point stays outside the verified code: a float is held as its
IEEE-754 bit pattern and the interpreter puts each float operation to its
host as a question (`Question`: a literal's value, a conversion, `+ - * /
%`, a comparison, the text of a float) through the `Host` trait, which the
command line and the tests implement with `f64`.  The interpreter records every question it puts to the host
together with the answer, and the semantics takes the host's answers as a
sequence of replies: each evaluating function is proved to give what the
semantics gives for every sequence of replies that begins with the answers
its host gave, so results that involve floats are stated in terms of the
host's answers, and which questions were asked, with which operands and in
which order, is stated too.  Printed text is handed to the host as well;
the semantics records it, in order.

Evaluation carries a step budget (the largest `u64`) so that the semantics
is a total function; running out of it is the runtime error
`StepLimitExceeded`.

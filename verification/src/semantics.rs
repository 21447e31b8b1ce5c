//! The meaning of programs: a big-step semantics written as spec functions.
//!
//! A machine state (`SMachine`) holds the scopes, the arrays, the
//! user-defined functions and the text printed so far.  Evaluating an
//! expression or running a statement yields a result and a new state, or a
//! runtime error and the state reached when it was raised (what was done
//! before the error stays done).
//!
//! Float arithmetic, float comparison, the conversion of a float literal or
//! an integer to a float, of a float to an integer, and the text of a float
//! are the host's to compute (see `interpreter::Host`).  The state records
//! every question put to the host with its answer (`asked`), and the
//! semantics reads the host's answers, in order, from `replies`; the
//! interpreter is proved to run as the semantics says for the replies its
//! host actually gave.  `Opaque` is the outcome only where `replies` runs
//! out.  Negating a float (flipping its sign bit) and testing it for zero
//! are computed by the interpreter itself.
//!
//! Every step consumes one unit of `fuel` on the way down (a call, a loop
//! round, a nested evaluation); with no fuel left the evaluation fails with
//! `StepLimitExceeded`.  The interpreter starts from the largest `u64`.

use crate::ast::{BinOp, SExpr, SStmt, UnaryOp};
use crate::environment::{
    assign_spec, define_const_spec, define_spec, env_values_ok, lookup, scopes_wf, SScope,
};
use crate::errors::SRuntimeError;
use crate::text::{decimal, join, parse_i64_spec, seq_less};
use crate::value::{float_is_zero, float_neg, int_text, type_label_spec, value_ok, Builtin, SValue};
use vstd::prelude::*;

verus! {

// ─── States and outcomes ─────────────────────────────────────

/// A user-defined function: parameters, body, and the scope it was
/// defined in.
pub struct SFunc {
    pub params: Seq<Seq<char>>,
    pub body: Seq<SStmt>,
    pub closure: usize,
}

/// A question the interpreter puts to its host.
pub enum HostCall {
    /// The float a literal denotes.
    ParseFloat(Seq<char>),
    /// The float nearest to an integer.
    IntToFloat(i64),
    /// A float truncated to an integer.
    FloatToInt(u64),
    Add(u64, u64),
    Sub(u64, u64),
    Mul(u64, u64),
    Div(u64, u64),
    Rem(u64, u64),
    Eq(u64, u64),
    Lt(u64, u64),
    Gt(u64, u64),
    Le(u64, u64),
    Ge(u64, u64),
    /// The text of a float.
    Format(u64),
}

/// The host's answer to a question.
pub enum HostAnswer {
    Float(u64),
    Int(i64),
    Bool(bool),
    Text(Seq<char>),
}

/// The state of the interpreter: scopes, arrays, functions, the text
/// printed, the questions put to the host with its answers, and the
/// replies the host gives, in order (of which `asked` has used as many as
/// it holds).
pub struct SMachine {
    pub scopes: Seq<SScope>,
    pub arrays: Seq<Seq<SValue>>,
    pub funcs: Seq<SFunc>,
    pub output: Seq<char>,
    pub asked: Seq<(HostCall, HostAnswer)>,
    pub replies: Seq<HostAnswer>,
}

/// How a statement finished.
pub enum SFlow {
    Normal,
    Return(SValue),
    Break,
    Continue,
}

/// The outcome of a step: a result and the new state, an error and the
/// state reached, or no stated outcome (the host's replies ran out).
pub enum Out<T> {
    Done(T, SMachine),
    Failed(SRuntimeError, SMachine),
    Opaque,
}

/// The depth to which `display` and equality follow nested arrays.
pub open spec fn depth_limit() -> nat {
    0xffff_ffff_ffff_ffff
}

/// The number of steps the public entry points allow an evaluation.
pub open spec fn step_budget() -> nat {
    0xffff_ffff_ffff_ffff
}

/// The state is consistent: scope 0 exists, enclosing scopes come first,
/// and every stored value, array element and function refers only to
/// existing arrays, functions and scopes.
pub open spec fn machine_wf(m: SMachine) -> bool {
    &&& m.scopes.len() > 0
    &&& scopes_wf(m.scopes)
    &&& env_values_ok(m.scopes, m.arrays.len(), m.funcs.len())
    &&& forall|i: int, j: int|
        0 <= i < m.arrays.len() && 0 <= j < m.arrays[i].len() ==> value_ok(
            #[trigger] m.arrays[i][j],
            m.arrays.len(),
            m.funcs.len(),
        )
    &&& forall|f: int| 0 <= f < m.funcs.len() ==> #[trigger] m.funcs[f].closure < m.scopes.len()
}

/// `m1` has as many scopes, arrays and functions as `m0` or more, the
/// text printed in `m0` is the start of that printed in `m1`, and so are
/// the questions put to the host.
pub open spec fn grows(m0: SMachine, m1: SMachine) -> bool {
    &&& m0.scopes.len() <= m1.scopes.len()
    &&& m0.arrays.len() <= m1.arrays.len()
    &&& m0.funcs.len() <= m1.funcs.len()
    &&& m0.output.is_prefix_of(m1.output)
    &&& m0.asked.len() <= m1.asked.len()
    &&& forall|i: int| 0 <= i < m0.asked.len() ==> m1.asked[i] == #[trigger] m0.asked[i]
}

/// The replies `o` begin with the answers recorded in `log`.
pub open spec fn knows(o: Seq<HostAnswer>, log: Seq<(HostCall, HostAnswer)>) -> bool {
    &&& log.len() <= o.len()
    &&& forall|i: int| 0 <= i < log.len() ==> o[i] == (#[trigger] log[i]).1
}

/// The state with the host's replies `o`.
pub open spec fn with_replies(m: SMachine, o: Seq<HostAnswer>) -> SMachine {
    SMachine { replies: o, ..m }
}

/// The state with the host's answer `a` to `call` recorded.
pub open spec fn record(m: SMachine, call: HostCall, a: HostAnswer) -> SMachine {
    SMachine { asked: m.asked.push((call, a)), ..m }
}

/// `m1` holds the same scopes, arrays, functions and printed text as `m0`.
pub open spec fn same_data(m0: SMachine, m1: SMachine) -> bool {
    &&& m1.scopes == m0.scopes
    &&& m1.arrays == m0.arrays
    &&& m1.funcs == m0.funcs
    &&& m1.output == m0.output
}

/// Puts `call` to the host: its next reply, and the state with the
/// question and the answer recorded; `None` when the replies have run out.
pub open spec fn ask(m: SMachine, call: HostCall) -> Option<(HostAnswer, SMachine)> {
    let k = m.asked.len() as int;
    if k < m.replies.len() {
        Some((m.replies[k], record(m, call, m.replies[k])))
    } else {
        None
    }
}

/// Puts `call` to the host and takes a float for an answer.
pub open spec fn ask_float(m: SMachine, call: HostCall) -> Option<(u64, SMachine)> {
    match ask(m, call) {
        Some((HostAnswer::Float(x), m1)) => Some((x, m1)),
        _ => None,
    }
}

/// Puts `call` to the host and takes an integer for an answer.
pub open spec fn ask_int(m: SMachine, call: HostCall) -> Option<(i64, SMachine)> {
    match ask(m, call) {
        Some((HostAnswer::Int(x), m1)) => Some((x, m1)),
        _ => None,
    }
}

/// Puts `call` to the host and takes a truth value for an answer.
pub open spec fn ask_bool(m: SMachine, call: HostCall) -> Option<(bool, SMachine)> {
    match ask(m, call) {
        Some((HostAnswer::Bool(x), m1)) => Some((x, m1)),
        _ => None,
    }
}

/// Puts `call` to the host and takes a text for an answer.
pub open spec fn ask_text(m: SMachine, call: HostCall) -> Option<(Seq<char>, SMachine)> {
    match ask(m, call) {
        Some((HostAnswer::Text(x), m1)) => Some((x, m1)),
        _ => None,
    }
}

/// A number as a float: a float itself, an integer as the host converts
/// it.
pub open spec fn widen(m: SMachine, v: SValue) -> Option<(u64, SMachine)> {
    match v {
        SValue::Float(b) => Some((b, m)),
        SValue::Int(n) => ask_float(m, HostCall::IntToFloat(n)),
        _ => None,
    }
}

/// The question for a float `+ - * / %`.
pub open spec fn arith_call(op: BinOp, a: u64, b: u64) -> HostCall {
    match op {
        BinOp::Add => HostCall::Add(a, b),
        BinOp::Sub => HostCall::Sub(a, b),
        BinOp::Mul => HostCall::Mul(a, b),
        BinOp::Div => HostCall::Div(a, b),
        _ => HostCall::Rem(a, b),
    }
}

/// The question for a float `< > <= >=`.
pub open spec fn compare_call(op: BinOp, a: u64, b: u64) -> HostCall {
    match op {
        BinOp::Lt => HostCall::Lt(a, b),
        BinOp::Gt => HostCall::Gt(a, b),
        BinOp::LtEq => HostCall::Le(a, b),
        _ => HostCall::Ge(a, b),
    }
}

/// A float `+ - * / %` of two numbers at least one of which is a float:
/// both widened to floats (the left first), then the host's result.
pub open spec fn float_arith_out(m: SMachine, op: BinOp, l: SValue, r: SValue) -> Out<SValue> {
    match widen(m, l) {
        Some((a, m1)) => match widen(m1, r) {
            Some((b, m2)) => match ask_float(m2, arith_call(op, a, b)) {
                Some((x, m3)) => Out::Done(SValue::Float(x), m3),
                None => Out::Opaque,
            },
            None => Out::Opaque,
        },
        None => Out::Opaque,
    }
}

/// A float comparison of two numbers at least one of which is a float:
/// both widened to floats (the left first), then the host's answer.
pub open spec fn float_compare_out(m: SMachine, op: BinOp, l: SValue, r: SValue) -> Out<SValue> {
    match widen(m, l) {
        Some((a, m1)) => match widen(m1, r) {
            Some((b, m2)) => match ask_bool(m2, compare_call(op, a, b)) {
                Some((x, m3)) => Out::Done(SValue::Bool(x), m3),
                None => Out::Opaque,
            },
            None => Out::Opaque,
        },
        None => Out::Opaque,
    }
}

/// `v` refers only to existing arrays and functions of `m`.
pub open spec fn valid(m: SMachine, v: SValue) -> bool {
    value_ok(v, m.arrays.len(), m.funcs.len())
}

// ─── Values ──────────────────────────────────────────────────

/// Whether a value counts as true in a condition.
pub open spec fn truthy(m: SMachine, v: SValue) -> bool {
    match v {
        SValue::Bool(b) => b,
        SValue::Int(n) => n != 0,
        SValue::Float(b) => !float_is_zero(b),
        SValue::Str(s) => s.len() > 0,
        SValue::Array(h) => m.arrays[h as int].len() > 0,
        SValue::Null => false,
        SValue::Func(_) => true,
        SValue::NativeFunc { .. } => true,
    }
}

/// How `print` shows a value: a float as the host formats it, an array
/// as `[a, b]` with its string elements in double quotes, a function as
/// `<func(params)>`, a built-in as `<native_func name>`.  Gives the text
/// and the state with the host's answers recorded.
pub open spec fn display(m: SMachine, v: SValue, depth: nat) -> Out<Seq<char>>
    decreases depth, 0nat,
{
    match v {
        SValue::Int(n) => Out::Done(int_text(n), m),
        SValue::Float(b) => match ask_text(m, HostCall::Format(b)) {
            Some((t, m1)) => Out::Done(t, m1),
            None => Out::Opaque,
        },
        SValue::Str(s) => Out::Done(s, m),
        SValue::Bool(b) => Out::Done(
            if b {
                "true"@
            } else {
                "false"@
            },
            m,
        ),
        SValue::Null => Out::Done("null"@, m),
        SValue::Array(h) => if depth == 0 {
            Out::Done("[...]"@, m)
        } else {
            match display_items(m, m.arrays[h as int], 0, Seq::empty(), (depth - 1) as nat) {
                Out::Done(t, m1) => Out::Done("["@ + t + "]"@, m1),
                _ => Out::Opaque,
            }
        },
        SValue::Func(f) => Out::Done(
            "<func("@ + join(m.funcs[f as int].params, ", "@) + ")>"@,
            m,
        ),
        SValue::NativeFunc { name, .. } => Out::Done("<native_func "@ + name + ">"@, m),
    }
}

/// How an array element is shown: a string in double quotes, anything
/// else as `display` shows it.
pub open spec fn item_text(m: SMachine, v: SValue, depth: nat) -> Out<Seq<char>>
    decreases depth, 1nat,
{
    match v {
        SValue::Str(s) => Out::Done("\""@ + s + "\""@, m),
        _ => display(m, v, depth),
    }
}

/// The elements `items[i..]` shown and separated by `, `, after the text
/// `acc` of the earlier ones.
pub open spec fn display_items(m: SMachine, items: Seq<SValue>, i: int, acc: Seq<char>, depth: nat) -> Out<
    Seq<char>,
>
    decreases depth, items.len() - i + 2,
{
    if i < 0 || i >= items.len() {
        Out::Done(acc, m)
    } else {
        match item_text(m, items[i], depth) {
            Out::Done(x, m1) => display_items(
                m1,
                items,
                i + 1,
                if i == 0 {
                    acc + x
                } else {
                    acc + ", "@ + x
                },
                depth,
            ),
            _ => Out::Opaque,
        }
    }
}

/// The language's `==` on values: numbers by value (an integer is
/// converted to a float by the host to meet a float, and the host compares
/// floats), strings, booleans and `null` by value, arrays of the same
/// length element by element; values of other kinds are unequal.
pub open spec fn values_equal(m: SMachine, a: SValue, b: SValue, depth: nat) -> Out<bool>
    decreases depth, 0nat,
{
    match (a, b) {
        (SValue::Int(x), SValue::Int(y)) => Out::Done(x == y, m),
        (SValue::Float(_), SValue::Float(_)) => float_equal(m, a, b),
        (SValue::Int(_), SValue::Float(_)) => float_equal(m, a, b),
        (SValue::Float(_), SValue::Int(_)) => float_equal(m, a, b),
        (SValue::Str(x), SValue::Str(y)) => Out::Done(x == y, m),
        (SValue::Bool(x), SValue::Bool(y)) => Out::Done(x == y, m),
        (SValue::Null, SValue::Null) => Out::Done(true, m),
        (SValue::Array(x), SValue::Array(y)) => if m.arrays[x as int].len()
            != m.arrays[y as int].len() {
            Out::Done(false, m)
        } else if depth == 0 {
            Out::Done(false, m)
        } else {
            items_equal(m, m.arrays[x as int], m.arrays[y as int], 0, (depth - 1) as nat)
        },
        _ => Out::Done(false, m),
    }
}

/// `==` of two numbers at least one of which is a float: both widened to
/// floats (the left first), then the host's answer.
pub open spec fn float_equal(m: SMachine, a: SValue, b: SValue) -> Out<bool> {
    match widen(m, a) {
        Some((x, m1)) => match widen(m1, b) {
            Some((y, m2)) => match ask_bool(m2, HostCall::Eq(x, y)) {
                Some((r, m3)) => Out::Done(r, m3),
                None => Out::Opaque,
            },
            None => Out::Opaque,
        },
        None => Out::Opaque,
    }
}

/// Whether `xs[i..]` and `ys[i..]` are equal element by element, stopping
/// at the first difference.
pub open spec fn items_equal(m: SMachine, xs: Seq<SValue>, ys: Seq<SValue>, i: int, depth: nat) -> Out<
    bool,
>
    decreases depth, xs.len() - i + 1,
{
    if i < 0 || i >= xs.len() {
        Out::Done(true, m)
    } else {
        match values_equal(m, xs[i], ys[i], depth) {
            Out::Done(true, m1) => items_equal(m1, xs, ys, i + 1, depth),
            Out::Done(false, m1) => Out::Done(false, m1),
            _ => Out::Opaque,
        }
    }
}

/// A deep copy of `v` made in state `m`: an array is copied into a new
/// array whose elements are deep copies of its elements, made in order
/// (arrays nested deeper than `depth` levels are shared, not copied); any
/// other value is itself.  Gives the copy and the state holding the new
/// arrays.
pub open spec fn s_deep_clone(m: SMachine, v: SValue, depth: nat) -> (SValue, SMachine)
    decreases depth, 0nat,
{
    match v {
        SValue::Array(h) => if depth == 0 {
            (v, m)
        } else {
            let (items, m1) = s_clone_items(
                m,
                m.arrays[h as int],
                0,
                Seq::empty(),
                (depth - 1) as nat,
            );
            (SValue::Array(m1.arrays.len() as usize), with_array(m1, items))
        },
        _ => (v, m),
    }
}

/// Deep copies of `src[i..]`, made in order after the copies `acc` of the
/// earlier elements.
pub open spec fn s_clone_items(m: SMachine, src: Seq<SValue>, i: int, acc: Seq<SValue>, depth: nat) -> (
    Seq<SValue>,
    SMachine,
)
    decreases depth, src.len() - i + 1,
{
    if i < 0 || i >= src.len() {
        (acc, m)
    } else {
        let (c, m1) = s_deep_clone(m, src[i], depth);
        s_clone_items(m1, src, i + 1, acc.push(c), depth)
    }
}

// ─── Operators ───────────────────────────────────────────────

/// A type error with the message `msg`.
pub open spec fn type_error(msg: Seq<char>, m: SMachine) -> Out<SValue> {
    Out::Failed(SRuntimeError::TypeError { msg }, m)
}

/// `prefix` + the type names of `l` and `r` joined by `mid`.
pub open spec fn two_types(prefix: Seq<char>, l: SValue, mid: Seq<char>, r: SValue) -> Seq<char> {
    prefix + type_label_spec(l) + mid + type_label_spec(r)
}

/// Whether `v` is a number (an integer or a float).
pub open spec fn is_number(v: SValue) -> bool {
    v is Int || v is Float
}

/// `+`: integer addition (wrapping), string concatenation, or a string
/// joined with the text of another value.
pub open spec fn s_add(m: SMachine, l: SValue, r: SValue) -> Out<SValue> {
    match (l, r) {
        (SValue::Int(a), SValue::Int(b)) => Out::Done(SValue::Int(a.wrapping_add(b)), m),
        (SValue::Str(a), SValue::Str(b)) => Out::Done(SValue::Str(a + b), m),
        (SValue::Str(a), _) => match display(m, r, depth_limit()) {
            Out::Done(t, m1) => Out::Done(SValue::Str(a + t), m1),
            _ => Out::Opaque,
        },
        (_, SValue::Str(b)) => match display(m, l, depth_limit()) {
            Out::Done(t, m1) => Out::Done(SValue::Str(t + b), m1),
            _ => Out::Opaque,
        },
        _ => if is_number(l) && is_number(r) {
            float_arith_out(m, BinOp::Add, l, r)
        } else {
            type_error(two_types("cannot add "@, l, " and "@, r), m)
        },
    }
}

/// `-` and `*` on numbers (integers wrap).
pub open spec fn s_arith(m: SMachine, op: BinOp, l: SValue, r: SValue) -> Out<SValue> {
    match (l, r) {
        (SValue::Int(a), SValue::Int(b)) => Out::Done(
            SValue::Int(
                if op == BinOp::Sub {
                    a.wrapping_sub(b)
                } else {
                    a.wrapping_mul(b)
                },
            ),
            m,
        ),
        _ => if is_number(l) && is_number(r) {
            float_arith_out(m, op, l, r)
        } else {
            type_error(
                two_types(
                    if op == BinOp::Sub {
                        "cannot subtract "@
                    } else {
                        "cannot multiply "@
                    },
                    l,
                    " and "@,
                    r,
                ),
                m,
            )
        },
    }
}

/// The quotient of integers, rounded toward zero (`i64::MIN / -1` wraps
/// to `i64::MIN`).
pub open spec fn int_div(a: i64, b: i64) -> i64 {
    match a.checked_div(b) {
        Some(q) => q,
        None => a,
    }
}

/// The remainder of integers, with the sign of the dividend
/// (`i64::MIN % -1` is 0).
pub open spec fn int_rem(a: i64, b: i64) -> i64 {
    match a.checked_rem(b) {
        Some(q) => q,
        None => 0,
    }
}

/// Integer `/` and `%` fit together: the quotient times the divisor plus
/// the remainder is the dividend, the remainder is smaller than the
/// divisor in size and takes the dividend's sign (the quotient rounds
/// toward zero).
pub proof fn lemma_div_rem(a: i64, b: i64)
    requires
        b != 0,
        !(a == i64::MIN && b == -1),
    ensures
        int_div(a, b) * b + int_rem(a, b) == a,
        -(b as int) < int_rem(a, b) < b || b < int_rem(a, b) < -(b as int),
        a >= 0 ==> int_rem(a, b) >= 0,
        a <= 0 ==> int_rem(a, b) <= 0,
{
    let x = a as int;
    let d = b as int;
    if x != 0 {
        // The magnitudes divide with a remainder in [0, |d|).
        let nx = if x < 0 { -x } else { x };
        let nd = if d < 0 { -d } else { d };
        let q = nx / nd;
        let r = nx % nd;
        assert(nx == q * nd + r && 0 <= r < nd && 0 <= q <= nx) by (nonlinear_arith)
            requires
                nd > 0,
                nx > 0,
                q == nx / nd,
                r == nx % nd,
        ;
        assert(nd >= 2 ==> 2 * q <= nx) by (nonlinear_arith)
            requires
                nx == q * nd + r,
                0 <= r,
                0 <= q,
        ;
        let (qq, rr) = if x > 0 && d > 0 {
            (q, r)
        } else if x < 0 && d < 0 {
            (q, -r)
        } else if x < 0 {
            (-q, -r)
        } else {
            (-q, r)
        };
        assert(int_div(a, b) == qq);
        assert(int_rem(a, b) == rr);
        assert(qq * d + rr == x) by (nonlinear_arith)
            requires
                nx == q * nd + r,
                nx == (if x < 0 { -x } else { x }),
                nd == (if d < 0 { -d } else { d }),
                qq == (if (x < 0) == (d < 0) { q } else { -q }),
                rr == (if x < 0 { -r } else { r }),
        ;
        assert(int_div(a, b) * b == qq * d);
    } else {
        assert(int_div(a, b) == 0);
        assert(int_rem(a, b) == 0);
    }
}

/// `/`: division by an integer zero or a float zero fails.
pub open spec fn s_div(m: SMachine, l: SValue, r: SValue) -> Out<SValue> {
    match (l, r) {
        (SValue::Int(a), SValue::Int(b)) => if b == 0 {
            Out::Failed(SRuntimeError::DivisionByZero, m)
        } else {
            Out::Done(SValue::Int(int_div(a, b)), m)
        },
        (SValue::Float(_), SValue::Float(b)) => if float_is_zero(b) {
            Out::Failed(SRuntimeError::DivisionByZero, m)
        } else {
            float_arith_out(m, BinOp::Div, l, r)
        },
        (SValue::Int(_), SValue::Float(b)) => if float_is_zero(b) {
            Out::Failed(SRuntimeError::DivisionByZero, m)
        } else {
            float_arith_out(m, BinOp::Div, l, r)
        },
        (SValue::Float(_), SValue::Int(b)) => if b == 0 {
            Out::Failed(SRuntimeError::DivisionByZero, m)
        } else {
            float_arith_out(m, BinOp::Div, l, r)
        },
        _ => type_error(two_types("cannot divide "@, l, " by "@, r), m),
    }
}

/// `%`: an integer remainder by zero fails.
pub open spec fn s_mod(m: SMachine, l: SValue, r: SValue) -> Out<SValue> {
    match (l, r) {
        (SValue::Int(a), SValue::Int(b)) => if b == 0 {
            Out::Failed(SRuntimeError::DivisionByZero, m)
        } else {
            Out::Done(SValue::Int(int_rem(a, b)), m)
        },
        _ => if is_number(l) && is_number(r) {
            float_arith_out(m, BinOp::Mod, l, r)
        } else {
            type_error(two_types("cannot mod "@, l, " by "@, r), m)
        },
    }
}

/// `< > <= >=` on numbers, and on two strings in dictionary
/// (lexicographic) order of their characters.
pub open spec fn s_compare(m: SMachine, op: BinOp, l: SValue, r: SValue) -> Out<SValue> {
    match (l, r) {
        (SValue::Int(a), SValue::Int(b)) => Out::Done(
            SValue::Bool(
                match op {
                    BinOp::Lt => a < b,
                    BinOp::Gt => a > b,
                    BinOp::LtEq => a <= b,
                    _ => a >= b,
                },
            ),
            m,
        ),
        (SValue::Str(a), SValue::Str(b)) => Out::Done(
            SValue::Bool(
                match op {
                    BinOp::Lt => seq_less(a, b),
                    BinOp::Gt => seq_less(b, a),
                    BinOp::LtEq => !seq_less(b, a),
                    _ => !seq_less(a, b),
                },
            ),
            m,
        ),
        _ => if is_number(l) && is_number(r) {
            float_compare_out(m, op, l, r)
        } else {
            type_error(two_types("cannot compare "@, l, " and "@, r), m)
        },
    }
}

/// A binary operator other than `&&` and `||` on evaluated operands.
pub open spec fn s_binop(m: SMachine, op: BinOp, l: SValue, r: SValue) -> Out<SValue> {
    match op {
        BinOp::Add => s_add(m, l, r),
        BinOp::Sub => s_arith(m, op, l, r),
        BinOp::Mul => s_arith(m, op, l, r),
        BinOp::Div => s_div(m, l, r),
        BinOp::Mod => s_mod(m, l, r),
        BinOp::Eq => match values_equal(m, l, r, depth_limit()) {
            Out::Done(b, m1) => Out::Done(SValue::Bool(b), m1),
            _ => Out::Opaque,
        },
        BinOp::NotEq => match values_equal(m, l, r, depth_limit()) {
            Out::Done(b, m1) => Out::Done(SValue::Bool(!b), m1),
            _ => Out::Opaque,
        },
        _ => s_compare(m, op, l, r),
    }
}

/// `target[index]`: arrays take negative indices from the end; strings give
/// the character at the index as a one-character string.
pub open spec fn s_index(m: SMachine, target: SValue, index: SValue) -> Out<SValue> {
    match (target, index) {
        (SValue::Array(h), SValue::Int(k)) => {
            let a = m.arrays[h as int];
            if k < 0 {
                if a.len() + k < 0 {
                    Out::Failed(
                        SRuntimeError::IndexError {
                            msg: "index "@ + int_text(k) + " out of bounds"@,
                        },
                        m,
                    )
                } else {
                    Out::Done(a[a.len() + k], m)
                }
            } else if k >= a.len() {
                Out::Failed(
                    SRuntimeError::IndexError {
                        msg: "index "@ + decimal(k as nat) + " out of bounds for array of length "@
                            + decimal(a.len()),
                    },
                    m,
                )
            } else {
                Out::Done(a[k as int], m)
            }
        },
        (SValue::Str(s), SValue::Int(k)) => {
            let idx = if k < 0 {
                s.len() + k
            } else {
                k as int
            };
            if idx < 0 || idx >= s.len() {
                Out::Failed(
                    SRuntimeError::IndexError {
                        msg: "index "@ + int_text(k) + " out of bounds for string of length "@
                            + decimal(s.len()),
                    },
                    m,
                )
            } else {
                Out::Done(SValue::Str(seq![s[idx]]), m)
            }
        },
        _ => type_error(two_types("cannot index "@, target, " with "@, index), m),
    }
}

/// `-v` and `!v`.
pub open spec fn s_unary(m: SMachine, op: UnaryOp, v: SValue) -> Out<SValue> {
    match op {
        UnaryOp::Neg => match v {
            SValue::Int(n) => Out::Done(SValue::Int(0i64.wrapping_sub(n)), m),
            SValue::Float(b) => Out::Done(SValue::Float(float_neg(b)), m),
            _ => type_error("cannot negate "@ + type_label_spec(v), m),
        },
        UnaryOp::Not => Out::Done(SValue::Bool(!truthy(m, v)), m),
    }
}

// ─── Built-in functions ──────────────────────────────────────

/// The number of arguments a built-in takes.
pub open spec fn builtin_arity(b: Builtin) -> nat {
    if b == Builtin::Push {
        2
    } else {
        1
    }
}

/// A built-in function applied to evaluated arguments.
pub open spec fn s_builtin(m: SMachine, b: Builtin, args: Seq<SValue>) -> Out<SValue> {
    if args.len() < builtin_arity(b) {
        Out::Failed(
            SRuntimeError::ArgCountMismatch {
                expected: builtin_arity(b) as usize,
                got: args.len() as usize,
            },
            m,
        )
    } else {
        let a = args[0];
        match b {
            Builtin::Print => match display(m, a, depth_limit()) {
                Out::Done(t, m1) => Out::Done(SValue::Null, with_output(m1, m1.output + t)),
                _ => Out::Opaque,
            },
            Builtin::Println => match display(m, a, depth_limit()) {
                Out::Done(t, m1) => Out::Done(
                    SValue::Null,
                    with_output(m1, m1.output + t + seq!['\n']),
                ),
                _ => Out::Opaque,
            },
            Builtin::Len => match a {
                SValue::Str(s) => Out::Done(SValue::Int(s.len() as i64), m),
                SValue::Array(h) => Out::Done(SValue::Int(m.arrays[h as int].len() as i64), m),
                _ => type_error("len() does not support "@ + type_label_spec(a), m),
            },
            Builtin::Push => match a {
                SValue::Array(h) => Out::Done(
                    SValue::Null,
                    SMachine {
                        arrays: m.arrays.update(h as int, m.arrays[h as int].push(args[1])),
                        ..m
                    },
                ),
                _ => type_error("push() expects an array and a value"@, m),
            },
            Builtin::Pop => match a {
                SValue::Array(h) => if m.arrays[h as int].len() == 0 {
                    Out::Failed(SRuntimeError::IndexError { msg: "pop() on empty array"@ }, m)
                } else {
                    Out::Done(
                        m.arrays[h as int].last(),
                        SMachine {
                            arrays: m.arrays.update(h as int, m.arrays[h as int].drop_last()),
                            ..m
                        },
                    )
                },
                _ => type_error("pop() expects an array"@, m),
            },
            Builtin::Int => match a {
                SValue::Int(n) => Out::Done(SValue::Int(n), m),
                SValue::Float(x) => match ask_int(m, HostCall::FloatToInt(x)) {
                    Some((n, m1)) => Out::Done(SValue::Int(n), m1),
                    None => Out::Opaque,
                },
                SValue::Str(s) => match parse_i64_spec(s) {
                    Some(n) => Out::Done(SValue::Int(n), m),
                    None => type_error("cannot convert '"@ + s + "' to int"@, m),
                },
                SValue::Bool(x) => Out::Done(
                    SValue::Int(
                        if x {
                            1
                        } else {
                            0
                        },
                    ),
                    m,
                ),
                _ => type_error("cannot convert "@ + type_label_spec(a) + " to int"@, m),
            },
            Builtin::Str => match display(m, a, depth_limit()) {
                Out::Done(t, m1) => Out::Done(SValue::Str(t), m1),
                _ => Out::Opaque,
            },
            Builtin::Type => Out::Done(SValue::Str(type_label_spec(a)), m),
        }
    }
}

/// The value a built-in's name is bound to.
pub open spec fn builtin_value(name: Seq<char>, b: Builtin) -> SValue {
    SValue::NativeFunc { name, arity: Some(builtin_arity(b) as usize), func: b }
}

/// The bindings of the global scope of a fresh interpreter: the eight
/// built-in functions under their names.
pub open spec fn builtin_bindings() -> Seq<(Seq<char>, SValue)> {
    seq![
        ("print"@, builtin_value("print"@, Builtin::Print)),
        ("println"@, builtin_value("println"@, Builtin::Println)),
        ("len"@, builtin_value("len"@, Builtin::Len)),
        ("push"@, builtin_value("push"@, Builtin::Push)),
        ("pop"@, builtin_value("pop"@, Builtin::Pop)),
        ("int"@, builtin_value("int"@, Builtin::Int)),
        ("str"@, builtin_value("str"@, Builtin::Str)),
        ("type"@, builtin_value("type"@, Builtin::Type)),
    ]
}

/// The state of a fresh interpreter: a global scope holding the built-ins,
/// no arrays, no functions, nothing printed.
pub open spec fn initial_machine() -> SMachine {
    SMachine {
        scopes: seq![SScope { vars: builtin_bindings(), consts: Seq::empty(), parent: None }],
        arrays: Seq::empty(),
        funcs: Seq::empty(),
        output: Seq::empty(),
        asked: Seq::empty(),
        replies: Seq::empty(),
    }
}

// ─── Evaluation ──────────────────────────────────────────────

/// The state with `v` stored as a new array.
pub open spec fn with_array(m: SMachine, items: Seq<SValue>) -> SMachine {
    SMachine { arrays: m.arrays.push(items), ..m }
}

/// The state with new arrays.
pub open spec fn with_arrays(m: SMachine, arrays: Seq<Seq<SValue>>) -> SMachine {
    SMachine { arrays, ..m }
}

/// The state with new functions.
pub open spec fn with_funcs(m: SMachine, funcs: Seq<SFunc>) -> SMachine {
    SMachine { funcs, ..m }
}

/// The state with new printed text.
pub open spec fn with_output(m: SMachine, output: Seq<char>) -> SMachine {
    SMachine { output, ..m }
}

/// The state with new scopes.
pub open spec fn with_scopes(m: SMachine, scopes: Seq<SScope>) -> SMachine {
    SMachine { scopes, ..m }
}

/// The parameters bound, in order, to the arguments, in a fresh scope's
/// bindings (a repeated parameter name keeps the later argument).
pub open spec fn bind_params(vars: Seq<(Seq<char>, SValue)>, params: Seq<Seq<char>>, args: Seq<SValue>, i: int) -> Seq<(Seq<char>, SValue)>
    decreases params.len() - i,
{
    if i < 0 || i >= params.len() || i >= args.len() {
        vars
    } else {
        bind_params(crate::environment::bind(vars, params[i], args[i]), params, args, i + 1)
    }
}

/// The scopes during a call of `f` with `args`: a new scope binding the
/// parameters to the arguments, whose enclosing scope is the one `f` was
/// defined in.
pub open spec fn call_scopes(sc: Seq<SScope>, f: SFunc, args: Seq<SValue>) -> Seq<SScope> {
    sc.push(
        SScope {
            vars: bind_params(Seq::empty(), f.params, args, 0),
            consts: Seq::empty(),
            parent: Some(f.closure),
        },
    )
}

/// The characters of a string, each as a one-character string.
pub open spec fn char_values(s: Seq<char>) -> Seq<SValue> {
    Seq::new(s.len(), |i: int| SValue::Str(seq![s[i]]))
}

/// Evaluates an expression in scope `env`.
pub open spec fn s_eval(m: SMachine, e: SExpr, env: usize, fuel: nat) -> Out<SValue>
    decreases fuel, 0nat,
{
    if fuel == 0 {
        Out::Failed(SRuntimeError::StepLimitExceeded, m)
    } else {
        let f = (fuel - 1) as nat;
        match e {
            SExpr::Int(n) => Out::Done(SValue::Int(n), m),
            SExpr::Float(t) => match ask_float(m, HostCall::ParseFloat(t)) {
                Some((x, m1)) => Out::Done(SValue::Float(x), m1),
                None => Out::Opaque,
            },
            SExpr::Str(s) => Out::Done(SValue::Str(s), m),
            SExpr::Bool(b) => Out::Done(SValue::Bool(b), m),
            SExpr::Null => Out::Done(SValue::Null, m),
            SExpr::Ident(name) => match lookup(m.scopes, env as int, name) {
                Some(v) => Out::Done(v, m),
                None => Out::Failed(SRuntimeError::UndefinedVar(name), m),
            },
            SExpr::Array(elems) => match s_eval_list(m, elems, 0, Seq::empty(), env, f) {
                Out::Done(vals, m1) => Out::Done(
                    SValue::Array(m1.arrays.len() as usize),
                    with_array(m1, vals),
                ),
                Out::Failed(x, m1) => Out::Failed(x, m1),
                Out::Opaque => Out::Opaque,
            },
            SExpr::Index { target, index } => match s_eval(m, *target, env, f) {
                Out::Done(t, m1) => match s_eval(m1, *index, env, f) {
                    Out::Done(i, m2) => s_index(m2, t, i),
                    Out::Failed(x, m2) => Out::Failed(x, m2),
                    Out::Opaque => Out::Opaque,
                },
                Out::Failed(x, m1) => Out::Failed(x, m1),
                Out::Opaque => Out::Opaque,
            },
            SExpr::BinOp { op, left, right } => match s_eval(m, *left, env, f) {
                Out::Done(l, m1) => if op == BinOp::And && !truthy(m1, l) {
                    Out::Done(SValue::Bool(false), m1)
                } else if op == BinOp::Or && truthy(m1, l) {
                    Out::Done(SValue::Bool(true), m1)
                } else {
                    match s_eval(m1, *right, env, f) {
                        Out::Done(r, m2) => if op == BinOp::And || op == BinOp::Or {
                            Out::Done(SValue::Bool(truthy(m2, r)), m2)
                        } else {
                            s_binop(m2, op, l, r)
                        },
                        Out::Failed(x, m2) => Out::Failed(x, m2),
                        Out::Opaque => Out::Opaque,
                    }
                },
                Out::Failed(x, m1) => Out::Failed(x, m1),
                Out::Opaque => Out::Opaque,
            },
            SExpr::UnaryOp { op, operand } => match s_eval(m, *operand, env, f) {
                Out::Done(v, m1) => s_unary(m1, op, v),
                Out::Failed(x, m1) => Out::Failed(x, m1),
                Out::Opaque => Out::Opaque,
            },
            SExpr::Call { callee, args } => match s_eval(m, *callee, env, f) {
                Out::Done(func, m1) => match s_eval_list(m1, args, 0, Seq::empty(), env, f) {
                    Out::Done(vals, m2) => s_call(m2, func, vals, f),
                    Out::Failed(x, m2) => Out::Failed(x, m2),
                    Out::Opaque => Out::Opaque,
                },
                Out::Failed(x, m1) => Out::Failed(x, m1),
                Out::Opaque => Out::Opaque,
            },
            SExpr::Assign { target, value } => match s_eval(m, *value, env, f) {
                Out::Done(v, m1) => match s_assign_target(m1, *target, v, env, f) {
                    Out::Done(_, m2) => Out::Done(v, m2),
                    Out::Failed(x, m2) => Out::Failed(x, m2),
                    Out::Opaque => Out::Opaque,
                },
                Out::Failed(x, m1) => Out::Failed(x, m1),
                Out::Opaque => Out::Opaque,
            },
        }
    }
}

/// Evaluates `es[i..]` left to right after the values `acc` of the
/// earlier ones; the first error stops it.
pub open spec fn s_eval_list(m: SMachine, es: Seq<SExpr>, i: int, acc: Seq<SValue>, env: usize, fuel: nat) -> Out<
    Seq<SValue>,
>
    decreases fuel, es.len() - i + 1,
{
    if i < 0 || i >= es.len() {
        Out::Done(acc, m)
    } else {
        match s_eval(m, es[i], env, fuel) {
            Out::Done(v, m1) => s_eval_list(m1, es, i + 1, acc.push(v), env, fuel),
            Out::Failed(x, m1) => Out::Failed(x, m1),
            Out::Opaque => Out::Opaque,
        }
    }
}

/// Calls a function value with evaluated arguments: a user function runs
/// its body in a fresh child of the scope it was defined in, with the
/// parameters bound; `return v` gives `v`, falling off the end gives
/// `null`, and a stray `break` or `continue` is an error.
pub open spec fn s_call(m: SMachine, func: SValue, args: Seq<SValue>, fuel: nat) -> Out<SValue>
    decreases fuel, 0nat,
{
    if fuel == 0 {
        Out::Failed(SRuntimeError::StepLimitExceeded, m)
    } else {
        match func {
            SValue::Func(fi) => {
                let def = m.funcs[fi as int];
                if def.params.len() != args.len() {
                    Out::Failed(
                        SRuntimeError::ArgCountMismatch {
                            expected: def.params.len() as usize,
                            got: args.len() as usize,
                        },
                        m,
                    )
                } else {
                    let c = m.scopes.len() as usize;
                    match s_block(
                        with_scopes(m, call_scopes(m.scopes, def, args)),
                        def.body,
                        0,
                        c,
                        (fuel - 1) as nat,
                    ) {
                        Out::Done(SFlow::Return(v), m2) => Out::Done(v, m2),
                        Out::Done(SFlow::Normal, m2) => Out::Done(SValue::Null, m2),
                        Out::Done(SFlow::Break, m2) => Out::Failed(SRuntimeError::InvalidBreak, m2),
                        Out::Done(SFlow::Continue, m2) => Out::Failed(
                            SRuntimeError::InvalidContinue,
                            m2,
                        ),
                        Out::Failed(x, m2) => Out::Failed(x, m2),
                        Out::Opaque => Out::Opaque,
                    }
                }
            },
            SValue::NativeFunc { arity, func: b, .. } => match arity {
                Some(n) => if args.len() != n {
                    Out::Failed(
                        SRuntimeError::ArgCountMismatch { expected: n, got: args.len() as usize },
                        m,
                    )
                } else {
                    s_builtin(m, b, args)
                },
                None => s_builtin(m, b, args),
            },
            _ => Out::Failed(SRuntimeError::NotCallable, m),
        }
    }
}

/// Assigns `v` to an assignment target: a variable, or an element
/// `array[index]` with `0 <= index < length`.
pub open spec fn s_assign_target(m: SMachine, target: SExpr, v: SValue, env: usize, fuel: nat) -> Out<()>
    decreases fuel, 0nat,
{
    if fuel == 0 {
        Out::Failed(SRuntimeError::StepLimitExceeded, m)
    } else {
        let f = (fuel - 1) as nat;
        match target {
            SExpr::Ident(name) => match assign_spec(m.scopes, env as int, name, v) {
                Ok(sc) => Out::Done((), with_scopes(m, sc)),
                Err(x) => Out::Failed(x, m),
            },
            SExpr::Index { target: t, index: i } => match s_eval(m, *t, env, f) {
                Out::Done(tv, m1) => match s_eval(m1, *i, env, f) {
                    Out::Done(iv, m2) => match (tv, iv) {
                        (SValue::Array(h), SValue::Int(k)) => {
                            let idx = k as usize;
                            let a = m2.arrays[h as int];
                            if idx >= a.len() {
                                Out::Failed(
                                    SRuntimeError::IndexError {
                                        msg: "index "@ + decimal(idx as nat)
                                            + " out of bounds for array of length "@ + decimal(
                                            a.len(),
                                        ),
                                    },
                                    m2,
                                )
                            } else {
                                Out::Done(
                                    (),
                                    SMachine {
                                        arrays: m2.arrays.update(h as int, a.update(idx as int, v)),
                                        ..m2
                                    },
                                )
                            }
                        },
                        _ => Out::Failed(
                            SRuntimeError::TypeError {
                                msg: two_types("cannot index-assign on "@, tv, " with "@, iv),
                            },
                            m2,
                        ),
                    },
                    Out::Failed(x, m2) => Out::Failed(x, m2),
                    Out::Opaque => Out::Opaque,
                },
                Out::Failed(x, m1) => Out::Failed(x, m1),
                Out::Opaque => Out::Opaque,
            },
            _ => Out::Failed(
                SRuntimeError::TypeError { msg: "invalid assignment target"@ },
                m,
            ),
        }
    }
}

/// Runs a statement in scope `env`.
pub open spec fn s_exec(m: SMachine, st: SStmt, env: usize, fuel: nat) -> Out<SFlow>
    decreases fuel, 0nat,
{
    if fuel == 0 {
        Out::Failed(SRuntimeError::StepLimitExceeded, m)
    } else {
        let f = (fuel - 1) as nat;
        match st {
            SStmt::Let { name, value } => match s_eval(m, value, env, f) {
                Out::Done(v, m1) => Out::Done(
                    SFlow::Normal,
                    with_scopes(m1, define_spec(m1.scopes, env as int, name, v)),
                ),
                Out::Failed(x, m1) => Out::Failed(x, m1),
                Out::Opaque => Out::Opaque,
            },
            SStmt::Const { name, value } => match s_eval(m, value, env, f) {
                Out::Done(v, m1) => Out::Done(
                    SFlow::Normal,
                    with_scopes(m1, define_const_spec(m1.scopes, env as int, name, v)),
                ),
                Out::Failed(x, m1) => Out::Failed(x, m1),
                Out::Opaque => Out::Opaque,
            },
            SStmt::Assign { target, value } => match s_eval(m, value, env, f) {
                Out::Done(v, m1) => match s_assign_target(m1, target, v, env, f) {
                    Out::Done(_, m2) => Out::Done(SFlow::Normal, m2),
                    Out::Failed(x, m2) => Out::Failed(x, m2),
                    Out::Opaque => Out::Opaque,
                },
                Out::Failed(x, m1) => Out::Failed(x, m1),
                Out::Opaque => Out::Opaque,
            },
            SStmt::ExprStmt(e) => match s_eval(m, e, env, f) {
                Out::Done(_, m1) => Out::Done(SFlow::Normal, m1),
                Out::Failed(x, m1) => Out::Failed(x, m1),
                Out::Opaque => Out::Opaque,
            },
            SStmt::If { cond, then_branch, else_branch } => match s_eval(m, cond, env, f) {
                Out::Done(c, m1) => if truthy(m1, c) {
                    s_block(m1, then_branch, 0, env, f)
                } else {
                    match else_branch {
                        Some(b) => s_block(m1, b, 0, env, f),
                        None => Out::Done(SFlow::Normal, m1),
                    }
                },
                Out::Failed(x, m1) => Out::Failed(x, m1),
                Out::Opaque => Out::Opaque,
            },
            SStmt::While { cond, body } => s_while(m, cond, body, env, f),
            SStmt::For { var, iterable, body } => match s_eval(m, iterable, env, f) {
                Out::Done(it, m1) => match it {
                    SValue::Array(h) => s_for(m1, var, m1.arrays[h as int], 0, body, env, f),
                    SValue::Str(s) => s_for(m1, var, char_values(s), 0, body, env, f),
                    _ => Out::Failed(SRuntimeError::NotIterable, m1),
                },
                Out::Failed(x, m1) => Out::Failed(x, m1),
                Out::Opaque => Out::Opaque,
            },
            SStmt::Fn { name, params, body } => {
                let fi = m.funcs.len() as usize;
                let m1 = SMachine {
                    funcs: m.funcs.push(SFunc { params, body, closure: env }),
                    ..m
                };
                Out::Done(
                    SFlow::Normal,
                    with_scopes(m1, define_spec(m1.scopes, env as int, name, SValue::Func(fi))),
                )
            },
            SStmt::Return(e) => match e {
                Some(x) => match s_eval(m, x, env, f) {
                    Out::Done(v, m1) => Out::Done(SFlow::Return(v), m1),
                    Out::Failed(y, m1) => Out::Failed(y, m1),
                    Out::Opaque => Out::Opaque,
                },
                None => Out::Done(SFlow::Return(SValue::Null), m),
            },
            SStmt::Break => Out::Done(SFlow::Break, m),
            SStmt::Continue => Out::Done(SFlow::Continue, m),
        }
    }
}

/// Runs `ss[i..]` in scope `env`, stopping at the first statement that
/// does not finish normally.
pub open spec fn s_block(m: SMachine, ss: Seq<SStmt>, i: int, env: usize, fuel: nat) -> Out<SFlow>
    decreases fuel, ss.len() - i + 1,
{
    if i < 0 || i >= ss.len() {
        Out::Done(SFlow::Normal, m)
    } else {
        match s_exec(m, ss[i], env, fuel) {
            Out::Done(SFlow::Normal, m1) => s_block(m1, ss, i + 1, env, fuel),
            Out::Done(flow, m1) => Out::Done(flow, m1),
            Out::Failed(x, m1) => Out::Failed(x, m1),
            Out::Opaque => Out::Opaque,
        }
    }
}

/// Runs `while (cond) { body }`: one round per unit of fuel.
pub open spec fn s_while(m: SMachine, cond: SExpr, body: Seq<SStmt>, env: usize, fuel: nat) -> Out<
    SFlow,
>
    decreases fuel, 0nat,
{
    if fuel == 0 {
        Out::Failed(SRuntimeError::StepLimitExceeded, m)
    } else {
        let f = (fuel - 1) as nat;
        match s_eval(m, cond, env, f) {
            Out::Done(c, m1) => if !truthy(m1, c) {
                Out::Done(SFlow::Normal, m1)
            } else {
                match s_block(m1, body, 0, env, f) {
                    Out::Done(SFlow::Normal, m2) => s_while(m2, cond, body, env, f),
                    Out::Done(SFlow::Continue, m2) => s_while(m2, cond, body, env, f),
                    Out::Done(SFlow::Break, m2) => Out::Done(SFlow::Normal, m2),
                    Out::Done(SFlow::Return(v), m2) => Out::Done(SFlow::Return(v), m2),
                    Out::Failed(x, m2) => Out::Failed(x, m2),
                    Out::Opaque => Out::Opaque,
                }
            },
            Out::Failed(x, m1) => Out::Failed(x, m1),
            Out::Opaque => Out::Opaque,
        }
    }
}

/// Runs the body of `for (var in ...)` for `items[i..]`, each round in a
/// fresh child scope of `env` that binds `var` to the item.
pub open spec fn s_for(m: SMachine, var: Seq<char>, items: Seq<SValue>, i: int, body: Seq<SStmt>, env: usize, fuel: nat) -> Out<
    SFlow,
>
    decreases fuel, items.len() - i + 1,
{
    if i < 0 || i >= items.len() {
        Out::Done(SFlow::Normal, m)
    } else if fuel == 0 {
        Out::Failed(SRuntimeError::StepLimitExceeded, m)
    } else {
        let c = m.scopes.len() as usize;
        let scope = SScope {
            vars: seq![(var, items[i])],
            consts: Seq::empty(),
            parent: Some(env),
        };
        match s_block(with_scopes(m, m.scopes.push(scope)), body, 0, c, (fuel - 1) as nat) {
            Out::Done(SFlow::Normal, m2) => s_for(m2, var, items, i + 1, body, env, fuel),
            Out::Done(SFlow::Continue, m2) => s_for(m2, var, items, i + 1, body, env, fuel),
            Out::Done(SFlow::Break, m2) => Out::Done(SFlow::Normal, m2),
            Out::Done(SFlow::Return(v), m2) => Out::Done(SFlow::Return(v), m2),
            Out::Failed(x, m2) => Out::Failed(x, m2),
            Out::Opaque => Out::Opaque,
        }
    }
}

// ─── Sessions ────────────────────────────────────────────────

/// One statement run as the interactive prompt runs it: an expression
/// statement is evaluated and gives its value; any other statement runs as
/// a program of its own (how it finished is dropped) and gives no value.
#[verifier::opaque]
pub open spec fn s_prompt_step(m: SMachine, st: SStmt) -> Out<Option<SValue>> {
    match st {
        SStmt::ExprStmt(e) => match s_eval(m, e, 0, step_budget()) {
            Out::Done(v, m1) => Out::Done(Some(v), m1),
            Out::Failed(x, m1) => Out::Failed(x, m1),
            Out::Opaque => Out::Opaque,
        },
        _ => match s_block(m, seq![st], 0, 0, step_budget()) {
            Out::Done(_, m1) => Out::Done(None, m1),
            Out::Failed(x, m1) => Out::Failed(x, m1),
            Out::Opaque => Out::Opaque,
        },
    }
}

/// Runs `ss[i..]` one statement at a time in the global scope, as the
/// interactive prompt does, keeping the value the last statement gave
/// (`last` before any).
pub open spec fn s_session(m: SMachine, ss: Seq<SStmt>, i: int, last: Option<SValue>) -> Out<
    Option<SValue>,
>
    decreases ss.len() - i,
{
    if i < 0 || i >= ss.len() {
        Out::Done(last, m)
    } else {
        match s_prompt_step(m, ss[i]) {
            Out::Done(v, m1) => s_session(m1, ss, i + 1, v),
            Out::Failed(x, m1) => Out::Failed(x, m1),
            Out::Opaque => Out::Opaque,
        }
    }
}

// ─── Laws ────────────────────────────────────────────────────

/// `pop` undoes `push`: pushing `v` onto an array and popping gives `v`
/// back and the state from before the push.
pub proof fn lemma_pop_undoes_push(m: SMachine, h: usize, v: SValue)
    requires
        h < m.arrays.len(),
    ensures
        match s_builtin(m, Builtin::Push, seq![SValue::Array(h), v]) {
            Out::Done(r, m1) => r == SValue::Null && s_builtin(m1, Builtin::Pop, seq![SValue::Array(h)])
                == Out::Done(v, m),
            _ => false,
        },
{
    let a = m.arrays[h as int];
    let m1 = with_arrays(m, m.arrays.update(h as int, a.push(v)));
    assert(m1.arrays[h as int].drop_last() =~= a);
    assert(m1.arrays.update(h as int, m1.arrays[h as int].drop_last()) =~= m.arrays);
}

/// `push` makes an array one element longer, with `v` last.
pub proof fn lemma_push_appends(m: SMachine, h: usize, v: SValue)
    requires
        h < m.arrays.len(),
        m.arrays[h as int].len() < 0x7fff_ffff_ffff_ffff,
    ensures
        match s_builtin(m, Builtin::Push, seq![SValue::Array(h), v]) {
            Out::Done(_, m1) => {
                &&& s_builtin(m1, Builtin::Len, seq![SValue::Array(h)]) == Out::Done(
                    SValue::Int((m.arrays[h as int].len() + 1) as i64),
                    m1,
                )
                &&& s_index(m1, SValue::Array(h), SValue::Int(-1i64)) == Out::Done(v, m1)
            },
            _ => false,
        },
{
}

/// A negative index counts from the end of an array: `a[-1]` is the last
/// element, `a[-len]` the first.
pub proof fn lemma_negative_index(m: SMachine, h: usize, k: i64)
    requires
        h < m.arrays.len(),
        -m.arrays[h as int].len() <= k < 0,
    ensures
        s_index(m, SValue::Array(h), SValue::Int(k)) == Out::Done(
            m.arrays[h as int][m.arrays[h as int].len() + k],
            m,
        ),
{
}

/// After an element of an array is replaced, indexing the array there
/// gives the new value.
pub proof fn lemma_index_after_set(m: SMachine, h: usize, i: usize, v: SValue)
    requires
        h < m.arrays.len(),
        i < m.arrays[h as int].len(),
        i <= 0x7fff_ffff_ffff_ffff,
    ensures
        s_index(
            with_arrays(m, m.arrays.update(h as int, m.arrays[h as int].update(i as int, v))),
            SValue::Array(h),
            SValue::Int(i as i64),
        ) == Out::Done(v, with_arrays(m, m.arrays.update(h as int, m.arrays[h as int].update(i as int, v)))),
{
}

/// `&&` does not evaluate its right operand when its left one is false.
pub proof fn lemma_and_short_circuit(m: SMachine, l: SExpr, r: SExpr, env: usize, fuel: nat)
    requires
        fuel > 0,
        s_eval(m, l, env, (fuel - 1) as nat) matches Out::Done(v, m1) && !truthy(m1, v),
    ensures
        s_eval(
            m,
            SExpr::BinOp { op: BinOp::And, left: Box::new(l), right: Box::new(r) },
            env,
            fuel,
        ) == Out::Done(SValue::Bool(false), s_eval(m, l, env, (fuel - 1) as nat)->Done_1),
{
}

/// `||` does not evaluate its right operand when its left one is true.
pub proof fn lemma_or_short_circuit(m: SMachine, l: SExpr, r: SExpr, env: usize, fuel: nat)
    requires
        fuel > 0,
        s_eval(m, l, env, (fuel - 1) as nat) matches Out::Done(v, m1) && truthy(m1, v),
    ensures
        s_eval(
            m,
            SExpr::BinOp { op: BinOp::Or, left: Box::new(l), right: Box::new(r) },
            env,
            fuel,
        ) == Out::Done(SValue::Bool(true), s_eval(m, l, env, (fuel - 1) as nat)->Done_1),
{
}

/// A deep copy leaves everything that existed untouched: the scopes, the
/// functions, the printed text and every existing array stay as they
/// were; it only adds arrays.  The copy of an array is the last array
/// added.
pub proof fn lemma_deep_clone_keeps(m: SMachine, v: SValue, depth: nat)
    ensures
        ({
            let (c, m2) = s_deep_clone(m, v, depth);
            &&& m2.scopes == m.scopes
            &&& m2.funcs == m.funcs
            &&& m2.output == m.output
            &&& m.arrays.len() <= m2.arrays.len()
            &&& forall|k: int| 0 <= k < m.arrays.len() ==> #[trigger] m2.arrays[k] == m.arrays[k]
            &&& (v is Array && depth > 0 ==> (c matches SValue::Array(n) && n == (m2.arrays.len() - 1) as usize
                && m.arrays.len() < m2.arrays.len()))
        }),
    decreases depth, 0nat,
{
    if let SValue::Array(h) = v {
        if depth > 0 {
            let (items, m1) = s_clone_items(m, m.arrays[h as int], 0, Seq::empty(), (depth - 1) as nat);
            lemma_clone_items_keeps(m, m.arrays[h as int], 0, Seq::empty(), (depth - 1) as nat);
            let m2 = with_array(m1, items);
            assert forall|k: int| 0 <= k < m.arrays.len() implies #[trigger] m2.arrays[k] == m.arrays[k] by {
                assert(m2.arrays[k] == m1.arrays[k]);
            }
        }
    }
}

/// Deep copies of a run of elements leave everything that existed
/// untouched.
pub proof fn lemma_clone_items_keeps(m: SMachine, src: Seq<SValue>, i: int, acc: Seq<SValue>, depth: nat)
    ensures
        ({
            let (items, m2) = s_clone_items(m, src, i, acc, depth);
            &&& m2.scopes == m.scopes
            &&& m2.funcs == m.funcs
            &&& m2.output == m.output
            &&& m.arrays.len() <= m2.arrays.len()
            &&& forall|k: int| 0 <= k < m.arrays.len() ==> #[trigger] m2.arrays[k] == m.arrays[k]
        }),
    decreases depth, src.len() - i + 1,
{
    if 0 <= i < src.len() {
        let (c, m1) = s_deep_clone(m, src[i], depth);
        lemma_deep_clone_keeps(m, src[i], depth);
        lemma_clone_items_keeps(m1, src, i + 1, acc.push(c), depth);
    }
}

/// Binding parameters binds no name that is neither bound already nor a
/// parameter.
proof fn lemma_bind_params_absent(
    vars: Seq<(Seq<char>, SValue)>,
    params: Seq<Seq<char>>,
    args: Seq<SValue>,
    i: int,
    name: Seq<char>,
)
    requires
        0 <= i,
        forall|k: int| 0 <= k < vars.len() ==> (#[trigger] vars[k]).0 != name,
        forall|k: int| i <= k < params.len() ==> #[trigger] params[k] != name,
    ensures
        forall|k: int|
            0 <= k < bind_params(vars, params, args, i).len() ==> (#[trigger] bind_params(
                vars,
                params,
                args,
                i,
            )[k]).0 != name,
    decreases params.len() - i,
{
    if i < params.len() && i < args.len() {
        let v2 = crate::environment::bind(vars, params[i], args[i]);
        crate::environment::lemma_find_var(vars, params[i], 0);
        assert forall|k: int| 0 <= k < v2.len() implies (#[trigger] v2[k]).0 != name by {
            if k < vars.len() && v2[k] != (params[i], args[i]) {
                assert(v2[k] == vars[k]);
            }
        }
        lemma_bind_params_absent(v2, params, args, i + 1, name);
        assert(bind_params(vars, params, args, i) == bind_params(v2, params, args, i + 1));
    } else {
        assert(bind_params(vars, params, args, i) == vars);
    }
}

/// With distinct parameter names, binding the parameters pairs each with
/// its argument, in order.
proof fn lemma_bind_params_distinct(params: Seq<Seq<char>>, args: Seq<SValue>, i: int)
    requires
        0 <= i <= params.len(),
        params.len() == args.len(),
        forall|a: int, b: int| 0 <= a < b < params.len() ==> params[a] != params[b],
    ensures
        bind_params(Seq::new(i as nat, |k: int| (params[k], args[k])), params, args, i)
            == Seq::new(params.len(), |k: int| (params[k], args[k])),
    decreases params.len() - i,
{
    let vars = Seq::new(i as nat, |k: int| (params[k], args[k]));
    if i < params.len() {
        crate::environment::lemma_find_var(vars, params[i], 0);
        if let Some(k) = crate::environment::find_var(vars, params[i], 0) {
            assert(vars[k].0 == params[k]);
        }
        let next = Seq::new((i + 1) as nat, |k: int| (params[k], args[k]));
        assert(vars.push((params[i], args[i])) =~= next);
        lemma_bind_params_distinct(params, args, i + 1);
    } else {
        assert(vars =~= Seq::new(params.len(), |k: int| (params[k], args[k])));
    }
}

/// Functions are closures: inside a call, a name that is not a parameter
/// means what it means in the scope the function was defined in, whatever
/// scope the call is made from.
pub proof fn lemma_call_sees_closure(sc: Seq<SScope>, f: SFunc, args: Seq<SValue>, name: Seq<char>)
    requires
        f.closure < sc.len(),
        !f.params.contains(name),
    ensures
        lookup(call_scopes(sc, f, args), sc.len() as int, name) == lookup(sc, f.closure as int, name),
{
    let sc2 = call_scopes(sc, f, args);
    assert forall|k: int| 0 <= k < f.params.len() implies #[trigger] f.params[k] != name by {
        if f.params[k] == name {
            assert(f.params.contains(name));
        }
    }
    lemma_bind_params_absent(Seq::empty(), f.params, args, 0, name);
    let vars = bind_params(Seq::empty(), f.params, args, 0);
    crate::environment::lemma_find_var(vars, name, 0);
    if let Some(k) = crate::environment::find_var(vars, name, 0) {
        assert(vars[k].0 != name);
    }
    crate::environment::lemma_lookup_frame(sc, sc2, f.closure as int, name);
}

/// Inside a call of a function with distinct parameter names, each
/// parameter names its argument.
pub proof fn lemma_call_binds_params(sc: Seq<SScope>, f: SFunc, args: Seq<SValue>, j: int)
    requires
        f.closure < sc.len(),
        f.params.len() == args.len(),
        0 <= j < args.len(),
        forall|a: int, b: int| 0 <= a < b < f.params.len() ==> f.params[a] != f.params[b],
    ensures
        lookup(call_scopes(sc, f, args), sc.len() as int, f.params[j]) == Some(args[j]),
{
    lemma_bind_params_distinct(f.params, args, 0);
    assert(Seq::new(0, |k: int| (f.params[k], args[k])) =~= Seq::<(Seq<char>, SValue)>::empty());
    let vars = bind_params(Seq::empty(), f.params, args, 0);
    assert forall|k: int| 0 <= k < j implies #[trigger] vars[k].0 != f.params[j] by {
        assert(vars[k].0 == f.params[k]);
    }
    crate::environment::lemma_find_var_at(vars, f.params[j], 0, j);
}

/// A prompt step gives a value exactly when the statement is an
/// expression statement.
proof fn lemma_prompt_step_value(m: SMachine, st: SStmt)
    ensures
        s_prompt_step(m, st) matches Out::Done(v, _) ==> (v is Some <==> st is ExprStmt),
{
    reveal(s_prompt_step);
}

/// Running statements as the prompt does gives a value exactly when the
/// last statement is an expression statement (the value kept before the
/// run when there are no statements left).
proof fn lemma_session_value_from(m: SMachine, ss: Seq<SStmt>, i: int, last: Option<SValue>)
    requires
        0 <= i <= ss.len(),
    ensures
        s_session(m, ss, i, last) matches Out::Done(v, _) ==> if i < ss.len() {
            (v is Some <==> ss.last() is ExprStmt)
        } else {
            v == last
        },
    decreases ss.len() - i,
{
    if i < ss.len() {
        lemma_prompt_step_value(m, ss[i]);
        if let Out::Done(v1, m1) = s_prompt_step(m, ss[i]) {
            lemma_session_value_from(m1, ss, i + 1, v1);
        }
    }
}

/// Running a program as the prompt does (`eval_source`) gives a value
/// exactly when its last statement is an expression statement.
pub proof fn lemma_session_value(m: SMachine, ss: Seq<SStmt>)
    ensures
        s_session(m, ss, 0, None) matches Out::Done(v, _) ==> (v is Some <==> (ss.len() > 0
            && ss.last() is ExprStmt)),
{
    lemma_session_value_from(m, ss, 0, None);
}


// ─── Laws of control flow and equality ───────────────────────

/// The state in which round `item` of a `for` loop over scope `env` runs
/// its body: a fresh child scope of `env` that binds `var` to `item`.
pub open spec fn for_round_state(m: SMachine, var: Seq<char>, item: SValue, env: usize) -> SMachine {
    with_scopes(
        m,
        m.scopes.push(SScope { vars: seq![(var, item)], consts: Seq::empty(), parent: Some(env) }),
    )
}

/// `break` ends a `for` loop: when the body of a round finishes with
/// `break`, the loop finishes normally in the state that body left, and
/// runs no later round.
pub proof fn lemma_for_break_ends_loop(
    m: SMachine,
    var: Seq<char>,
    items: Seq<SValue>,
    i: int,
    body: Seq<SStmt>,
    env: usize,
    fuel: nat,
    m2: SMachine,
)
    requires
        0 <= i < items.len(),
        fuel > 0,
        s_block(for_round_state(m, var, items[i], env), body, 0, m.scopes.len() as usize, (fuel - 1) as nat)
            == Out::Done(SFlow::Break, m2),
    ensures
        s_for(m, var, items, i, body, env, fuel) == Out::Done(SFlow::Normal, m2),
{
}

/// `continue` goes on with the next round of a `for` loop: when the body
/// of a round finishes with `continue`, the loop goes on from the next
/// item in the state that body left.
pub proof fn lemma_for_continue_goes_on(
    m: SMachine,
    var: Seq<char>,
    items: Seq<SValue>,
    i: int,
    body: Seq<SStmt>,
    env: usize,
    fuel: nat,
    m2: SMachine,
)
    requires
        0 <= i < items.len(),
        fuel > 0,
        s_block(for_round_state(m, var, items[i], env), body, 0, m.scopes.len() as usize, (fuel - 1) as nat)
            == Out::Done(SFlow::Continue, m2),
    ensures
        s_for(m, var, items, i, body, env, fuel) == s_for(m2, var, items, i + 1, body, env, fuel),
{
}

/// A `for` loop whose body starts with `break` runs one round only: it
/// finishes normally with one scope more, and the items after the
/// current one make no difference.
pub proof fn lemma_for_break_first(
    m: SMachine,
    var: Seq<char>,
    items: Seq<SValue>,
    i: int,
    body: Seq<SStmt>,
    env: usize,
    fuel: nat,
)
    requires
        0 <= i < items.len(),
        fuel > 1,
        body.len() > 0,
        body[0] == SStmt::Break,
    ensures
        s_for(m, var, items, i, body, env, fuel) == Out::Done(
            SFlow::Normal,
            for_round_state(m, var, items[i], env),
        ),
        s_for(m, var, items, i, body, env, fuel) == s_for(m, var, items.take(i + 1), i, body, env, fuel),
        s_for(m, var, items, i, body, env, fuel) matches Out::Done(_, m2) && m2.scopes.len()
            == m.scopes.len() + 1,
{
    let r = for_round_state(m, var, items[i], env);
    assert(s_exec(r, SStmt::Break, m.scopes.len() as usize, (fuel - 1) as nat) == Out::Done(SFlow::Break, r));
    assert(s_block(r, body, 0, m.scopes.len() as usize, (fuel - 1) as nat) == Out::Done(SFlow::Break, r));
    assert(items.take(i + 1)[i] == items[i]);
}

/// `break` ends a `while` loop: when the condition holds and the body
/// finishes with `break`, the loop finishes normally in the state that
/// body left.
pub proof fn lemma_while_break_ends_loop(
    m: SMachine,
    cond: SExpr,
    body: Seq<SStmt>,
    env: usize,
    fuel: nat,
    c: SValue,
    m1: SMachine,
    m2: SMachine,
)
    requires
        fuel > 0,
        s_eval(m, cond, env, (fuel - 1) as nat) == Out::Done(c, m1),
        truthy(m1, c),
        s_block(m1, body, 0, env, (fuel - 1) as nat) == Out::Done(SFlow::Break, m2),
    ensures
        s_while(m, cond, body, env, fuel) == Out::Done(SFlow::Normal, m2),
{
}

/// A bare `return;` is `return null;`.
pub proof fn lemma_bare_return_is_null(m: SMachine, env: usize, fuel: nat)
    requires
        fuel > 1,
    ensures
        s_exec(m, SStmt::Return(None), env, fuel) == s_exec(m, SStmt::Return(Some(SExpr::Null)), env, fuel),
        s_exec(m, SStmt::Return(None), env, fuel) == Out::Done(SFlow::Return(SValue::Null), m),
{
}

/// Calling a function whose body starts with a bare `return;` gives
/// `null`.
pub proof fn lemma_call_bare_return(m: SMachine, fi: usize, args: Seq<SValue>, fuel: nat)
    requires
        fi < m.funcs.len(),
        m.funcs[fi as int].params.len() == args.len(),
        m.funcs[fi as int].body.len() > 0,
        m.funcs[fi as int].body[0] == SStmt::Return(None),
        fuel > 2,
    ensures
        s_call(m, SValue::Func(fi), args, fuel) matches Out::Done(v, _) && v == SValue::Null,
{
    let def = m.funcs[fi as int];
    let m1 = with_scopes(m, call_scopes(m.scopes, def, args));
    let c = m.scopes.len() as usize;
    assert(s_exec(m1, def.body[0], c, (fuel - 1) as nat) == Out::Done(SFlow::Return(SValue::Null), m1));
    assert(s_block(m1, def.body, 0, c, (fuel - 1) as nat) == Out::Done(SFlow::Return(SValue::Null), m1));
}

/// Strings are equal under `==` exactly when they hold the same
/// characters, and comparing them asks the host nothing.
pub proof fn lemma_string_equality(m: SMachine, s: Seq<char>, t: Seq<char>, depth: nat)
    ensures
        values_equal(m, SValue::Str(s), SValue::Str(t), depth) == Out::Done(s == t, m),
        values_equal(m, SValue::Str(s), SValue::Str(s), depth) == Out::Done(true, m),
{
}

/// `==` is reflexive on integers, strings, booleans and `null`, and
/// symmetric on all values but floats and arrays (which it compares
/// through the host and element by element).
pub proof fn lemma_equality_reflexive_symmetric(m: SMachine, v: SValue, w: SValue, depth: nat)
    ensures
        (v is Int || v is Str || v is Bool || v is Null) ==> values_equal(m, v, v, depth)
            == Out::Done(true, m),
        !(v is Float) && !(v is Array) && !(w is Float) && !(w is Array) ==> values_equal(
            m,
            v,
            w,
            depth,
        ) == values_equal(m, w, v, depth),
        !(v is Float) && !(v is Array) && !(w is Float) && !(w is Array) ==> values_equal(
            m,
            v,
            w,
            depth,
        ) is Done,
{
}


/// A `for` loop whose body does nothing runs one round per item: it
/// finishes normally with one fresh scope per remaining item.
pub proof fn lemma_for_runs_every_round(
    m: SMachine,
    var: Seq<char>,
    items: Seq<SValue>,
    i: int,
    env: usize,
    fuel: nat,
)
    requires
        0 <= i <= items.len(),
        fuel > 1,
    ensures
        s_for(m, var, items, i, Seq::empty(), env, fuel) matches Out::Done(f, m2) && f == SFlow::Normal
            && m2.scopes.len() == m.scopes.len() + items.len() - i,
    decreases items.len() - i,
{
    if i < items.len() {
        let r = for_round_state(m, var, items[i], env);
        assert(s_block(r, Seq::empty(), 0, m.scopes.len() as usize, (fuel - 1) as nat) == Out::Done(
            SFlow::Normal,
            r,
        ));
        lemma_for_runs_every_round(r, var, items, i + 1, env, fuel);
    }
}

/// `return` leaves a `for` loop at once with the value returned.
pub proof fn lemma_for_return_leaves_loop(
    m: SMachine,
    var: Seq<char>,
    items: Seq<SValue>,
    i: int,
    body: Seq<SStmt>,
    env: usize,
    fuel: nat,
    v: SValue,
    m2: SMachine,
)
    requires
        0 <= i < items.len(),
        fuel > 0,
        s_block(for_round_state(m, var, items[i], env), body, 0, m.scopes.len() as usize, (fuel - 1) as nat)
            == Out::Done(SFlow::Return(v), m2),
    ensures
        s_for(m, var, items, i, body, env, fuel) == Out::Done(SFlow::Return(v), m2),
{
}

/// A `while` loop whose condition is false runs its body no time: it
/// finishes normally in the state the condition left.
pub proof fn lemma_while_false_skips_body(
    m: SMachine,
    cond: SExpr,
    body: Seq<SStmt>,
    env: usize,
    fuel: nat,
    c: SValue,
    m1: SMachine,
)
    requires
        fuel > 0,
        s_eval(m, cond, env, (fuel - 1) as nat) == Out::Done(c, m1),
        !truthy(m1, c),
    ensures
        s_while(m, cond, body, env, fuel) == Out::Done(SFlow::Normal, m1),
{
}

/// `continue` and a body that finishes normally both go on with the next
/// round of a `while` loop, in the state the body left.
pub proof fn lemma_while_goes_on(
    m: SMachine,
    cond: SExpr,
    body: Seq<SStmt>,
    env: usize,
    fuel: nat,
    c: SValue,
    m1: SMachine,
    m2: SMachine,
    flow: SFlow,
)
    requires
        fuel > 0,
        s_eval(m, cond, env, (fuel - 1) as nat) == Out::Done(c, m1),
        truthy(m1, c),
        flow == SFlow::Normal || flow == SFlow::Continue,
        s_block(m1, body, 0, env, (fuel - 1) as nat) == Out::Done(flow, m2),
    ensures
        s_while(m, cond, body, env, fuel) == s_while(m2, cond, body, env, (fuel - 1) as nat),
{
}

/// `if (true) A else B` runs `A`; `if (false) A else B` runs `B`;
/// `if (false) A` does nothing.
pub proof fn lemma_if_branches(
    m: SMachine,
    a: Seq<SStmt>,
    b: Seq<SStmt>,
    env: usize,
    fuel: nat,
)
    requires
        fuel > 1,
    ensures
        s_exec(
            m,
            SStmt::If { cond: SExpr::Bool(true), then_branch: a, else_branch: Some(b) },
            env,
            fuel,
        ) == s_block(m, a, 0, env, (fuel - 1) as nat),
        s_exec(
            m,
            SStmt::If { cond: SExpr::Bool(false), then_branch: a, else_branch: Some(b) },
            env,
            fuel,
        ) == s_block(m, b, 0, env, (fuel - 1) as nat),
        s_exec(m, SStmt::If { cond: SExpr::Bool(false), then_branch: a, else_branch: None }, env, fuel)
            == Out::Done(SFlow::Normal, m),
{
}

/// `==` on integers, booleans and `null` compares by value; values of
/// different kinds (other than two numbers) are unequal; arrays of
/// different lengths are unequal.
pub proof fn lemma_equality_by_value(m: SMachine, x: i64, y: i64, p: bool, q: bool, depth: nat)
    ensures
        values_equal(m, SValue::Int(x), SValue::Int(y), depth) == Out::Done(x == y, m),
        values_equal(m, SValue::Bool(p), SValue::Bool(q), depth) == Out::Done(p == q, m),
        values_equal(m, SValue::Null, SValue::Null, depth) == Out::Done(true, m),
        values_equal(m, SValue::Null, SValue::Int(x), depth) == Out::Done(false, m),
        values_equal(m, SValue::Int(x), SValue::Bool(p), depth) == Out::Done(false, m),
        values_equal(m, SValue::Str(seq![]), SValue::Null, depth) == Out::Done(false, m),
{
}

/// Arrays of different lengths are unequal under `==`.
pub proof fn lemma_arrays_of_other_lengths_differ(m: SMachine, h: usize, k: usize, depth: nat)
    requires
        m.arrays[h as int].len() != m.arrays[k as int].len(),
    ensures
        values_equal(m, SValue::Array(h), SValue::Array(k), depth) == Out::Done(false, m),
{
}


/// Integer `+` is the sum of its operands when that fits (it wraps
/// otherwise); `+` and `*` commute; `a - b` is `a + (-b)`.
pub proof fn lemma_int_arithmetic(m: SMachine, a: i64, b: i64)
    ensures
        -0x8000_0000_0000_0000 <= a + b < 0x8000_0000_0000_0000 ==> s_binop(
            m,
            BinOp::Add,
            SValue::Int(a),
            SValue::Int(b),
        ) == Out::Done(SValue::Int((a + b) as i64), m),
        s_binop(m, BinOp::Add, SValue::Int(a), SValue::Int(b)) == s_binop(
            m,
            BinOp::Add,
            SValue::Int(b),
            SValue::Int(a),
        ),
        s_binop(m, BinOp::Mul, SValue::Int(a), SValue::Int(b)) == s_binop(
            m,
            BinOp::Mul,
            SValue::Int(b),
            SValue::Int(a),
        ),
        -0x8000_0000_0000_0000 < b ==> s_binop(m, BinOp::Sub, SValue::Int(a), SValue::Int(b)) == s_binop(
            m,
            BinOp::Add,
            SValue::Int(a),
            SValue::Int(-b as i64),
        ),
{
    assert(-0x8000_0000_0000_0000 <= a + b < 0x8000_0000_0000_0000 ==> a.wrapping_add(b) == (a + b) as i64)
        by (bit_vector);
    assert(a.wrapping_add(b) == b.wrapping_add(a)) by (bit_vector);
    assert(a.wrapping_mul(b) == b.wrapping_mul(a)) by (bit_vector);
    assert(-0x8000_0000_0000_0000 < b ==> a.wrapping_sub(b) == a.wrapping_add((-b) as i64)) by (bit_vector);
}


/// No text is before itself in dictionary order.
proof fn lemma_seq_less_irreflexive(a: Seq<char>)
    ensures
        !seq_less(a, a),
    decreases a.len(),
{
    if a.len() > 0 {
        lemma_seq_less_irreflexive(a.drop_first());
    }
}

/// Comparisons: on integers `< > <= >=` are the order of the numbers; on
/// strings `a > b` is `b < a`, `<=` and `>=` are the negations of `>`
/// and `<`, and no string is less than itself.
pub proof fn lemma_comparisons(m: SMachine, a: i64, b: i64, s: Seq<char>, t: Seq<char>)
    ensures
        s_binop(m, BinOp::Lt, SValue::Int(a), SValue::Int(b)) == Out::Done(SValue::Bool(a < b), m),
        s_binop(m, BinOp::Gt, SValue::Int(a), SValue::Int(b)) == Out::Done(SValue::Bool(a > b), m),
        s_binop(m, BinOp::LtEq, SValue::Int(a), SValue::Int(b)) == Out::Done(SValue::Bool(a <= b), m),
        s_binop(m, BinOp::GtEq, SValue::Int(a), SValue::Int(b)) == Out::Done(SValue::Bool(a >= b), m),
        s_binop(m, BinOp::Gt, SValue::Str(s), SValue::Str(t)) == s_binop(
            m,
            BinOp::Lt,
            SValue::Str(t),
            SValue::Str(s),
        ),
        s_binop(m, BinOp::LtEq, SValue::Str(s), SValue::Str(t)) matches Out::Done(SValue::Bool(x), m1)
            && m1 == m && s_binop(m, BinOp::Gt, SValue::Str(s), SValue::Str(t)) == Out::Done(
            SValue::Bool(!x),
            m,
        ),
        s_binop(m, BinOp::GtEq, SValue::Str(s), SValue::Str(t)) matches Out::Done(SValue::Bool(x), m1)
            && m1 == m && s_binop(m, BinOp::Lt, SValue::Str(s), SValue::Str(t)) == Out::Done(
            SValue::Bool(!x),
            m,
        ),
        s_binop(m, BinOp::Lt, SValue::Str(s), SValue::Str(s)) == Out::Done(SValue::Bool(false), m),
{
    lemma_seq_less_irreflexive(s);
}

/// `==` gives the language's equality of the operands and `!=` its
/// negation, in the same state.
pub proof fn lemma_not_equal_negates(m: SMachine, v: SValue, w: SValue, b: bool, m1: SMachine)
    requires
        values_equal(m, v, w, depth_limit()) == Out::Done(b, m1),
    ensures
        s_binop(m, BinOp::Eq, v, w) == Out::Done(SValue::Bool(b), m1),
        s_binop(m, BinOp::NotEq, v, w) == Out::Done(SValue::Bool(!b), m1),
{
}

/// `+` on two strings joins them; a string and another value join the
/// string with the value's text.
pub proof fn lemma_string_concat(m: SMachine, s: Seq<char>, t: Seq<char>, n: i64)
    ensures
        s_binop(m, BinOp::Add, SValue::Str(s), SValue::Str(t)) == Out::Done(SValue::Str(s + t), m),
        s_binop(m, BinOp::Add, SValue::Str(s), SValue::Int(n)) == Out::Done(
            SValue::Str(s + int_text(n)),
            m,
        ),
        s_binop(m, BinOp::Add, SValue::Int(n), SValue::Str(s)) == Out::Done(
            SValue::Str(int_text(n) + s),
            m,
        ),
{
}

/// Dividing or taking the remainder by integer zero fails, whatever the
/// dividend.
pub proof fn lemma_division_by_zero(m: SMachine, a: i64)
    ensures
        s_binop(m, BinOp::Div, SValue::Int(a), SValue::Int(0)) == Out::<SValue>::Failed(
            SRuntimeError::DivisionByZero,
            m,
        ),
        s_binop(m, BinOp::Mod, SValue::Int(a), SValue::Int(0)) == Out::<SValue>::Failed(
            SRuntimeError::DivisionByZero,
            m,
        ),
{
}

/// Negating an integer twice gives it back; `!` gives the opposite of
/// the value's truth.
pub proof fn lemma_unary(m: SMachine, n: i64, v: SValue)
    ensures
        s_unary(m, UnaryOp::Neg, SValue::Int(n)) matches Out::Done(SValue::Int(k), m1) && m1 == m
            && s_unary(m, UnaryOp::Neg, SValue::Int(k)) == Out::Done(SValue::Int(n), m),
        s_unary(m, UnaryOp::Not, v) == Out::Done(SValue::Bool(!truthy(m, v)), m),
        s_unary(m, UnaryOp::Not, SValue::Int(0)) == Out::Done(SValue::Bool(true), m),
        s_unary(m, UnaryOp::Not, SValue::Null) == Out::Done(SValue::Bool(true), m),
{
    let k = 0i64.wrapping_sub(n);
    assert(0i64.wrapping_sub(0i64.wrapping_sub(n)) == n) by (bit_vector);
}

/// A call with the wrong number of arguments fails without running the
/// body.
pub proof fn lemma_call_arity(m: SMachine, fi: usize, args: Seq<SValue>, fuel: nat)
    requires
        fi < m.funcs.len(),
        m.funcs[fi as int].params.len() != args.len(),
        fuel > 0,
    ensures
        s_call(m, SValue::Func(fi), args, fuel) == Out::<SValue>::Failed(
            SRuntimeError::ArgCountMismatch {
                expected: m.funcs[fi as int].params.len() as usize,
                got: args.len() as usize,
            },
            m,
        ),
{
}

/// A function whose body runs to its end without `return` gives `null`;
/// one whose body ends with `return v` gives `v`.
pub proof fn lemma_call_result(m: SMachine, fi: usize, args: Seq<SValue>, fuel: nat, m2: SMachine, v: SValue)
    requires
        fi < m.funcs.len(),
        m.funcs[fi as int].params.len() == args.len(),
        fuel > 0,
    ensures
        s_block(
            with_scopes(m, call_scopes(m.scopes, m.funcs[fi as int], args)),
            m.funcs[fi as int].body,
            0,
            m.scopes.len() as usize,
            (fuel - 1) as nat,
        ) == Out::Done(SFlow::Normal, m2) ==> s_call(m, SValue::Func(fi), args, fuel) == Out::Done(
            SValue::Null,
            m2,
        ),
        s_block(
            with_scopes(m, call_scopes(m.scopes, m.funcs[fi as int], args)),
            m.funcs[fi as int].body,
            0,
            m.scopes.len() as usize,
            (fuel - 1) as nat,
        ) == Out::Done(SFlow::Return(v), m2) ==> s_call(m, SValue::Func(fi), args, fuel) == Out::Done(
            v,
            m2,
        ),
{
}

} // verus!

//! The interpreter: runs syntax trees by walking them.
//!
//! Two entry points: `eval` evaluates an expression to a value, `exec`
//! runs a statement and reports how it finished (`Flow`); `return`,
//! `break` and `continue` travel up as `Flow` values.
//!
//! Each evaluating function is proved to do exactly what the semantics in
//! `semantics` describes, starting from the state the interpreter is in
//! (its view, an `SMachine`), and to keep that state consistent.  The view
//! records the questions put to the host with its answers; a contract
//! states the semantics' outcome for every sequence of host replies that
//! begins with the answers recorded at the end (`knows`), read from the
//! state at the start (`with_replies`).
//!
//! The interpreter holds its host (`Host`): the float primitives it calls,
//! and where the text that programs print goes.

use crate::ast::{
    copy_names, copy_stmts, exprs_view, lemma_exprs_view_index, lemma_stmts_view_index, names_view,
    stmts_view, BinOp, Expr, Program, Stmt, UnaryOp,
};
use crate::environment::{
    assign_spec, child_spec, define_const_spec, define_spec, lemma_assign_ok, lemma_child_ok,
    lemma_define_ok, lemma_env_values_grow, lemma_lookup_ok, lookup, vars_view, Env, Environment,
    SScope,
};
use crate::errors::{append_usize, RuntimeError, SRuntimeError};
use crate::semantics::{
    bind_params, builtin_arity, builtin_bindings, builtin_value, char_values, depth_limit, display,
    grows, initial_machine, int_div, int_rem, machine_wf, s_add, s_arith, s_assign_target, s_binop,
    s_block, s_builtin, s_call, s_clone_items, s_compare, s_deep_clone, s_div, s_eval, s_eval_list,
    s_exec, s_for, s_index, s_mod, s_unary, s_while, step_budget, truthy, two_types, valid,
    with_array, with_arrays, with_funcs, with_output, with_scopes, Out, SFlow, SFunc, SMachine,
    arith_call, ask, ask_bool, ask_float, ask_int, ask_text, compare_call, float_arith_out,
    float_compare_out, float_equal, knows, record, same_data, widen, with_replies, display_items,
    HostAnswer,
    HostCall,
};
use crate::text::{
    char_to_string, chars_less, chars_of, i64_to_decimal, join, parse_i64, push_char,
    u64_to_decimal,
};
use crate::value::{is_float_zero, value_ok, Builtin, SValue, Value};
use vstd::prelude::*;

verus! {

/// A question the interpreter puts to its host, on floats held as their
/// IEEE-754 binary64 bit patterns.
#[derive(Debug)]
pub enum Question {
    /// The float that a literal such as `3.14` denotes.
    ParseFloat(String),
    /// The float nearest to an integer.
    IntToFloat(i64),
    /// A float truncated toward zero to an integer (saturating).
    FloatToInt(u64),
    /// `a + b`.
    Add(u64, u64),
    /// `a - b`.
    Sub(u64, u64),
    /// `a * b`.
    Mul(u64, u64),
    /// `a / b` (`b` is not zero).
    Div(u64, u64),
    /// The remainder of `a / b`, with the sign of `a`.
    Rem(u64, u64),
    /// `a == b`.
    Eq(u64, u64),
    /// `a < b`.
    Lt(u64, u64),
    /// `a > b`.
    Gt(u64, u64),
    /// `a <= b`.
    Le(u64, u64),
    /// `a >= b`.
    Ge(u64, u64),
    /// The text of a float as `print` shows it.
    Format(u64),
}

impl View for Question {
    type V = HostCall;

    open spec fn view(&self) -> HostCall {
        match self {
            Question::ParseFloat(t) => HostCall::ParseFloat(t@),
            Question::IntToFloat(n) => HostCall::IntToFloat(*n),
            Question::FloatToInt(x) => HostCall::FloatToInt(*x),
            Question::Add(a, b) => HostCall::Add(*a, *b),
            Question::Sub(a, b) => HostCall::Sub(*a, *b),
            Question::Mul(a, b) => HostCall::Mul(*a, *b),
            Question::Div(a, b) => HostCall::Div(*a, *b),
            Question::Rem(a, b) => HostCall::Rem(*a, *b),
            Question::Eq(a, b) => HostCall::Eq(*a, *b),
            Question::Lt(a, b) => HostCall::Lt(*a, *b),
            Question::Gt(a, b) => HostCall::Gt(*a, *b),
            Question::Le(a, b) => HostCall::Le(*a, *b),
            Question::Ge(a, b) => HostCall::Ge(*a, *b),
            Question::Format(x) => HostCall::Format(*x),
        }
    }
}

/// What the interpreter asks of its host: the answers to its questions on
/// floats (float literals, float arithmetic and comparison, conversions
/// between integers and floats, the text of a float), and showing the text
/// that programs print.  The interpreter records each question it puts to
/// the host with the answer (`SMachine::asked`), and its contracts state
/// its results for the answers the host gave, whatever they are.
pub trait Host {
    /// The float that answers `q`: a literal's value, an integer as a
    /// float, or a float `+ - * / %`.
    fn float_answer(&self, q: &Question) -> u64;

    /// The integer that answers `q`: a float truncated to an integer.
    fn int_answer(&self, q: &Question) -> i64;

    /// The truth value that answers `q`: a float comparison.
    fn bool_answer(&self, q: &Question) -> bool;

    /// The text that answers `q`: the text of a float.
    fn text_answer(&self, q: &Question) -> String;

    /// Shows text that a program prints.
    fn write(&mut self, text: &str);
}

/// How a statement finished.
#[derive(Debug)]
pub enum Flow {
    Normal,
    Return(Value),
    Break,
    Continue,
}

impl View for Flow {
    type V = SFlow;

    open spec fn view(&self) -> SFlow {
        match self {
            Flow::Normal => SFlow::Normal,
            Flow::Return(v) => SFlow::Return(v@),
            Flow::Break => SFlow::Break,
            Flow::Continue => SFlow::Continue,
        }
    }
}

/// A user-defined function: parameters, body, and the scope it was
/// defined in.
#[derive(Debug)]
struct FuncDef {
    params: Vec<String>,
    body: Vec<Stmt>,
    closure: Env,
}

/// The views of a sequence of values.
pub open spec fn values_view(v: Seq<Value>) -> Seq<SValue> {
    v.map_values(|x: Value| x@)
}

spec fn arrays_view(a: Seq<Vec<Value>>) -> Seq<Seq<SValue>> {
    a.map_values(|v: Vec<Value>| values_view(v@))
}

spec fn func_view(f: FuncDef) -> SFunc {
    SFunc { params: names_view(f.params@), body: stmts_view(f.body@), closure: f.closure }
}

spec fn funcs_view(fs: Seq<FuncDef>) -> Seq<SFunc> {
    fs.map_values(|f: FuncDef| func_view(f))
}

/// The interpreter: scopes, arrays, functions, the record of the text
/// handed to the host to print and of the questions put to the host with
/// its answers, and the host.
pub struct Interpreter<F> {
    env: Environment,
    arrays: Vec<Vec<Value>>,
    funcs: Vec<FuncDef>,
    printed: Ghost<Seq<char>>,
    asked: Ghost<Seq<(HostCall, HostAnswer)>>,
    host: F,
}

impl<F> View for Interpreter<F> {
    type V = SMachine;

    closed spec fn view(&self) -> SMachine {
        SMachine {
            scopes: self.env@,
            arrays: arrays_view(self.arrays@),
            funcs: funcs_view(self.funcs@),
            output: self.printed@,
            asked: self.asked@,
            replies: Seq::empty(),
        }
    }
}

/// `r` is what the outcome `o` states, in the final state `m` (no result
/// meets `Opaque`).
pub open spec fn value_out(o: Out<SValue>, r: Result<Value, RuntimeError>, m: SMachine) -> bool {
    match o {
        Out::Done(v, m2) => r matches Ok(x) && x@ == v && m == m2,
        Out::Failed(e, m2) => r matches Err(x) && x@ == e && m == m2,
        Out::Opaque => false,
    }
}

/// `r` is what the outcome `o` states, in the final state `m` (no result
/// meets `Opaque`).
pub open spec fn flow_out(o: Out<SFlow>, r: Result<Flow, RuntimeError>, m: SMachine) -> bool {
    match o {
        Out::Done(v, m2) => r matches Ok(x) && x@ == v && m == m2,
        Out::Failed(e, m2) => r matches Err(x) && x@ == e && m == m2,
        Out::Opaque => false,
    }
}

/// `r` is what the outcome `o` states, in the final state `m` (no result
/// meets `Opaque`).
pub open spec fn values_out(o: Out<Seq<SValue>>, r: Result<Vec<Value>, RuntimeError>, m: SMachine) -> bool {
    match o {
        Out::Done(v, m2) => r matches Ok(x) && values_view(x@) == v && m == m2,
        Out::Failed(e, m2) => r matches Err(x) && x@ == e && m == m2,
        Out::Opaque => false,
    }
}

/// `r` is what the outcome `o` states, in the final state `m` (no result
/// meets `Opaque`).
pub open spec fn unit_out(o: Out<()>, r: Result<(), RuntimeError>, m: SMachine) -> bool {
    match o {
        Out::Done(_, m2) => r is Ok && m == m2,
        Out::Failed(e, m2) => r matches Err(x) && x@ == e && m == m2,
        Out::Opaque => false,
    }
}

/// A result value, when there is one, is valid in `m`.
pub open spec fn value_res_ok(m: SMachine, r: Result<Value, RuntimeError>) -> bool {
    r matches Ok(v) ==> valid(m, v@)
}

/// A returned value, when there is one, is valid in `m`.
pub open spec fn flow_res_ok(m: SMachine, r: Result<Flow, RuntimeError>) -> bool {
    r matches Ok(Flow::Return(v)) ==> valid(m, v@)
}

// ─── Facts about states ──────────────────────────────────────

/// Replacing the scopes by well-formed ones with valid bindings, no fewer,
/// keeps the state consistent.
proof fn lemma_wf_scopes(m: SMachine, sc: Seq<SScope>)
    requires
        machine_wf(m),
        crate::environment::scopes_wf(sc),
        crate::environment::env_values_ok(sc, m.arrays.len(), m.funcs.len()),
        sc.len() >= m.scopes.len(),
    ensures
        machine_wf(with_scopes(m, sc)),
        grows(m, with_scopes(m, sc)),
{
    let m2 = with_scopes(m, sc);
    assert forall|f: int| 0 <= f < m2.funcs.len() implies #[trigger] m2.funcs[f].closure
        < m2.scopes.len() by {
        assert(m.funcs[f].closure < m.scopes.len());
    }
}

/// Storing a new array of valid values keeps the state consistent.
proof fn lemma_wf_new_array(m: SMachine, items: Seq<SValue>)
    requires
        machine_wf(m),
        forall|j: int| 0 <= j < items.len() ==> valid(m, #[trigger] items[j]),
    ensures
        machine_wf(with_array(m, items)),
        grows(m, with_array(m, items)),
{
    let m2 = with_array(m, items);
    lemma_env_values_grow(m.scopes, m.arrays.len(), m.funcs.len(), m2.arrays.len(), m2.funcs.len());
    assert forall|i: int, j: int|
        0 <= i < m2.arrays.len() && 0 <= j < m2.arrays[i].len() implies value_ok(
        #[trigger] m2.arrays[i][j],
        m2.arrays.len(),
        m2.funcs.len(),
    ) by {
        if i < m.arrays.len() {
            assert(value_ok(m.arrays[i][j], m.arrays.len(), m.funcs.len()));
        } else {
            assert(valid(m, items[j]));
        }
    }
}

/// Replacing an array by one of valid values keeps the state consistent.
proof fn lemma_wf_set_array(m: SMachine, h: int, items: Seq<SValue>)
    requires
        machine_wf(m),
        0 <= h < m.arrays.len(),
        forall|j: int| 0 <= j < items.len() ==> valid(m, #[trigger] items[j]),
    ensures
        machine_wf(with_arrays(m, m.arrays.update(h, items))),
        grows(m, with_arrays(m, m.arrays.update(h, items))),
{
    let m2 = with_arrays(m, m.arrays.update(h, items));
    assert forall|i: int, j: int|
        0 <= i < m2.arrays.len() && 0 <= j < m2.arrays[i].len() implies value_ok(
        #[trigger] m2.arrays[i][j],
        m2.arrays.len(),
        m2.funcs.len(),
    ) by {
        if i != h {
            assert(value_ok(m.arrays[i][j], m.arrays.len(), m.funcs.len()));
        } else {
            assert(valid(m, items[j]));
        }
    }
}

/// Adding a function defined in an existing scope keeps the state
/// consistent.
proof fn lemma_wf_new_func(m: SMachine, f: SFunc)
    requires
        machine_wf(m),
        f.closure < m.scopes.len(),
    ensures
        machine_wf(with_funcs(m, m.funcs.push(f))),
        grows(m, with_funcs(m, m.funcs.push(f))),
{
    let m2 = with_funcs(m, m.funcs.push(f));
    lemma_env_values_grow(m.scopes, m.arrays.len(), m.funcs.len(), m2.arrays.len(), m2.funcs.len());
    assert forall|i: int, j: int|
        0 <= i < m2.arrays.len() && 0 <= j < m2.arrays[i].len() implies value_ok(
        #[trigger] m2.arrays[i][j],
        m2.arrays.len(),
        m2.funcs.len(),
    ) by {
        assert(value_ok(m.arrays[i][j], m.arrays.len(), m.funcs.len()));
    }
    assert forall|g: int| 0 <= g < m2.funcs.len() implies #[trigger] m2.funcs[g].closure
        < m2.scopes.len() by {
        if g < m.funcs.len() {
            assert(m.funcs[g].closure < m.scopes.len());
        }
    }
}

// ─── The interpreter ─────────────────────────────────────────

impl<F: Host> Interpreter<F> {
    /// The interpreter's state is consistent.
    pub open spec fn wf(&self) -> bool {
        machine_wf(self@)
    }

    proof fn lemma_views(&self)
        ensures
            self@.arrays.len() == self.arrays@.len(),
            forall|h: int|
                0 <= h < self.arrays@.len() ==> #[trigger] self@.arrays[h] == values_view(
                    self.arrays@[h]@,
                ),
            forall|h: int|
                0 <= h < self.arrays@.len() ==> (#[trigger] self@.arrays[h]).len()
                    == self.arrays@[h]@.len(),
            forall|h: int, j: int|
                0 <= h < self.arrays@.len() && 0 <= j < self.arrays@[h]@.len() ==> #[trigger] self@.arrays[h][j]
                    == self.arrays@[h]@[j]@,
            self@.funcs.len() == self.funcs@.len(),
            forall|f: int|
                0 <= f < self.funcs@.len() ==> #[trigger] self@.funcs[f] == func_view(
                    self.funcs@[f],
                ),
            self@.scopes == self.env@,
            self@.output == self.printed@,
            self@.asked == self.asked@,
    {
    }

    /// The handle of the global scope.
    pub fn global(&self) -> (r: Env)
        ensures
            r == 0,
    {
        0
    }

    /// The host the interpreter holds.
    pub closed spec fn held_host(&self) -> F {
        self.host
    }

    /// The host.
    pub fn host(&self) -> (r: &F)
        ensures
            *r == self.held_host(),
    {
        &self.host
    }

    /// Hands `s` to the host to print.
    fn write(&mut self, s: &str)
        ensures
            forall|o: Seq<HostAnswer>| #![trigger with_replies(final(self)@, o)]
                with_replies(old(self)@, o).asked == final(self)@.asked,
            final(self)@ == with_output(old(self)@, old(self)@.output + s@),
    {
        self.host.write(s);
        self.printed = Ghost(self.printed@ + s@);
        proof {
            assert(self@ =~= with_output(old(self)@, old(self)@.output + s@));
        }
    }

    /// Records that the host answered `a` to `q`.
    fn record_answer(&mut self, q: &Question, a: Ghost<HostAnswer>)
        requires
            old(self).wf(),
        ensures
            final(self).wf(),
            final(self)@ == record(old(self)@, q@, a@),
            grows(old(self)@, final(self)@),
            forall|o: Seq<HostAnswer>| #![trigger with_replies(final(self)@, o)]
                knows(o, final(self)@.asked) ==> ask(with_replies(old(self)@, o), q@)
                    == Some((a@, with_replies(final(self)@, o))),
    {
        self.asked = Ghost(self.asked@.push((q@, a@)));
        proof {
            assert(self@ =~= record(old(self)@, q@, a@));
            let k = old(self)@.asked.len() as int;
            assert(self@.asked[k] == (q@, a@));
            assert forall|o: Seq<HostAnswer>| #![trigger with_replies(self@, o)] knows(o, self@.asked) implies ask(
                with_replies(old(self)@, o),
                q@,
            ) == Some((a@, with_replies(self@, o))) by {
                assert(o[k] == self@.asked[k].1);
                assert(with_replies(self@, o) == record(with_replies(old(self)@, o), q@, a@));
            }
        }
    }

    /// Puts `q` to the host and takes a float for an answer.
    fn ask_for_float(&mut self, q: Question) -> (x: u64)
        requires
            old(self).wf(),
        ensures
            final(self).wf(),
            grows(old(self)@, final(self)@),
            same_data(old(self)@, final(self)@),
            forall|o: Seq<HostAnswer>| #![trigger with_replies(final(self)@, o)]
                knows(o, final(self)@.asked) ==> ask_float(with_replies(old(self)@, o), q@) == Some(
                    (x, with_replies(final(self)@, o)),
                ),
    {
        let x = self.host.float_answer(&q);
        self.record_answer(&q, Ghost(HostAnswer::Float(x)));
        x
    }

    /// Puts `q` to the host and takes an integer for an answer.
    fn ask_for_int(&mut self, q: Question) -> (n: i64)
        requires
            old(self).wf(),
        ensures
            final(self).wf(),
            grows(old(self)@, final(self)@),
            same_data(old(self)@, final(self)@),
            forall|o: Seq<HostAnswer>| #![trigger with_replies(final(self)@, o)]
                knows(o, final(self)@.asked) ==> ask_int(with_replies(old(self)@, o), q@) == Some(
                    (n, with_replies(final(self)@, o)),
                ),
    {
        let n = self.host.int_answer(&q);
        self.record_answer(&q, Ghost(HostAnswer::Int(n)));
        n
    }

    /// Puts `q` to the host and takes a truth value for an answer.
    fn ask_for_bool(&mut self, q: Question) -> (x: bool)
        requires
            old(self).wf(),
        ensures
            final(self).wf(),
            grows(old(self)@, final(self)@),
            same_data(old(self)@, final(self)@),
            forall|o: Seq<HostAnswer>| #![trigger with_replies(final(self)@, o)]
                knows(o, final(self)@.asked) ==> ask_bool(with_replies(old(self)@, o), q@) == Some(
                    (x, with_replies(final(self)@, o)),
                ),
    {
        let x = self.host.bool_answer(&q);
        self.record_answer(&q, Ghost(HostAnswer::Bool(x)));
        x
    }

    /// Puts `q` to the host and takes a text for an answer.
    fn ask_for_text(&mut self, q: Question) -> (t: String)
        requires
            old(self).wf(),
        ensures
            final(self).wf(),
            grows(old(self)@, final(self)@),
            same_data(old(self)@, final(self)@),
            forall|o: Seq<HostAnswer>| #![trigger with_replies(final(self)@, o)]
                knows(o, final(self)@.asked) ==> ask_text(with_replies(old(self)@, o), q@) == Some(
                    (t@, with_replies(final(self)@, o)),
                ),
    {
        let t = self.host.text_answer(&q);
        self.record_answer(&q, Ghost(HostAnswer::Text(t@)));
        t
    }

    /// The float a literal denotes, as the host parses it.
    fn host_parse_float(&mut self, text: &str) -> (x: u64)
        requires
            old(self).wf(),
        ensures
            final(self).wf(),
            grows(old(self)@, final(self)@),
            same_data(old(self)@, final(self)@),
            forall|o: Seq<HostAnswer>| #![trigger with_replies(final(self)@, o)]
                knows(o, final(self)@.asked) ==> ask_float(
                    with_replies(old(self)@, o),
                    HostCall::ParseFloat(text@),
                ) == Some((x, with_replies(final(self)@, o))),
    {
        self.ask_for_float(Question::ParseFloat(String::from_str(text)))
    }

    /// The host's float `a + b`, `a - b`, `a * b`, `a / b` or `a % b`
    /// (any operator other than the first four is `%`).
    fn host_arith(&mut self, op: BinOp, a: u64, b: u64) -> (x: u64)
        requires
            old(self).wf(),
        ensures
            final(self).wf(),
            grows(old(self)@, final(self)@),
            same_data(old(self)@, final(self)@),
            forall|o: Seq<HostAnswer>| #![trigger with_replies(final(self)@, o)]
                knows(o, final(self)@.asked) ==> ask_float(
                    with_replies(old(self)@, o),
                    arith_call(op, a, b),
                ) == Some((x, with_replies(final(self)@, o))),
    {
        let q = match op {
            BinOp::Add => Question::Add(a, b),
            BinOp::Sub => Question::Sub(a, b),
            BinOp::Mul => Question::Mul(a, b),
            BinOp::Div => Question::Div(a, b),
            _ => Question::Rem(a, b),
        };
        self.ask_for_float(q)
    }

    /// The host's float `a < b`, `a > b`, `a <= b` or `a >= b` (any
    /// operator other than the first three is `>=`).
    fn host_compare(&mut self, op: BinOp, a: u64, b: u64) -> (x: bool)
        requires
            old(self).wf(),
        ensures
            final(self).wf(),
            grows(old(self)@, final(self)@),
            same_data(old(self)@, final(self)@),
            forall|o: Seq<HostAnswer>| #![trigger with_replies(final(self)@, o)]
                knows(o, final(self)@.asked) ==> ask_bool(
                    with_replies(old(self)@, o),
                    compare_call(op, a, b),
                ) == Some((x, with_replies(final(self)@, o))),
    {
        let q = match op {
            BinOp::Lt => Question::Lt(a, b),
            BinOp::Gt => Question::Gt(a, b),
            BinOp::LtEq => Question::Le(a, b),
            _ => Question::Ge(a, b),
        };
        self.ask_for_bool(q)
    }

    /// A number as a float: a float itself, an integer as the host
    /// converts it.
    fn to_float(&mut self, v: &Value) -> (x: u64)
        requires
            old(self).wf(),
            v is Int || v is Float,
        ensures
            final(self).wf(),
            grows(old(self)@, final(self)@),
            same_data(old(self)@, final(self)@),
            forall|o: Seq<HostAnswer>| #![trigger with_replies(final(self)@, o)]
                knows(o, final(self)@.asked) ==> widen(with_replies(old(self)@, o), v@)
                    == Some((x, with_replies(final(self)@, o))),
    {
        match v {
            Value::Int(n) => self.ask_for_float(Question::IntToFloat(*n)),
            Value::Float(b) => *b,
            _ => 0,
        }
    }

    /// A float `+ - * / %` of two numbers at least one of which is a
    /// float: both as floats (the left first), then the host's result.
    fn float_arith(&mut self, op: BinOp, l: &Value, r: &Value) -> (x: u64)
        requires
            old(self).wf(),
            l is Int || l is Float,
            r is Int || r is Float,
        ensures
            final(self).wf(),
            grows(old(self)@, final(self)@),
            same_data(old(self)@, final(self)@),
            forall|o: Seq<HostAnswer>| #![trigger with_replies(final(self)@, o)]
                knows(o, final(self)@.asked) ==> float_arith_out(
                    with_replies(old(self)@, o),
                    op,
                    l@,
                    r@,
                ) == Out::Done(SValue::Float(x), with_replies(final(self)@, o)),
    {
        let a = self.to_float(l);
        let b = self.to_float(r);
        self.host_arith(op, a, b)
    }

    /// A float comparison of two numbers at least one of which is a float:
    /// both as floats (the left first), then the host's answer.
    fn float_compare(&mut self, op: BinOp, l: &Value, r: &Value) -> (x: bool)
        requires
            old(self).wf(),
            l is Int || l is Float,
            r is Int || r is Float,
        ensures
            final(self).wf(),
            grows(old(self)@, final(self)@),
            same_data(old(self)@, final(self)@),
            forall|o: Seq<HostAnswer>| #![trigger with_replies(final(self)@, o)]
                knows(o, final(self)@.asked) ==> float_compare_out(
                    with_replies(old(self)@, o),
                    op,
                    l@,
                    r@,
                ) == Out::Done(SValue::Bool(x), with_replies(final(self)@, o)),
    {
        let a = self.to_float(l);
        let b = self.to_float(r);
        self.host_compare(op, a, b)
    }

    /// `==` of two numbers at least one of which is a float: both as
    /// floats (the left first), then the host's answer.
    fn float_equal(&mut self, l: &Value, r: &Value) -> (x: bool)
        requires
            old(self).wf(),
            l is Int || l is Float,
            r is Int || r is Float,
        ensures
            final(self).wf(),
            grows(old(self)@, final(self)@),
            same_data(old(self)@, final(self)@),
            forall|o: Seq<HostAnswer>| #![trigger with_replies(final(self)@, o)]
                knows(o, final(self)@.asked) ==> float_equal(
                    with_replies(old(self)@, o),
                    l@,
                    r@,
                ) == Out::Done(x, with_replies(final(self)@, o)),
    {
        let a = self.to_float(l);
        let b = self.to_float(r);
        self.ask_for_bool(Question::Eq(a, b))
    }

    /// Stores a new array holding `items` and returns its handle.
    fn new_array(&mut self, items: Vec<Value>) -> (h: usize)
        ensures
            forall|o: Seq<HostAnswer>| #![trigger with_replies(final(self)@, o)]
                with_replies(old(self)@, o).asked == final(self)@.asked,
            final(self)@ == with_array(old(self)@, values_view(items@)),
            h == old(self)@.arrays.len(),
    {
        proof {
            self.lemma_views();
        }
        let h = self.arrays.len();
        let ghost iv = values_view(items@);
        self.arrays.push(items);
        proof {
            assert(arrays_view(self.arrays@) =~= old(self)@.arrays.push(iv));
            assert(self@ =~= with_array(old(self)@, iv));
        }
        h
    }

    /// Whether a value counts as true in a condition.
    fn truthy(&self, v: &Value) -> (r: bool)
        requires
            self.wf(),
            valid(self@, v@),
        ensures
            r == truthy(self@, v@),
    {
        proof {
            self.lemma_views();
        }
        match v {
            Value::Bool(b) => *b,
            Value::Int(n) => *n != 0,
            Value::Float(b) => !is_float_zero(*b),
            Value::Str(s) => !s.as_str().is_empty(),
            Value::Array(h) => self.arrays[*h].len() > 0,
            Value::Null => false,
            Value::Func(_) => true,
            Value::NativeFunc { .. } => true,
        }
    }
}

/// Whether a value is a number (an integer or a float).
fn is_number_value(v: &Value) -> (r: bool)
    ensures
        r == (v is Int || v is Float),
{
    match v {
        Value::Int(_) => true,
        Value::Float(_) => true,
        _ => false,
    }
}

/// Joins names with `sep` between consecutive names.
fn join_names(parts: &Vec<String>, sep: &str) -> (r: String)
    ensures
        r@ == join(names_view(parts@), sep@),
{
    let mut acc = String::new();
    let mut i: usize = 0;
    while i < parts.len()
        invariant
            i <= parts@.len(),
            acc@ == join(names_view(parts@).take(i as int), sep@),
        decreases parts@.len() - i,
    {
        let ghost prev = names_view(parts@).take(i as int);
        if i > 0 {
            acc.append(sep);
        }
        acc.append(parts[i].as_str());
        proof {
            let next = names_view(parts@).take(i + 1);
            assert(next.drop_last() =~= prev);
            if i == 0 {
                assert(acc@ =~= next[0]);
            }
        }
        i = i + 1;
    }
    assert(names_view(parts@).take(parts@.len() as int) =~= names_view(parts@));
    acc
}

/// The text `a` followed by `b`.
fn concat2(a: &str, b: &str) -> (r: String)
    ensures
        r@ == a@ + b@,
{
    let mut s = String::from_str(a);
    s.append(b);
    s
}

/// The text `a`, `b` and `c` one after another.
fn concat3(a: &str, b: &str, c: &str) -> (r: String)
    ensures
        r@ == a@ + b@ + c@,
{
    let mut s = String::from_str(a);
    s.append(b);
    s.append(c);
    s
}

/// A type error whose message names the types of two values.
fn two_types_error(prefix: &str, l: &Value, mid: &str, r: &Value) -> (e: RuntimeError)
    ensures
        e@ == (SRuntimeError::TypeError { msg: two_types(prefix@, l@, mid@, r@) }),
{
    let mut s = String::from_str(prefix);
    s.append(l.type_label());
    s.append(mid);
    s.append(r.type_label());
    RuntimeError::TypeError { msg: s }
}

impl<F: Host> Interpreter<F> {
    /// How `print` shows a value: an array as `[a, b]` with its string
    /// elements in double quotes, a function as `<func(params)>`, a float
    /// as the host formats it.
    pub fn display(&mut self, v: &Value) -> (r: String)
        requires
            old(self).wf(),
            valid(old(self)@, v@),
        ensures
            final(self).wf(),
            grows(old(self)@, final(self)@),
            same_data(old(self)@, final(self)@),
            forall|o: Seq<HostAnswer>| #![trigger with_replies(final(self)@, o)]
                knows(o, final(self)@.asked) ==> display(
                    with_replies(old(self)@, o),
                    v@,
                    depth_limit(),
                ) == Out::Done(r@, with_replies(final(self)@, o)),
    {
        self.display_to(v, 0xffff_ffff_ffff_ffffu64)
    }

    /// `display`, following nested arrays to `depth` levels.
    fn display_to(&mut self, v: &Value, depth: u64) -> (r: String)
        requires
            old(self).wf(),
            valid(old(self)@, v@),
        ensures
            final(self).wf(),
            grows(old(self)@, final(self)@),
            same_data(old(self)@, final(self)@),
            forall|o: Seq<HostAnswer>| #![trigger with_replies(final(self)@, o)]
                knows(o, final(self)@.asked) ==> display(
                    with_replies(old(self)@, o),
                    v@,
                    depth as nat,
                ) == Out::Done(r@, with_replies(final(self)@, o)),
        decreases depth,
    {
        proof {
            self.lemma_views();
        }
        match v {
            Value::Int(n) => i64_to_decimal(*n),
            Value::Float(b) => self.ask_for_text(Question::Format(*b)),
            Value::Str(s) => s.clone(),
            Value::Bool(b) => if *b {
                String::from_str("true")
            } else {
                String::from_str("false")
            },
            Value::Null => String::from_str("null"),
            Value::Array(h) => {
                let h = *h;
                if depth == 0 {
                    return String::from_str("[...]");
                }
                let d: u64 = depth - 1;
                let ghost m = self@;
                let ghost items = m.arrays[h as int];
                let ghost d1 = d as nat;
                let n = self.arrays[h].len();
                let mut acc = String::new();
                let mut i: usize = 0;
                while i < n
                    invariant
                        self.wf(),
                        m == old(self)@,
                        grows(m, self@),
                        same_data(m, self@),
                        v@ == SValue::Array(h),
                        h < self.arrays@.len(),
                        items == m.arrays[h as int],
                        n == items.len(),
                        0 < depth,
                        d1 == d as nat,
                        d == depth - 1,
                        i <= n,
                        forall|o: Seq<HostAnswer>| #![trigger with_replies(self@, o)]
                            knows(o, self@.asked) ==> display_items(
                                with_replies(m, o),
                                items,
                                0,
                                Seq::empty(),
                                d1,
                            ) == display_items(with_replies(self@, o), items, i as int, acc@, d1),
                    decreases n - i,
                {
                    proof {
                        self.lemma_views();
                        assert(value_ok(m.arrays[h as int][i as int], m.arrays.len(), m.funcs.len()));
                    }
                    let item = self.arrays[h][i].duplicate();
                    let ghost mi = self@;
                    let ghost acc0 = acc@;
                    let x = match &item {
                        Value::Str(s) => concat3("\"", s.as_str(), "\""),
                        _ => self.display_to(&item, d),
                    };
                    if i > 0 {
                        acc.append(", ");
                    }
                    acc.append(x.as_str());
                    proof {
                        assert(item@ == items[i as int]);
                        assert forall|o: Seq<HostAnswer>| #![trigger with_replies(self@, o)] knows(o, self@.asked) implies display_items(
                            with_replies(m, o),
                            items,
                            0,
                            Seq::empty(),
                            d1,
                        ) == display_items(with_replies(self@, o), items, i + 1, acc@, d1) by {
                            assert(knows(o, mi.asked));
                            assert(crate::semantics::item_text(with_replies(mi, o), items[i as int], d1)
                                == Out::Done(x@, with_replies(self@, o)));
                        }
                    }
                    i = i + 1;
                }
                let r = concat3("[", acc.as_str(), "]");
                proof {
                    assert forall|o: Seq<HostAnswer>| #![trigger with_replies(self@, o)] knows(o, self@.asked) implies display(
                        with_replies(m, o),
                        v@,
                        depth as nat,
                    ) == Out::Done(r@, with_replies(self@, o)) by {
                        assert(with_replies(m, o).arrays[h as int] == items);
                        assert(display_items(with_replies(self@, o), items, i as int, acc@, d1)
                            == Out::Done(acc@, with_replies(self@, o)));
                    }
                }
                r
            },
            Value::Func(f) => concat3("<func(", join_names(&self.funcs[*f].params, ", ").as_str(), ")>"),
            Value::NativeFunc { name, .. } => concat3("<native_func ", name.as_str(), ">"),
        }
    }

    /// The language's `==` on two values (numbers compare by value,
    /// arrays element by element).
    fn values_equal(&mut self, a: &Value, b: &Value, depth: u64) -> (r: bool)
        requires
            old(self).wf(),
            valid(old(self)@, a@),
            valid(old(self)@, b@),
        ensures
            final(self).wf(),
            grows(old(self)@, final(self)@),
            same_data(old(self)@, final(self)@),
            forall|o: Seq<HostAnswer>| #![trigger with_replies(final(self)@, o)]
                knows(o, final(self)@.asked) ==> crate::semantics::values_equal(
                    with_replies(old(self)@, o),
                    a@,
                    b@,
                    depth as nat,
                ) == Out::Done(r, with_replies(final(self)@, o)),
        decreases depth,
    {
        proof {
            self.lemma_views();
        }
        match (a, b) {
            (Value::Int(x), Value::Int(y)) => *x == *y,
            (Value::Float(_), Value::Float(_)) => self.float_equal(a, b),
            (Value::Int(_), Value::Float(_)) => self.float_equal(a, b),
            (Value::Float(_), Value::Int(_)) => self.float_equal(a, b),
            (Value::Str(x), Value::Str(y)) => *x == *y,
            (Value::Bool(x), Value::Bool(y)) => *x == *y,
            (Value::Null, Value::Null) => true,
            (Value::Array(x), Value::Array(y)) => {
                let x = *x;
                let y = *y;
                let n = self.arrays[x].len();
                if n != self.arrays[y].len() {
                    return false;
                }
                if depth == 0 {
                    return false;
                }
                let d: u64 = depth - 1;
                let ghost m = self@;
                let ghost xs = m.arrays[x as int];
                let ghost ys = m.arrays[y as int];
                let ghost d1 = d as nat;
                let mut i: usize = 0;
                while i < n
                    invariant
                        self.wf(),
                        m == old(self)@,
                        grows(m, self@),
                        same_data(m, self@),
                        x < self.arrays@.len(),
                        y < self.arrays@.len(),
                        xs == m.arrays[x as int],
                        ys == m.arrays[y as int],
                        n == xs.len(),
                        n == ys.len(),
                        a@ == SValue::Array(x),
                        b@ == SValue::Array(y),
                        0 < depth,
                        d1 == d as nat,
                        d == depth - 1,
                        i <= n,
                        forall|o: Seq<HostAnswer>| #![trigger with_replies(self@, o)]
                            knows(o, self@.asked) ==> crate::semantics::items_equal(
                                with_replies(m, o),
                                xs,
                                ys,
                                0,
                                d1,
                            ) == crate::semantics::items_equal(with_replies(self@, o), xs, ys, i as int, d1),
                    decreases n - i,
                {
                    proof {
                        self.lemma_views();
                        assert(value_ok(m.arrays[x as int][i as int], m.arrays.len(), m.funcs.len()));
                        assert(value_ok(m.arrays[y as int][i as int], m.arrays.len(), m.funcs.len()));
                    }
                    let ex = self.arrays[x][i].duplicate();
                    let ey = self.arrays[y][i].duplicate();
                    let ghost mi = self@;
                    proof {
                        assert(ex@ == xs[i as int]);
                        assert(ey@ == ys[i as int]);
                    }
                    let e = self.values_equal(&ex, &ey, d);
                    if !e {
                        proof {
                            assert forall|o: Seq<HostAnswer>| #![trigger with_replies(self@, o)] knows(o, self@.asked) implies crate::semantics::values_equal(
                                with_replies(m, o),
                                a@,
                                b@,
                                depth as nat,
                            ) == Out::Done(false, with_replies(self@, o)) by {
                                assert(knows(o, mi.asked));
                                assert(with_replies(m, o).arrays[x as int] == xs);
                                assert(with_replies(m, o).arrays[y as int] == ys);
                                assert(crate::semantics::items_equal(with_replies(m, o), xs, ys, 0, d1)
                                    == crate::semantics::items_equal(with_replies(mi, o), xs, ys, i as int, d1));
                            }
                        }
                        return false;
                    }
                    proof {
                        assert forall|o: Seq<HostAnswer>| #![trigger with_replies(self@, o)] knows(o, self@.asked) implies crate::semantics::items_equal(
                            with_replies(m, o),
                            xs,
                            ys,
                            0,
                            d1,
                        ) == crate::semantics::items_equal(with_replies(self@, o), xs, ys, i + 1, d1) by {
                            assert(knows(o, mi.asked));
                        }
                    }
                    i = i + 1;
                }
                proof {
                    assert forall|o: Seq<HostAnswer>| #![trigger with_replies(self@, o)] knows(o, self@.asked) implies crate::semantics::values_equal(
                        with_replies(m, o),
                        a@,
                        b@,
                        depth as nat,
                    ) == Out::Done(true, with_replies(self@, o)) by {
                        assert(with_replies(m, o).arrays[x as int] == xs);
                        assert(with_replies(m, o).arrays[y as int] == ys);
                        assert(crate::semantics::items_equal(with_replies(m, o), xs, ys, 0, d1)
                            == crate::semantics::items_equal(with_replies(self@, o), xs, ys, i as int, d1));
                    }
                }
                true
            },
            _ => false,
        }
    }
}

impl<F: Host> Interpreter<F> {
    /// `l + r`.
    fn binop_add(&mut self, l: Value, r: Value) -> (res: Result<Value, RuntimeError>)
        requires
            old(self).wf(),
            valid(old(self)@, l@),
            valid(old(self)@, r@),
        ensures
            final(self).wf(),
            grows(old(self)@, final(self)@),
            same_data(old(self)@, final(self)@),
            value_res_ok(final(self)@, res),
            forall|o: Seq<HostAnswer>| #![trigger with_replies(final(self)@, o)]
                knows(o, final(self)@.asked) ==> value_out(
                    s_add(with_replies(old(self)@, o), l@, r@),
                    res,
                    with_replies(final(self)@, o),
                ),
    {
        match (&l, &r) {
            (Value::Int(a), Value::Int(b)) => Ok(Value::Int(a.wrapping_add(*b))),
            (Value::Str(a), Value::Str(b)) => Ok(Value::Str(concat2(a.as_str(), b.as_str()))),
            (Value::Str(a), _) => {
                let t = self.display(&r);
                Ok(Value::Str(concat2(a.as_str(), t.as_str())))
            },
            (_, Value::Str(b)) => {
                let t = self.display(&l);
                Ok(Value::Str(concat2(t.as_str(), b.as_str())))
            },
            _ => {
                if is_number_value(&l) && is_number_value(&r) {
                    Ok(Value::Float(self.float_arith(BinOp::Add, &l, &r)))
                } else {
                    Err(two_types_error("cannot add ", &l, " and ", &r))
                }
            },
        }
    }

    /// `l - r` or `l * r`.
    fn binop_arith(&mut self, op: BinOp, l: Value, r: Value) -> (res: Result<Value, RuntimeError>)
        requires
            old(self).wf(),
            valid(old(self)@, l@),
            valid(old(self)@, r@),
            op == BinOp::Sub || op == BinOp::Mul,
        ensures
            final(self).wf(),
            grows(old(self)@, final(self)@),
            same_data(old(self)@, final(self)@),
            value_res_ok(final(self)@, res),
            forall|o: Seq<HostAnswer>| #![trigger with_replies(final(self)@, o)]
                knows(o, final(self)@.asked) ==> value_out(
                    s_arith(with_replies(old(self)@, o), op, l@, r@),
                    res,
                    with_replies(final(self)@, o),
                ),
    {
        let sub = op == BinOp::Sub;
        match (&l, &r) {
            (Value::Int(a), Value::Int(b)) => Ok(
                Value::Int(
                    if sub {
                        a.wrapping_sub(*b)
                    } else {
                        a.wrapping_mul(*b)
                    },
                ),
            ),
            _ => {
                if is_number_value(&l) && is_number_value(&r) {
                    Ok(Value::Float(self.float_arith(op, &l, &r)))
                } else {
                    Err(
                        two_types_error(
                            if sub {
                                "cannot subtract "
                            } else {
                                "cannot multiply "
                            },
                            &l,
                            " and ",
                            &r,
                        ),
                    )
                }
            },
        }
    }

    /// `l / r`.
    fn binop_div(&mut self, l: Value, r: Value) -> (res: Result<Value, RuntimeError>)
        requires
            old(self).wf(),
            valid(old(self)@, l@),
            valid(old(self)@, r@),
        ensures
            final(self).wf(),
            grows(old(self)@, final(self)@),
            same_data(old(self)@, final(self)@),
            value_res_ok(final(self)@, res),
            forall|o: Seq<HostAnswer>| #![trigger with_replies(final(self)@, o)]
                knows(o, final(self)@.asked) ==> value_out(
                    s_div(with_replies(old(self)@, o), l@, r@),
                    res,
                    with_replies(final(self)@, o),
                ),
    {
        match (&l, &r) {
            (Value::Int(a), Value::Int(b)) => {
                if *b == 0 {
                    Err(RuntimeError::DivisionByZero)
                } else {
                    Ok(Value::Int(int_quotient(*a, *b)))
                }
            },
            (Value::Float(_), Value::Float(b)) => {
                if is_float_zero(*b) {
                    Err(RuntimeError::DivisionByZero)
                } else {
                    Ok(Value::Float(self.float_arith(BinOp::Div, &l, &r)))
                }
            },
            (Value::Int(_), Value::Float(b)) => {
                if is_float_zero(*b) {
                    Err(RuntimeError::DivisionByZero)
                } else {
                    Ok(Value::Float(self.float_arith(BinOp::Div, &l, &r)))
                }
            },
            (Value::Float(_), Value::Int(b)) => {
                if *b == 0 {
                    Err(RuntimeError::DivisionByZero)
                } else {
                    Ok(Value::Float(self.float_arith(BinOp::Div, &l, &r)))
                }
            },
            _ => Err(two_types_error("cannot divide ", &l, " by ", &r)),
        }
    }

    /// `l % r`.
    fn binop_mod(&mut self, l: Value, r: Value) -> (res: Result<Value, RuntimeError>)
        requires
            old(self).wf(),
            valid(old(self)@, l@),
            valid(old(self)@, r@),
        ensures
            final(self).wf(),
            grows(old(self)@, final(self)@),
            same_data(old(self)@, final(self)@),
            value_res_ok(final(self)@, res),
            forall|o: Seq<HostAnswer>| #![trigger with_replies(final(self)@, o)]
                knows(o, final(self)@.asked) ==> value_out(
                    s_mod(with_replies(old(self)@, o), l@, r@),
                    res,
                    with_replies(final(self)@, o),
                ),
    {
        match (&l, &r) {
            (Value::Int(a), Value::Int(b)) => {
                if *b == 0 {
                    Err(RuntimeError::DivisionByZero)
                } else {
                    Ok(Value::Int(int_remainder(*a, *b)))
                }
            },
            _ => {
                if is_number_value(&l) && is_number_value(&r) {
                    Ok(Value::Float(self.float_arith(BinOp::Mod, &l, &r)))
                } else {
                    Err(two_types_error("cannot mod ", &l, " by ", &r))
                }
            },
        }
    }

    /// `l < r`, `l > r`, `l <= r` or `l >= r`.
    fn binop_compare(&mut self, op: BinOp, l: Value, r: Value) -> (res: Result<Value, RuntimeError>)
        requires
            old(self).wf(),
            valid(old(self)@, l@),
            valid(old(self)@, r@),
        ensures
            final(self).wf(),
            grows(old(self)@, final(self)@),
            same_data(old(self)@, final(self)@),
            value_res_ok(final(self)@, res),
            forall|o: Seq<HostAnswer>| #![trigger with_replies(final(self)@, o)]
                knows(o, final(self)@.asked) ==> value_out(
                    s_compare(with_replies(old(self)@, o), op, l@, r@),
                    res,
                    with_replies(final(self)@, o),
                ),
    {
        match (&l, &r) {
            (Value::Int(a), Value::Int(b)) => Ok(
                Value::Bool(
                    match op {
                        BinOp::Lt => *a < *b,
                        BinOp::Gt => *a > *b,
                        BinOp::LtEq => *a <= *b,
                        _ => *a >= *b,
                    },
                ),
            ),
            (Value::Str(a), Value::Str(b)) => {
                let x = chars_of(a.as_str());
                let y = chars_of(b.as_str());
                Ok(
                    Value::Bool(
                        match op {
                            BinOp::Lt => chars_less(&x, &y),
                            BinOp::Gt => chars_less(&y, &x),
                            BinOp::LtEq => !chars_less(&y, &x),
                            _ => !chars_less(&x, &y),
                        },
                    ),
                )
            },
            _ => {
                if is_number_value(&l) && is_number_value(&r) {
                    Ok(Value::Bool(self.float_compare(op, &l, &r)))
                } else {
                    Err(two_types_error("cannot compare ", &l, " and ", &r))
                }
            },
        }
    }

    /// A binary operator other than `&&` and `||` on evaluated operands.
    fn eval_binop(&mut self, op: BinOp, l: Value, r: Value) -> (res: Result<Value, RuntimeError>)
        requires
            old(self).wf(),
            valid(old(self)@, l@),
            valid(old(self)@, r@),
            op != BinOp::And,
            op != BinOp::Or,
        ensures
            final(self).wf(),
            grows(old(self)@, final(self)@),
            same_data(old(self)@, final(self)@),
            value_res_ok(final(self)@, res),
            forall|o: Seq<HostAnswer>| #![trigger with_replies(final(self)@, o)]
                knows(o, final(self)@.asked) ==> value_out(
                    s_binop(with_replies(old(self)@, o), op, l@, r@),
                    res,
                    with_replies(final(self)@, o),
                ),
    {
        match op {
            BinOp::Add => self.binop_add(l, r),
            BinOp::Sub => self.binop_arith(op, l, r),
            BinOp::Mul => self.binop_arith(op, l, r),
            BinOp::Div => self.binop_div(l, r),
            BinOp::Mod => self.binop_mod(l, r),
            BinOp::Eq => Ok(Value::Bool(self.values_equal(&l, &r, 0xffff_ffff_ffff_ffffu64))),
            BinOp::NotEq => Ok(Value::Bool(!self.values_equal(&l, &r, 0xffff_ffff_ffff_ffffu64))),
            _ => self.binop_compare(op, l, r),
        }
    }

    /// `target[index]`.
    fn eval_index(&self, target: Value, index: Value) -> (res: Result<Value, RuntimeError>)
        requires
            self.wf(),
            valid(self@, target@),
            valid(self@, index@),
        ensures
            forall|o: Seq<HostAnswer>| #![trigger with_replies(self@, o)]
                value_out(s_index(with_replies(self@, o), target@, index@), res, with_replies(self@, o)),
            value_res_ok(self@, res),
    {
        proof {
            self.lemma_views();
        }
        match (&target, &index) {
            (Value::Array(h), Value::Int(k)) => {
                let len = self.arrays[*h].len();
                let pos = position(*k, len);
                match pos {
                    Some(p) => {
                        proof {
                            assert(value_ok(self@.arrays[*h as int][p as int], self@.arrays.len(), self@.funcs.len()));
                        }
                        Ok(self.arrays[*h][p].clone())
                    },
                    None => {
                        let mut msg = String::from_str("index ");
                        if *k < 0 {
                            msg.append(i64_to_decimal(*k).as_str());
                            msg.append(" out of bounds");
                        } else {
                            msg.append(u64_to_decimal(*k as u64).as_str());
                            msg.append(" out of bounds for array of length ");
                            append_usize(&mut msg, len);
                        }
                        Err(RuntimeError::IndexError { msg })
                    },
                }
            },
            (Value::Str(s), Value::Int(k)) => {
                let chars = chars_of(s.as_str());
                match position(*k, chars.len()) {
                    Some(p) => Ok(Value::Str(char_to_string(chars[p]))),
                    None => {
                        let mut msg = String::from_str("index ");
                        msg.append(i64_to_decimal(*k).as_str());
                        msg.append(" out of bounds for string of length ");
                        append_usize(&mut msg, chars.len());
                        Err(RuntimeError::IndexError { msg })
                    },
                }
            },
            _ => Err(two_types_error("cannot index ", &target, " with ", &index)),
        }
    }

    /// `-v` or `!v`.
    fn eval_unary(&self, op: UnaryOp, v: Value) -> (res: Result<Value, RuntimeError>)
        requires
            self.wf(),
            valid(self@, v@),
        ensures
            forall|o: Seq<HostAnswer>| #![trigger with_replies(self@, o)]
                value_out(s_unary(with_replies(self@, o), op, v@), res, with_replies(self@, o)),
            value_res_ok(self@, res),
    {
        match op {
            UnaryOp::Neg => match v {
                Value::Int(n) => Ok(Value::Int(0i64.wrapping_sub(n))),
                Value::Float(b) => Ok(Value::Float(b ^ 0x8000_0000_0000_0000u64)),
                _ => Err(RuntimeError::TypeError { msg: concat2("cannot negate ", v.type_label()) }),
            },
            UnaryOp::Not => Ok(Value::Bool(!self.truthy(&v))),
        }
    }
}

/// The quotient of integers, rounded toward zero (`i64::MIN / -1` wraps
/// to `i64::MIN`).
fn int_quotient(a: i64, b: i64) -> (r: i64)
    requires
        b != 0,
    ensures
        r == int_div(a, b),
{
    match a.checked_div(b) {
        Some(q) => q,
        None => a,
    }
}

/// The remainder of integers (`i64::MIN % -1` is 0).
fn int_remainder(a: i64, b: i64) -> (r: i64)
    requires
        b != 0,
    ensures
        r == int_rem(a, b),
{
    match a.checked_rem(b) {
        Some(q) => q,
        None => 0,
    }
}

/// The position that index `k` names in a sequence of length `len`, a
/// negative index counting from the end.
fn position(k: i64, len: usize) -> (r: Option<usize>)
    ensures
        match r {
            Some(p) => p < len && (if k < 0 {
                p == len + k
            } else {
                p == k
            }),
            None => (if k < 0 {
                len + k < 0
            } else {
                k >= len
            }),
        },
{
    if k < 0 {
        let neg: u64 = (-(k + 1)) as u64 + 1;
        if neg > len as u64 {
            None
        } else {
            Some(len - neg as usize)
        }
    } else if k as u64 >= len as u64 {
        None
    } else {
        Some(k as usize)
    }
}

impl<F: Host> Interpreter<F> {
    /// Appends `v` to array `h`.
    fn array_push(&mut self, h: usize, v: Value)
        requires
            h < old(self)@.arrays.len(),
        ensures
            forall|o: Seq<HostAnswer>| #![trigger with_replies(final(self)@, o)]
                with_replies(old(self)@, o).asked == final(self)@.asked,
            final(self)@ == with_arrays(
                old(self)@,
                old(self)@.arrays.update(h as int, old(self)@.arrays[h as int].push(v@)),
            ),
    {
        proof {
            self.lemma_views();
        }
        let ghost old_arrays = self.arrays@;
        self.arrays[h].push(v);
        proof {
            assert(values_view(self.arrays@[h as int]@) =~= values_view(old_arrays[h as int]@).push(v@));
            assert(arrays_view(self.arrays@) =~= old(self)@.arrays.update(
                h as int,
                old(self)@.arrays[h as int].push(v@),
            ));
            assert(self@ =~= with_arrays(
                old(self)@,
                old(self)@.arrays.update(h as int, old(self)@.arrays[h as int].push(v@)),
            ));
        }
    }

    /// Removes and returns the last element of the non-empty array `h`.
    fn array_pop(&mut self, h: usize) -> (r: Value)
        requires
            h < old(self)@.arrays.len(),
            old(self)@.arrays[h as int].len() > 0,
        ensures
            forall|o: Seq<HostAnswer>| #![trigger with_replies(final(self)@, o)]
                with_replies(old(self)@, o).asked == final(self)@.asked,
            r@ == old(self)@.arrays[h as int].last(),
            final(self)@ == with_arrays(
                old(self)@,
                old(self)@.arrays.update(h as int, old(self)@.arrays[h as int].drop_last()),
            ),
    {
        proof {
            self.lemma_views();
        }
        let ghost old_arrays = self.arrays@;
        let r = self.arrays[h].pop().unwrap();
        proof {
            assert(values_view(self.arrays@[h as int]@) =~= values_view(old_arrays[h as int]@).drop_last());
            assert(arrays_view(self.arrays@) =~= old(self)@.arrays.update(
                h as int,
                old(self)@.arrays[h as int].drop_last(),
            ));
            assert(self@ =~= with_arrays(
                old(self)@,
                old(self)@.arrays.update(h as int, old(self)@.arrays[h as int].drop_last()),
            ));
        }
        r
    }

    /// Replaces element `i` of array `h` by `v`.
    fn array_set(&mut self, h: usize, i: usize, v: Value)
        requires
            h < old(self)@.arrays.len(),
            i < old(self)@.arrays[h as int].len(),
        ensures
            forall|o: Seq<HostAnswer>| #![trigger with_replies(final(self)@, o)]
                with_replies(old(self)@, o).asked == final(self)@.asked,
            final(self)@ == with_arrays(
                old(self)@,
                old(self)@.arrays.update(h as int, old(self)@.arrays[h as int].update(i as int, v@)),
            ),
    {
        proof {
            self.lemma_views();
        }
        let ghost old_arrays = self.arrays@;
        self.arrays[h].set(i, v);
        proof {
            assert(values_view(self.arrays@[h as int]@) =~= values_view(old_arrays[h as int]@).update(i as int, v@));
            assert(arrays_view(self.arrays@) =~= old(self)@.arrays.update(
                h as int,
                old(self)@.arrays[h as int].update(i as int, v@),
            ));
            assert(self@ =~= with_arrays(
                old(self)@,
                old(self)@.arrays.update(h as int, old(self)@.arrays[h as int].update(i as int, v@)),
            ));
        }
    }

    /// A built-in function applied to evaluated arguments.
    fn call_builtin(&mut self, b: Builtin, args: Vec<Value>) -> (res: Result<Value, RuntimeError>)
        requires
            old(self).wf(),
            forall|j: int| 0 <= j < args@.len() ==> valid(old(self)@, #[trigger] args@[j]@),
        ensures
            final(self).wf(),
            grows(old(self)@, final(self)@),
            value_res_ok(final(self)@, res),
            forall|o: Seq<HostAnswer>| #![trigger with_replies(final(self)@, o)]
                knows(o, final(self)@.asked) ==> value_out(
                    s_builtin(with_replies(old(self)@, o), b, values_view(args@)),
                    res,
                    with_replies(final(self)@, o),
                ),
    {
        let arity: usize = match b {
            Builtin::Push => 2,
            _ => 1,
        };
        if args.len() < arity {
            return Err(RuntimeError::ArgCountMismatch { expected: arity, got: args.len() });
        }
        proof {
            self.lemma_views();
            assert(valid(self@, args@[0]@));
        }
        let a = &args[0];
        match b {
            Builtin::Print => {
                let t = self.display(a);
                let ghost md = self@;
                self.write(t.as_str());
                proof {
                    assert forall|o: Seq<HostAnswer>| #![trigger with_replies(self@, o)] knows(o, self@.asked) implies s_builtin(
                        with_replies(old(self)@, o),
                        b,
                        values_view(args@),
                    ) == Out::Done(SValue::Null, with_replies(self@, o)) by {
                        assert(display(with_replies(old(self)@, o), args@[0]@, depth_limit())
                            == Out::Done(t@, with_replies(md, o)));
                    }
                }
                Ok(Value::Null)
            },
            Builtin::Println => {
                let mut t = self.display(a);
                let ghost t0 = t@;
                let ghost md = self@;
                push_char(&mut t, '\n');
                self.write(t.as_str());
                proof {
                    assert(md.output + t@ =~= md.output + t0 + seq!['\n']);
                    assert forall|o: Seq<HostAnswer>| #![trigger with_replies(self@, o)] knows(o, self@.asked) implies s_builtin(
                        with_replies(old(self)@, o),
                        b,
                        values_view(args@),
                    ) == Out::Done(SValue::Null, with_replies(self@, o)) by {
                        assert(display(with_replies(old(self)@, o), args@[0]@, depth_limit())
                            == Out::Done(t0, with_replies(md, o)));
                    }
                }
                Ok(Value::Null)
            },
            Builtin::Len => match a {
                Value::Str(s) => Ok(Value::Int(#[verifier::truncate] (chars_of(s.as_str()).len() as i64))),
                Value::Array(h) => Ok(Value::Int(#[verifier::truncate] (self.arrays[*h].len() as i64))),
                _ => Err(
                    RuntimeError::TypeError {
                        msg: concat2("len() does not support ", a.type_label()),
                    },
                ),
            },
            Builtin::Push => match a {
                Value::Array(h) => {
                    let h = *h;
                    proof {
                        assert(valid(self@, args@[1]@));
                        lemma_wf_set_array(
                            self@,
                            h as int,
                            self@.arrays[h as int].push(args@[1]@),
                        );
                    }
                    self.array_push(h, args[1].clone());
                    Ok(Value::Null)
                },
                _ => Err(
                    RuntimeError::TypeError { msg: String::from_str("push() expects an array and a value") },
                ),
            },
            Builtin::Pop => match a {
                Value::Array(h) => {
                    let h = *h;
                    if self.arrays[h].len() == 0 {
                        Err(RuntimeError::IndexError { msg: String::from_str("pop() on empty array") })
                    } else {
                        proof {
                            let items = self@.arrays[h as int];
                            assert(value_ok(items[items.len() - 1], self@.arrays.len(), self@.funcs.len()));
                            lemma_wf_set_array(self@, h as int, items.drop_last());
                        }
                        Ok(self.array_pop(h))
                    }
                },
                _ => Err(RuntimeError::TypeError { msg: String::from_str("pop() expects an array") }),
            },
            Builtin::Int => match a {
                Value::Int(n) => Ok(Value::Int(*n)),
                Value::Float(x) => Ok(Value::Int(self.ask_for_int(Question::FloatToInt(*x)))),
                Value::Str(s) => match parse_i64(&chars_of(s.as_str())) {
                    Some(n) => Ok(Value::Int(n)),
                    None => Err(RuntimeError::TypeError { msg: concat3("cannot convert '", s.as_str(), "' to int") }),
                },
                Value::Bool(x) => Ok(Value::Int(if *x { 1 } else { 0 })),
                _ => Err(RuntimeError::TypeError { msg: concat3("cannot convert ", a.type_label(), " to int") }),
            },
            Builtin::Str => Ok(Value::Str(self.display(a))),
            Builtin::Type => Ok(Value::Str(String::from_str(a.type_label()))),
        }
    }
}

// ─── Scopes, arrays and functions of the state ──────────────

impl<F: Host> Interpreter<F> {
    /// The value bound to `name` as seen from scope `env`.
    fn lookup_var(&self, env: Env, name: &String) -> (r: Option<Value>)
        requires
            self.wf(),
            env < self@.scopes.len(),
        ensures
            match lookup(self@.scopes, env as int, name@) {
                Some(v) => r matches Some(x) && x@ == v && valid(self@, v),
                None => r is None,
            },
    {
        proof {
            self.lemma_views();
            lemma_lookup_ok(self@.scopes, env as int, name@, self@.arrays.len(), self@.funcs.len());
        }
        self.env.get(env, name)
    }

    /// Binds `name` to `v` in scope `env`.
    fn define_var(&mut self, env: Env, name: String, v: Value, constant: bool)
        requires
            old(self).wf(),
            env < old(self)@.scopes.len(),
            valid(old(self)@, v@),
        ensures
            forall|o: Seq<HostAnswer>| #![trigger with_replies(final(self)@, o)]
                with_replies(old(self)@, o).asked == final(self)@.asked,
            final(self).wf(),
            grows(old(self)@, final(self)@),
            final(self)@ == with_scopes(
                old(self)@,
                if constant {
                    define_const_spec(old(self)@.scopes, env as int, name@, v@)
                } else {
                    define_spec(old(self)@.scopes, env as int, name@, v@)
                },
            ),
    {
        proof {
            self.lemma_views();
            lemma_define_ok(self@.scopes, env as int, name@, v@, self@.arrays.len(), self@.funcs.len());
        }
        let ghost sc = if constant {
            define_const_spec(self@.scopes, env as int, name@, v@)
        } else {
            define_spec(self@.scopes, env as int, name@, v@)
        };
        if constant {
            self.env.define_const(env, name, v);
        } else {
            self.env.define(env, name, v);
        }
        proof {
            lemma_wf_scopes(old(self)@, sc);
            assert(self@ =~= with_scopes(old(self)@, sc));
        }
    }

    /// Assigns `v` to the existing variable `name` seen from scope `env`.
    fn assign_var(&mut self, env: Env, name: &String, v: Value) -> (r: Result<(), RuntimeError>)
        requires
            old(self).wf(),
            env < old(self)@.scopes.len(),
            valid(old(self)@, v@),
        ensures
            forall|o: Seq<HostAnswer>| #![trigger with_replies(final(self)@, o)]
                with_replies(old(self)@, o).asked == final(self)@.asked,
            final(self).wf(),
            grows(old(self)@, final(self)@),
            match assign_spec(old(self)@.scopes, env as int, name@, v@) {
                Ok(sc) => r is Ok && final(self)@ == with_scopes(old(self)@, sc),
                Err(e) => r matches Err(x) && x@ == e && final(self)@ == old(self)@,
            },
    {
        proof {
            self.lemma_views();
            lemma_assign_ok(self@.scopes, env as int, name@, v@, self@.arrays.len(), self@.funcs.len());
        }
        let r = self.env.assign(env, name, v);
        proof {
            match assign_spec(old(self)@.scopes, env as int, name@, v@) {
                Ok(sc) => {
                    lemma_wf_scopes(old(self)@, sc);
                    assert(self@ =~= with_scopes(old(self)@, sc));
                },
                Err(_) => {
                    assert(self@ =~= old(self)@);
                },
            }
        }
        r
    }

    /// Adds an empty child scope of `parent` and returns its handle.
    fn new_scope(&mut self, parent: Env) -> (c: Env)
        requires
            old(self).wf(),
            parent < old(self)@.scopes.len(),
        ensures
            forall|o: Seq<HostAnswer>| #![trigger with_replies(final(self)@, o)]
                with_replies(old(self)@, o).asked == final(self)@.asked,
            final(self).wf(),
            grows(old(self)@, final(self)@),
            c == old(self)@.scopes.len(),
            final(self)@ == with_scopes(old(self)@, child_spec(old(self)@.scopes, parent)),
    {
        proof {
            self.lemma_views();
            lemma_child_ok(self@.scopes, parent, self@.arrays.len(), self@.funcs.len());
        }
        let c = self.env.child(parent);
        proof {
            lemma_wf_scopes(old(self)@, child_spec(old(self)@.scopes, parent));
            assert(self@ =~= with_scopes(old(self)@, child_spec(old(self)@.scopes, parent)));
        }
        c
    }

    /// Stores a new function and returns its handle.
    fn add_func(&mut self, params: Vec<String>, body: Vec<Stmt>, closure: Env) -> (fi: usize)
        requires
            old(self).wf(),
            closure < old(self)@.scopes.len(),
        ensures
            forall|o: Seq<HostAnswer>| #![trigger with_replies(final(self)@, o)]
                with_replies(old(self)@, o).asked == final(self)@.asked,
            final(self).wf(),
            grows(old(self)@, final(self)@),
            fi == old(self)@.funcs.len(),
            final(self)@ == with_funcs(
                old(self)@,
                old(self)@.funcs.push(
                    (SFunc { params: names_view(params@), body: stmts_view(body@), closure }),
                ),
            ),
    {
        let ghost sf = SFunc { params: names_view(params@), body: stmts_view(body@), closure };
        proof {
            self.lemma_views();
            lemma_wf_new_func(self@, sf);
        }
        let fi = self.funcs.len();
        self.funcs.push(FuncDef { params, body, closure });
        proof {
            assert(funcs_view(self.funcs@) =~= old(self)@.funcs.push(sf));
            assert(self@ =~= with_funcs(old(self)@, old(self)@.funcs.push(sf)));
        }
        fi
    }

    /// A copy of the elements of array `h`.
    fn array_items(&self, h: usize) -> (r: Vec<Value>)
        requires
            self.wf(),
            h < self@.arrays.len(),
        ensures
            values_view(r@) == self@.arrays[h as int],
    {
        proof {
            self.lemma_views();
        }
        let n = self.arrays[h].len();
        let mut r: Vec<Value> = Vec::new();
        let mut i: usize = 0;
        while i < n
            invariant
                h < self.arrays@.len(),
                n == self.arrays@[h as int]@.len(),
                i <= n,
                values_view(r@) == values_view(self.arrays@[h as int]@).take(i as int),
            decreases n - i,
        {
            let v = self.arrays[h][i].duplicate();
            let ghost r0 = r@;
            r.push(v);
            proof {
                assert(r@ == r0.push(v));
                assert(values_view(r@) =~= values_view(r0).push(v@));
                assert(values_view(self.arrays@[h as int]@).take(i + 1) =~= values_view(
                    self.arrays@[h as int]@,
                ).take(i as int).push(v@));
            }
            i = i + 1;
        }
        proof {
            assert(values_view(self.arrays@[h as int]@).take(n as int) =~= values_view(self.arrays@[h as int]@));
        }
        r
    }
}

/// The characters of a string, each as a one-character string value.
fn char_items(s: &String) -> (r: Vec<Value>)
    ensures
        values_view(r@) == char_values(s@),
{
    let chars = chars_of(s.as_str());
    let mut r: Vec<Value> = Vec::new();
    let mut i: usize = 0;
    while i < chars.len()
        invariant
            chars@ == s@,
            i <= chars@.len(),
            values_view(r@) == char_values(s@).take(i as int),
        decreases chars@.len() - i,
    {
        let v = Value::Str(char_to_string(chars[i]));
        let ghost r0 = r@;
        r.push(v);
        proof {
            assert(values_view(r@) =~= values_view(r0).push(v@));
            assert(char_values(s@).take(i + 1) =~= char_values(s@).take(i as int).push(v@));
        }
        i = i + 1;
    }
    proof {
        assert(char_values(s@).take(chars@.len() as int) =~= char_values(s@));
    }
    r
}

// ─── Evaluation ──────────────────────────────────────────────

impl<F: Host> Interpreter<F> {
    /// Evaluates `e` in scope `env` with `fuel` steps.
    #[verifier::rlimit(60)]
    fn eval_in(&mut self, e: &Expr, env: Env, fuel: u64) -> (r: Result<Value, RuntimeError>)
        requires
            old(self).wf(),
            env < old(self)@.scopes.len(),
        ensures
            final(self).wf(),
            grows(old(self)@, final(self)@),
            value_res_ok(final(self)@, r),
            forall|o: Seq<HostAnswer>| #![trigger with_replies(final(self)@, o)]
                knows(o, final(self)@.asked) ==> value_out(
                    s_eval(with_replies(old(self)@, o), e@, env, fuel as nat),
                    r,
                    with_replies(final(self)@, o),
                ),
        decreases fuel, 1int,
    {
        broadcast use crate::ast::group_ast_view_lemmas;

        if fuel == 0 {
            return Err(RuntimeError::StepLimitExceeded);
        }
        let f = fuel - 1;
        match e {
            Expr::Int(n) => Ok(Value::Int(*n)),
            Expr::Float(t) => Ok(Value::Float(self.host_parse_float(t.as_str()))),
            Expr::Str(s) => Ok(Value::Str(s.clone())),
            Expr::Bool(b) => Ok(Value::Bool(*b)),
            Expr::Null => Ok(Value::Null),
            Expr::Ident(name) => match self.lookup_var(env, name) {
                Some(v) => Ok(v),
                None => Err(RuntimeError::UndefinedVar(name.clone())),
            },
            Expr::Array(elems) => match self.eval_list(elems, env, f) {
                Ok(vals) => {
                    proof {
                        lemma_wf_new_array(self@, values_view(vals@));
                    }
                    let h = self.new_array(vals);
                    Ok(Value::Array(h))
                },
                Err(x) => Err(x),
            },
            Expr::Index { target, index } => {
                let t = match self.eval_in(target, env, f) {
                    Ok(v) => v,
                    Err(x) => return Err(x),
                };
                let i = match self.eval_in(index, env, f) {
                    Ok(v) => v,
                    Err(x) => return Err(x),
                };
                self.eval_index(t, i)
            },
            Expr::BinOp { .. } => self.eval_binary(e, env, fuel),
            Expr::UnaryOp { op, operand } => {
                let v = match self.eval_in(operand, env, f) {
                    Ok(v) => v,
                    Err(x) => return Err(x),
                };
                self.eval_unary(*op, v)
            },
            Expr::Call { callee, args } => {
                let func = match self.eval_in(callee, env, f) {
                    Ok(v) => v,
                    Err(x) => return Err(x),
                };
                let vals = match self.eval_list(args, env, f) {
                    Ok(v) => v,
                    Err(x) => return Err(x),
                };
                self.call_function(func, vals, f)
            },
            Expr::Assign { target, value } => {
                let v = match self.eval_in(value, env, f) {
                    Ok(x) => x,
                    Err(x) => return Err(x),
                };
                let result = v.duplicate();
                match self.assign_target(target, v, env, f) {
                    Ok(()) => Ok(result),
                    Err(x) => Err(x),
                }
            },
        }
    }

    /// Evaluates a binary operation `left op right`; `&&` and `||`
    /// short-circuit.
    fn eval_binary(&mut self, e: &Expr, env: Env, fuel: u64) -> (r: Result<Value, RuntimeError>)
        requires
            old(self).wf(),
            env < old(self)@.scopes.len(),
            e is BinOp,
        ensures
            final(self).wf(),
            grows(old(self)@, final(self)@),
            value_res_ok(final(self)@, r),
            forall|o: Seq<HostAnswer>| #![trigger with_replies(final(self)@, o)]
                knows(o, final(self)@.asked) ==> value_out(
                    s_eval(with_replies(old(self)@, o), e@, env, fuel as nat),
                    r,
                    with_replies(final(self)@, o),
                ),
        decreases fuel, 0int,
    {
        if fuel == 0 {
            return Err(RuntimeError::StepLimitExceeded);
        }
        let f = fuel - 1;
        match e {
            Expr::BinOp { op, left, right } => {
                let op = *op;
                let l = match self.eval_in(left, env, f) {
                    Ok(v) => v,
                    Err(x) => return Err(x),
                };
                if op == BinOp::And && !self.truthy(&l) {
                    return Ok(Value::Bool(false));
                }
                if op == BinOp::Or && self.truthy(&l) {
                    return Ok(Value::Bool(true));
                }
                let r = match self.eval_in(right, env, f) {
                    Ok(v) => v,
                    Err(x) => return Err(x),
                };
                if op == BinOp::And || op == BinOp::Or {
                    Ok(Value::Bool(self.truthy(&r)))
                } else {
                    self.eval_binop(op, l, r)
                }
            },
            _ => Err(RuntimeError::StepLimitExceeded),
        }
    }

    /// Evaluates `es` left to right.
    fn eval_list(&mut self, es: &Vec<Expr>, env: Env, fuel: u64) -> (r: Result<Vec<Value>, RuntimeError>)
        requires
            old(self).wf(),
            env < old(self)@.scopes.len(),
        ensures
            final(self).wf(),
            grows(old(self)@, final(self)@),
            r matches Ok(vs) ==> forall|j: int|
                0 <= j < vs@.len() ==> valid(final(self)@, #[trigger] vs@[j]@),
            forall|o: Seq<HostAnswer>| #![trigger with_replies(final(self)@, o)]
                knows(o, final(self)@.asked) ==> values_out(
                    s_eval_list(with_replies(old(self)@, o), exprs_view(es@), 0, Seq::empty(), env, fuel as nat),
                    r,
                    with_replies(final(self)@, o),
                ),
        decreases fuel, 2int,
    {
        broadcast use crate::ast::group_ast_view_lemmas;

        let ghost m0 = self@;
        let ghost ev = exprs_view(es@);
        let mut vals: Vec<Value> = Vec::new();
        let mut i: usize = 0;
        proof {
            assert(values_view(vals@) =~= Seq::<SValue>::empty());
        }
        while i < es.len()
            invariant
                self.wf(),
                m0 == old(self)@,
                grows(m0, self@),
                env < self@.scopes.len(),
                ev == exprs_view(es@),
                ev.len() == es@.len(),
                i <= es@.len(),
                forall|j: int| 0 <= j < vals@.len() ==> valid(self@, #[trigger] vals@[j]@),
                forall|o: Seq<HostAnswer>| #![trigger with_replies(self@, o)]
                    knows(o, self@.asked) ==> s_eval_list(with_replies(m0, o), ev, 0, Seq::empty(), env, fuel as nat)
                        == s_eval_list(with_replies(self@, o), ev, i as int, values_view(vals@), env, fuel as nat),
            decreases es@.len() - i,
        {
            let ghost mi = self@;
            let ghost vi = vals@;
            proof {
                lemma_exprs_view_index(es@);
                assert(ev[i as int] == es@[i as int]@);
            }
            let r = self.eval_in(&es[i], env, fuel);
            match r {
                Ok(v) => {
                    proof {
                        assert(values_view(vi.push(v)) =~= values_view(vi).push(v@));
                        assert forall|o: Seq<HostAnswer>| #![trigger with_replies(self@, o)] knows(o, self@.asked) implies s_eval_list(
                            with_replies(m0, o),
                            ev,
                            0,
                            Seq::empty(),
                            env,
                            fuel as nat,
                        ) == s_eval_list(with_replies(self@, o), ev, i + 1, values_view(vi.push(v)), env, fuel as nat) by {
                            assert(knows(o, mi.asked));
                            assert(s_eval(with_replies(mi, o), ev[i as int], env, fuel as nat) == Out::Done(
                                v@,
                                with_replies(self@, o),
                            ));
                        }
                    }
                    vals.push(v);
                },
                Err(x) => {
                    proof {
                        assert forall|o: Seq<HostAnswer>| #![trigger with_replies(self@, o)] knows(o, self@.asked) implies s_eval_list(
                            with_replies(m0, o),
                            ev,
                            0,
                            Seq::empty(),
                            env,
                            fuel as nat,
                        ) == Out::<Seq<SValue>>::Failed(x@, with_replies(self@, o)) by {
                            assert(knows(o, mi.asked));
                            assert(s_eval(with_replies(mi, o), ev[i as int], env, fuel as nat) == Out::<SValue>::Failed(
                                x@,
                                with_replies(self@, o),
                            ));
                        }
                    }
                    return Err(x);
                },
            }
            i = i + 1;
        }
        Ok(vals)
    }

    /// Calls a function value with evaluated arguments.
    fn call_function(&mut self, func: Value, args: Vec<Value>, fuel: u64) -> (r: Result<Value, RuntimeError>)
        requires
            old(self).wf(),
            valid(old(self)@, func@),
            forall|j: int| 0 <= j < args@.len() ==> valid(old(self)@, #[trigger] args@[j]@),
        ensures
            final(self).wf(),
            grows(old(self)@, final(self)@),
            value_res_ok(final(self)@, r),
            forall|o: Seq<HostAnswer>| #![trigger with_replies(final(self)@, o)]
                knows(o, final(self)@.asked) ==> value_out(
                    s_call(with_replies(old(self)@, o), func@, values_view(args@), fuel as nat),
                    r,
                    with_replies(final(self)@, o),
                ),
        decreases fuel, 0int,
    {
        if fuel == 0 {
            return Err(RuntimeError::StepLimitExceeded);
        }
        proof {
            self.lemma_views();
        }
        match func {
            Value::Func(fi) => {
                let np = self.funcs[fi].params.len();
                if np != args.len() {
                    return Err(RuntimeError::ArgCountMismatch { expected: np, got: args.len() });
                }
                let params = copy_names(&self.funcs[fi].params);
                let body = copy_stmts(&self.funcs[fi].body);
                let closure = self.funcs[fi].closure;
                let ghost m = self@;
                let ghost def = m.funcs[fi as int];
                let ghost av = values_view(args@);
                proof {
                    assert(def.closure < m.scopes.len());
                }
                let c = self.new_scope(closure);
                let ghost mut vars: Seq<(Seq<char>, SValue)> = Seq::empty();
                let mut i: usize = 0;
                while i < np
                    invariant
                        self.wf(),
                        grows(m, self@),
                        c == m.scopes.len(),
                        closure == def.closure,
                        np == args@.len(),
                        np == params@.len(),
                        names_view(params@) == def.params,
                        av == values_view(args@),
                        i <= np,
                        forall|j: int| 0 <= j < args@.len() ==> valid(m, #[trigger] args@[j]@),
                        self@ == with_scopes(
                            m,
                            m.scopes.push(
                                (SScope { vars, consts: Seq::empty(), parent: Some(closure) }),
                            ),
                        ),
                        bind_params(Seq::empty(), def.params, av, 0) == bind_params(
                            vars,
                            def.params,
                            av,
                            i as int,
                        ),
                    decreases np - i,
                {
                    let ghost sc = self@.scopes;
                    proof {
                        assert(valid(self@, args@[i as int]@));
                    }
                    self.define_var(c, params[i].clone(), args[i].duplicate(), false);
                    proof {
                        let nv = crate::environment::bind(vars, def.params[i as int], av[i as int]);
                        assert(define_spec(sc, c as int, def.params[i as int], av[i as int])
                            =~= m.scopes.push(
                            SScope { vars: nv, consts: Seq::empty(), parent: Some(closure) },
                        ));
                        vars = nv;
                    }
                    i = i + 1;
                }
                match self.run_block(&body, c, fuel - 1) {
                    Ok(Flow::Return(v)) => Ok(v),
                    Ok(Flow::Normal) => Ok(Value::Null),
                    Ok(Flow::Break) => Err(RuntimeError::InvalidBreak),
                    Ok(Flow::Continue) => Err(RuntimeError::InvalidContinue),
                    Err(x) => Err(x),
                }
            },
            Value::NativeFunc { arity, func: b, .. } => match arity {
                Some(n) => {
                    if args.len() != n {
                        Err(RuntimeError::ArgCountMismatch { expected: n, got: args.len() })
                    } else {
                        self.call_builtin(b, args)
                    }
                },
                None => self.call_builtin(b, args),
            },
            _ => Err(RuntimeError::NotCallable),
        }
    }

    /// Assigns `v` to an assignment target.
    #[verifier::rlimit(60)]
    fn assign_target(&mut self, target: &Expr, v: Value, env: Env, fuel: u64) -> (r: Result<(), RuntimeError>)
        requires
            old(self).wf(),
            env < old(self)@.scopes.len(),
            valid(old(self)@, v@),
        ensures
            final(self).wf(),
            grows(old(self)@, final(self)@),
            forall|o: Seq<HostAnswer>| #![trigger with_replies(final(self)@, o)]
                knows(o, final(self)@.asked) ==> unit_out(
                    s_assign_target(with_replies(old(self)@, o), target@, v@, env, fuel as nat),
                    r,
                    with_replies(final(self)@, o),
                ),
        decreases fuel, 0int,
    {
        if fuel == 0 {
            return Err(RuntimeError::StepLimitExceeded);
        }
        let f = fuel - 1;
        match target {
            Expr::Ident(name) => self.assign_var(env, name, v),
            Expr::Index { target: t, index: i } => {
                let tv = match self.eval_in(t, env, f) {
                    Ok(x) => x,
                    Err(x) => return Err(x),
                };
                let iv = match self.eval_in(i, env, f) {
                    Ok(x) => x,
                    Err(x) => return Err(x),
                };
                match (&tv, &iv) {
                    (Value::Array(h), Value::Int(k)) => {
                        let h = *h;
                        let idx = *k as usize;
                        let len = self.arrays[h].len();
                        if idx >= len {
                            let mut msg = String::from_str("index ");
                            append_usize(&mut msg, idx);
                            msg.append(" out of bounds for array of length ");
                            append_usize(&mut msg, len);
                            return Err(RuntimeError::IndexError { msg });
                        }
                        proof {
                            self.lemma_views();
                            lemma_wf_set_array(
                                self@,
                                h as int,
                                self@.arrays[h as int].update(idx as int, v@),
                            );
                        }
                        self.array_set(h, idx, v);
                        Ok(())
                    },
                    _ => Err(two_types_error("cannot index-assign on ", &tv, " with ", &iv)),
                }
            },
            _ => Err(RuntimeError::TypeError { msg: String::from_str("invalid assignment target") }),
        }
    }
}

// ─── Execution ───────────────────────────────────────────────

impl<F: Host> Interpreter<F> {
    /// Runs `st` in scope `env` with `fuel` steps.
    fn exec_in(&mut self, st: &Stmt, env: Env, fuel: u64) -> (r: Result<Flow, RuntimeError>)
        requires
            old(self).wf(),
            env < old(self)@.scopes.len(),
        ensures
            final(self).wf(),
            grows(old(self)@, final(self)@),
            flow_res_ok(final(self)@, r),
            forall|o: Seq<HostAnswer>| #![trigger with_replies(final(self)@, o)]
                knows(o, final(self)@.asked) ==> flow_out(
                    s_exec(with_replies(old(self)@, o), st@, env, fuel as nat),
                    r,
                    with_replies(final(self)@, o),
                ),
        decreases fuel, 1int,
    {
        if fuel == 0 {
            return Err(RuntimeError::StepLimitExceeded);
        }
        let f = fuel - 1;
        match st {
            Stmt::Let { name, value } => {
                let v = match self.eval_in(value, env, f) {
                    Ok(x) => x,
                    Err(x) => return Err(x),
                };
                self.define_var(env, name.clone(), v, false);
                Ok(Flow::Normal)
            },
            Stmt::Const { name, value } => {
                let v = match self.eval_in(value, env, f) {
                    Ok(x) => x,
                    Err(x) => return Err(x),
                };
                self.define_var(env, name.clone(), v, true);
                Ok(Flow::Normal)
            },
            Stmt::Assign { target, value } => {
                let v = match self.eval_in(value, env, f) {
                    Ok(x) => x,
                    Err(x) => return Err(x),
                };
                match self.assign_target(target, v, env, f) {
                    Ok(()) => Ok(Flow::Normal),
                    Err(x) => Err(x),
                }
            },
            Stmt::ExprStmt(e) => match self.eval_in(e, env, f) {
                Ok(_) => Ok(Flow::Normal),
                Err(x) => Err(x),
            },
            Stmt::If { .. } => self.exec_if(st, env, fuel),
            Stmt::While { cond, body } => self.exec_while(cond, body, env, f),
            Stmt::For { .. } => self.exec_for_stmt(st, env, fuel),
            Stmt::Fn { name, params, body } => {
                let fi = self.add_func(copy_names(params), copy_stmts(body), env);
                self.define_var(env, name.clone(), Value::Func(fi), false);
                Ok(Flow::Normal)
            },
            Stmt::Return(e) => match e {
                Some(x) => match self.eval_in(x, env, f) {
                    Ok(v) => Ok(Flow::Return(v)),
                    Err(y) => Err(y),
                },
                None => Ok(Flow::Return(Value::Null)),
            },
            Stmt::Break => Ok(Flow::Break),
            Stmt::Continue => Ok(Flow::Continue),
        }
    }

    /// Runs an `if` statement.
    fn exec_if(&mut self, st: &Stmt, env: Env, fuel: u64) -> (r: Result<Flow, RuntimeError>)
        requires
            old(self).wf(),
            env < old(self)@.scopes.len(),
            st is If,
        ensures
            final(self).wf(),
            grows(old(self)@, final(self)@),
            flow_res_ok(final(self)@, r),
            forall|o: Seq<HostAnswer>| #![trigger with_replies(final(self)@, o)]
                knows(o, final(self)@.asked) ==> flow_out(
                    s_exec(with_replies(old(self)@, o), st@, env, fuel as nat),
                    r,
                    with_replies(final(self)@, o),
                ),
        decreases fuel, 0int,
    {
        if fuel == 0 {
            return Err(RuntimeError::StepLimitExceeded);
        }
        let f = fuel - 1;
        match st {
            Stmt::If { cond, then_branch, else_branch } => {
                let c = match self.eval_in(cond, env, f) {
                    Ok(x) => x,
                    Err(x) => return Err(x),
                };
                if self.truthy(&c) {
                    self.run_block(then_branch, env, f)
                } else {
                    match else_branch {
                        Some(b) => self.run_block(b, env, f),
                        None => Ok(Flow::Normal),
                    }
                }
            },
            _ => Err(RuntimeError::StepLimitExceeded),
        }
    }

    /// Runs a `for` statement.
    fn exec_for_stmt(&mut self, st: &Stmt, env: Env, fuel: u64) -> (r: Result<Flow, RuntimeError>)
        requires
            old(self).wf(),
            env < old(self)@.scopes.len(),
            st is For,
        ensures
            final(self).wf(),
            grows(old(self)@, final(self)@),
            flow_res_ok(final(self)@, r),
            forall|o: Seq<HostAnswer>| #![trigger with_replies(final(self)@, o)]
                knows(o, final(self)@.asked) ==> flow_out(
                    s_exec(with_replies(old(self)@, o), st@, env, fuel as nat),
                    r,
                    with_replies(final(self)@, o),
                ),
        decreases fuel, 0int,
    {
        if fuel == 0 {
            return Err(RuntimeError::StepLimitExceeded);
        }
        let f = fuel - 1;
        match st {
            Stmt::For { var, iterable, body } => {
                let it = match self.eval_in(iterable, env, f) {
                    Ok(x) => x,
                    Err(x) => return Err(x),
                };
                match it {
                    Value::Array(h) => {
                        let items = self.array_items(h);
                        proof {
                            self.lemma_views();
                            assert forall|j: int| 0 <= j < items@.len() implies valid(
                                self@,
                                #[trigger] items@[j]@,
                            ) by {
                                assert(items@[j]@ == values_view(items@)[j]);
                                assert(value_ok(self@.arrays[h as int][j], self@.arrays.len(), self@.funcs.len()));
                            }
                        }
                        self.exec_for(var, items, body, env, f)
                    },
                    Value::Str(s) => {
                        let items = char_items(&s);
                        proof {
                            assert forall|j: int| 0 <= j < items@.len() implies valid(
                                self@,
                                #[trigger] items@[j]@,
                            ) by {
                                assert(items@[j]@ == values_view(items@)[j]);
                                assert(values_view(items@).len() == items@.len());
                                assert(values_view(items@)[j] == char_values(s@)[j]);
                                assert(char_values(s@)[j] is Str);
                            }
                        }
                        self.exec_for(var, items, body, env, f)
                    },
                    _ => Err(RuntimeError::NotIterable),
                }
            },
            _ => Err(RuntimeError::StepLimitExceeded),
        }
    }

    /// Runs `ss` in scope `env`, stopping at the first statement that does
    /// not finish normally.
    fn run_block(&mut self, ss: &Vec<Stmt>, env: Env, fuel: u64) -> (r: Result<Flow, RuntimeError>)
        requires
            old(self).wf(),
            env < old(self)@.scopes.len(),
        ensures
            final(self).wf(),
            grows(old(self)@, final(self)@),
            flow_res_ok(final(self)@, r),
            forall|o: Seq<HostAnswer>| #![trigger with_replies(final(self)@, o)]
                knows(o, final(self)@.asked) ==> flow_out(
                    s_block(with_replies(old(self)@, o), stmts_view(ss@), 0, env, fuel as nat),
                    r,
                    with_replies(final(self)@, o),
                ),
        decreases fuel, 2int,
    {
        broadcast use crate::ast::group_ast_view_lemmas;

        let ghost m0 = self@;
        let ghost sv = stmts_view(ss@);
        let mut i: usize = 0;
        while i < ss.len()
            invariant
                self.wf(),
                m0 == old(self)@,
                grows(m0, self@),
                env < self@.scopes.len(),
                sv == stmts_view(ss@),
                sv.len() == ss@.len(),
                i <= ss@.len(),
                forall|o: Seq<HostAnswer>| #![trigger with_replies(self@, o)]
                    knows(o, self@.asked) ==> s_block(with_replies(m0, o), sv, 0, env, fuel as nat)
                        == s_block(with_replies(self@, o), sv, i as int, env, fuel as nat),
            decreases ss@.len() - i,
        {
            let ghost mi = self@;
            proof {
                lemma_stmts_view_index(ss@);
                assert(sv[i as int] == ss@[i as int]@);
            }
            let r = self.exec_in(&ss[i], env, fuel);
            proof {
                assert forall|o: Seq<HostAnswer>| #![trigger with_replies(self@, o)] knows(o, self@.asked) implies s_block(
                    with_replies(m0, o),
                    sv,
                    0,
                    env,
                    fuel as nat,
                ) == s_block(with_replies(mi, o), sv, i as int, env, fuel as nat) && flow_out(
                    s_exec(with_replies(mi, o), sv[i as int], env, fuel as nat),
                    r,
                    with_replies(self@, o),
                ) by {
                    assert(knows(o, mi.asked));
                }
            }
            match r {
                Ok(Flow::Normal) => {},
                Ok(flow) => {
                    return Ok(flow);
                },
                Err(x) => {
                    return Err(x);
                },
            }
            i = i + 1;
        }
        Ok(Flow::Normal)
    }

    /// Runs `while (cond) { body }` in scope `env`.
    fn exec_while(&mut self, cond: &Expr, body: &Vec<Stmt>, env: Env, fuel: u64) -> (r: Result<Flow, RuntimeError>)
        requires
            old(self).wf(),
            env < old(self)@.scopes.len(),
        ensures
            final(self).wf(),
            grows(old(self)@, final(self)@),
            flow_res_ok(final(self)@, r),
            forall|o: Seq<HostAnswer>| #![trigger with_replies(final(self)@, o)]
                knows(o, final(self)@.asked) ==> flow_out(
                    s_while(with_replies(old(self)@, o), cond@, stmts_view(body@), env, fuel as nat),
                    r,
                    with_replies(final(self)@, o),
                ),
        decreases fuel, 0int,
    {
        let ghost m0 = self@;
        let ghost bv = stmts_view(body@);
        let mut f = fuel;
        loop
            invariant
                self.wf(),
                m0 == old(self)@,
                grows(m0, self@),
                env < self@.scopes.len(),
                bv == stmts_view(body@),
                f <= fuel,
                forall|o: Seq<HostAnswer>| #![trigger with_replies(self@, o)]
                    knows(o, self@.asked) ==> s_while(with_replies(m0, o), cond@, bv, env, fuel as nat)
                        == s_while(with_replies(self@, o), cond@, bv, env, f as nat),
            decreases f,
        {
            if f == 0 {
                return Err(RuntimeError::StepLimitExceeded);
            }
            f = f - 1;
            let ghost mi = self@;
            let cr = self.eval_in(cond, env, f);
            let ghost mc = self@;
            proof {
                assert forall|o: Seq<HostAnswer>| #![trigger with_replies(self@, o)] knows(o, self@.asked) implies s_while(
                    with_replies(m0, o),
                    cond@,
                    bv,
                    env,
                    fuel as nat,
                ) == s_while(with_replies(mi, o), cond@, bv, env, (f + 1) as nat) && value_out(
                    s_eval(with_replies(mi, o), cond@, env, f as nat),
                    cr,
                    with_replies(self@, o),
                ) by {
                    assert(knows(o, mi.asked));
                }
            }
            let c = match cr {
                Ok(x) => x,
                Err(x) => return Err(x),
            };
            if !self.truthy(&c) {
                return Ok(Flow::Normal);
            }
            let br = self.run_block(body, env, f);
            proof {
                assert forall|o: Seq<HostAnswer>| #![trigger with_replies(self@, o)] knows(o, self@.asked) implies s_while(
                    with_replies(m0, o),
                    cond@,
                    bv,
                    env,
                    fuel as nat,
                ) == s_while(with_replies(mi, o), cond@, bv, env, (f + 1) as nat) && s_eval(
                    with_replies(mi, o),
                    cond@,
                    env,
                    f as nat,
                ) == Out::Done(c@, with_replies(mc, o)) && truthy(with_replies(mc, o), c@) && flow_out(
                    s_block(with_replies(mc, o), bv, 0, env, f as nat),
                    br,
                    with_replies(self@, o),
                ) by {
                    assert(knows(o, mc.asked));
                    assert(knows(o, mi.asked));
                }
            }
            match br {
                Ok(Flow::Normal) => {},
                Ok(Flow::Continue) => {},
                Ok(Flow::Break) => {
                    return Ok(Flow::Normal);
                },
                Ok(Flow::Return(v)) => {
                    return Ok(Flow::Return(v));
                },
                Err(x) => {
                    return Err(x);
                },
            }
        }
    }

    /// Runs the body of `for (var in ...)` once per item, each time in a
    /// fresh child scope of `env` binding `var` to the item.
    fn exec_for(&mut self, var: &String, items: Vec<Value>, body: &Vec<Stmt>, env: Env, fuel: u64) -> (r: Result<Flow, RuntimeError>)
        requires
            old(self).wf(),
            env < old(self)@.scopes.len(),
            forall|j: int| 0 <= j < items@.len() ==> valid(old(self)@, #[trigger] items@[j]@),
        ensures
            final(self).wf(),
            grows(old(self)@, final(self)@),
            flow_res_ok(final(self)@, r),
            forall|o: Seq<HostAnswer>| #![trigger with_replies(final(self)@, o)]
                knows(o, final(self)@.asked) ==> flow_out(
                    s_for(with_replies(old(self)@, o), var@, values_view(items@), 0, stmts_view(body@), env, fuel as nat),
                    r,
                    with_replies(final(self)@, o),
                ),
        decreases fuel, 0int,
    {
        let ghost m0 = self@;
        let ghost bv = stmts_view(body@);
        let ghost iv = values_view(items@);
        let mut i: usize = 0;
        while i < items.len()
            invariant
                self.wf(),
                m0 == old(self)@,
                grows(m0, self@),
                env < self@.scopes.len(),
                bv == stmts_view(body@),
                iv == values_view(items@),
                i <= items@.len(),
                forall|j: int| 0 <= j < items@.len() ==> valid(m0, #[trigger] items@[j]@),
                forall|o: Seq<HostAnswer>| #![trigger with_replies(self@, o)]
                    knows(o, self@.asked) ==> s_for(with_replies(m0, o), var@, iv, 0, bv, env, fuel as nat)
                        == s_for(with_replies(self@, o), var@, iv, i as int, bv, env, fuel as nat),
            decreases items@.len() - i,
        {
            if fuel == 0 {
                return Err(RuntimeError::StepLimitExceeded);
            }
            let ghost mi = self@;
            proof {
                assert(valid(self@, items@[i as int]@));
            }
            let c = self.new_scope(env);
            let ghost m1 = self@;
            self.define_var(c, var.clone(), items[i].duplicate(), false);
            let ghost scope = SScope {
                vars: seq![(var@, iv[i as int])],
                consts: Seq::empty(),
                parent: Some(env),
            };
            proof {
                assert(crate::environment::bind(Seq::empty(), var@, iv[i as int]) =~= seq![(var@, iv[i as int])]);
                assert(self@.scopes =~= mi.scopes.push(scope));
                assert(self@ == with_scopes(mi, mi.scopes.push(scope)));
            }
            let ghost mb = self@;
            let br = self.run_block(body, c, fuel - 1);
            proof {
                assert forall|o: Seq<HostAnswer>| #![trigger with_replies(self@, o)] knows(o, self@.asked) implies s_for(
                    with_replies(m0, o),
                    var@,
                    iv,
                    0,
                    bv,
                    env,
                    fuel as nat,
                ) == s_for(with_replies(mi, o), var@, iv, i as int, bv, env, fuel as nat) && flow_out(
                    s_block(with_replies(mb, o), bv, 0, c, (fuel - 1) as nat),
                    br,
                    with_replies(self@, o),
                ) && with_replies(mb, o) == with_scopes(
                    with_replies(mi, o),
                    with_replies(mi, o).scopes.push(scope),
                ) by {
                    assert(knows(o, mi.asked));
                }
            }
            match br {
                Ok(Flow::Normal) => {},
                Ok(Flow::Continue) => {},
                Ok(Flow::Break) => {
                    return Ok(Flow::Normal);
                },
                Ok(Flow::Return(v)) => {
                    return Ok(Flow::Return(v));
                },
                Err(x) => {
                    return Err(x);
                },
            }
            i = i + 1;
        }
        Ok(Flow::Normal)
    }
}

// ─── The public interface ────────────────────────────────────

/// A built-in function's binding.
fn builtin_binding(name: &str, arity: usize, b: Builtin) -> (r: (String, Value))
    requires
        arity == builtin_arity(b),
    ensures
        r.0@ == name@,
        r.1@ == builtin_value(name@, b),
{
    (String::from_str(name), Value::NativeFunc { name: String::from_str(name), arity: Some(arity), func: b })
}

impl<F: Host> Interpreter<F> {
    /// A fresh interpreter whose global scope holds the built-in functions
    /// `print`, `println`, `len`, `push`, `pop`, `int`, `str` and `type`.
    pub fn new(host: F) -> (r: Self)
        ensures
            r.wf(),
            r@ == initial_machine(),
    {
        let mut vars: Vec<(String, Value)> = Vec::new();
        vars.push(builtin_binding("print", 1, Builtin::Print));
        vars.push(builtin_binding("println", 1, Builtin::Println));
        vars.push(builtin_binding("len", 1, Builtin::Len));
        vars.push(builtin_binding("push", 2, Builtin::Push));
        vars.push(builtin_binding("pop", 1, Builtin::Pop));
        vars.push(builtin_binding("int", 1, Builtin::Int));
        vars.push(builtin_binding("str", 1, Builtin::Str));
        vars.push(builtin_binding("type", 1, Builtin::Type));
        proof {
            assert(vars_view(vars@) =~= builtin_bindings());
        }
        let r = Interpreter {
            env: Environment::with_bindings(vars),
            arrays: Vec::new(),
            funcs: Vec::new(),
            printed: Ghost(Seq::empty()),
            asked: Ghost(Seq::empty()),
            host,
        };
        proof {
            assert(arrays_view(r.arrays@) =~= Seq::empty());
            assert(funcs_view(r.funcs@) =~= Seq::empty());
            assert(r@ =~= initial_machine());
        }
        r
    }

    /// Runs a whole program in the global scope.
    pub fn run_program(&mut self, program: &Program) -> (r: Result<Flow, RuntimeError>)
        requires
            old(self).wf(),
        ensures
            final(self).wf(),
            grows(old(self)@, final(self)@),
            flow_res_ok(final(self)@, r),
            forall|o: Seq<HostAnswer>| #![trigger with_replies(final(self)@, o)]
                knows(o, final(self)@.asked) ==> flow_out(
                    s_block(with_replies(old(self)@, o), program@, 0, 0, step_budget()),
                    r,
                    with_replies(final(self)@, o),
                ),
    {
        self.run_block(&program.statements, 0, 0xffff_ffff_ffff_ffffu64)
    }

    /// Runs statements in scope `env`, stopping at the first one that does
    /// not finish normally and reporting how it finished.
    pub fn exec_block(&mut self, stmts: &Vec<Stmt>, env: Env) -> (r: Result<Flow, RuntimeError>)
        requires
            old(self).wf(),
            env < old(self)@.scopes.len(),
        ensures
            final(self).wf(),
            grows(old(self)@, final(self)@),
            flow_res_ok(final(self)@, r),
            forall|o: Seq<HostAnswer>| #![trigger with_replies(final(self)@, o)]
                knows(o, final(self)@.asked) ==> flow_out(
                    s_block(with_replies(old(self)@, o), stmts_view(stmts@), 0, env, step_budget()),
                    r,
                    with_replies(final(self)@, o),
                ),
    {
        self.run_block(stmts, env, 0xffff_ffff_ffff_ffffu64)
    }

    /// Runs a statement in scope `env`.
    pub fn exec(&mut self, st: &Stmt, env: Env) -> (r: Result<Flow, RuntimeError>)
        requires
            old(self).wf(),
            env < old(self)@.scopes.len(),
        ensures
            final(self).wf(),
            grows(old(self)@, final(self)@),
            flow_res_ok(final(self)@, r),
            forall|o: Seq<HostAnswer>| #![trigger with_replies(final(self)@, o)]
                knows(o, final(self)@.asked) ==> flow_out(
                    s_exec(with_replies(old(self)@, o), st@, env, step_budget()),
                    r,
                    with_replies(final(self)@, o),
                ),
    {
        self.exec_in(st, env, 0xffff_ffff_ffff_ffffu64)
    }

    /// Evaluates an expression in scope `env`.
    pub fn eval(&mut self, e: &Expr, env: Env) -> (r: Result<Value, RuntimeError>)
        requires
            old(self).wf(),
            env < old(self)@.scopes.len(),
        ensures
            final(self).wf(),
            grows(old(self)@, final(self)@),
            value_res_ok(final(self)@, r),
            forall|o: Seq<HostAnswer>| #![trigger with_replies(final(self)@, o)]
                knows(o, final(self)@.asked) ==> value_out(
                    s_eval(with_replies(old(self)@, o), e@, env, step_budget()),
                    r,
                    with_replies(final(self)@, o),
                ),
    {
        self.eval_in(e, env, 0xffff_ffff_ffff_ffffu64)
    }

    /// The number of scopes.
    pub fn scope_count(&self) -> (r: usize)
        ensures
            r == self@.scopes.len(),
    {
        self.env.len()
    }

    /// The elements of array `h`, or `None` when there is no such array.
    pub fn array(&self, h: usize) -> (r: Option<&Vec<Value>>)
        ensures
            match r {
                Some(a) => h < self@.arrays.len() && values_view(a@) == self@.arrays[h as int],
                None => h >= self@.arrays.len(),
            },
    {
        proof {
            self.lemma_views();
        }
        if h < self.arrays.len() {
            Some(&self.arrays[h])
        } else {
            None
        }
    }
}

impl Value {
    /// Whether this value counts as true in a condition: `false`, `0`,
    /// `0.0`, `""`, `[]` and `null` do not, everything else does.
    pub fn is_truthy<F: Host>(&self, interp: &Interpreter<F>) -> (r: bool)
        requires
            interp.wf(),
            valid(interp@, self@),
        ensures
            r == truthy(interp@, self@),
    {
        interp.truthy(self)
    }

    /// How `print` shows this value (a float as the host formats it).
    pub fn display<F: Host>(&self, interp: &mut Interpreter<F>) -> (r: String)
        requires
            old(interp).wf(),
            valid(old(interp)@, self@),
        ensures
            final(interp).wf(),
            grows(old(interp)@, final(interp)@),
            same_data(old(interp)@, final(interp)@),
            forall|o: Seq<HostAnswer>| #![trigger with_replies(final(interp)@, o)]
                knows(o, final(interp)@.asked) ==> display(
                    with_replies(old(interp)@, o),
                    self@,
                    depth_limit(),
                ) == Out::Done(r@, with_replies(final(interp)@, o)),
    {
        interp.display(self)
    }
}

impl<F: Host> Interpreter<F> {
    /// A deep copy of `v`, following nested arrays to `depth` levels.
    fn deep_clone_to(&mut self, v: &Value, depth: u64) -> (r: Value)
        requires
            old(self).wf(),
            valid(old(self)@, v@),
        ensures
            final(self).wf(),
            grows(old(self)@, final(self)@),
            valid(final(self)@, r@),
            (r@, final(self)@) == s_deep_clone(old(self)@, v@, depth as nat),
        decreases depth,
    {
        match v {
            Value::Array(h) => {
                if depth == 0 {
                    return v.duplicate();
                }
                let h = *h;
                let src = self.array_items(h);
                let ghost m0 = self@;
                let ghost sv = values_view(src@);
                let ghost d1 = (depth - 1) as nat;
                let mut items: Vec<Value> = Vec::new();
                let mut i: usize = 0;
                proof {
                    self.lemma_views();
                    assert(values_view(items@) =~= Seq::<SValue>::empty());
                    assert forall|j: int| 0 <= j < src@.len() implies valid(m0, #[trigger] src@[j]@) by {
                        assert(src@[j]@ == sv[j]);
                        assert(value_ok(m0.arrays[h as int][j], m0.arrays.len(), m0.funcs.len()));
                    }
                }
                while i < src.len()
                    invariant
                        self.wf(),
                        m0 == old(self)@,
                        grows(m0, self@),
                        sv == values_view(src@),
                        sv == m0.arrays[h as int],
                        i <= src@.len(),
                        0 < depth,
                        d1 == depth - 1,
                        forall|j: int| 0 <= j < src@.len() ==> valid(m0, #[trigger] src@[j]@),
                        forall|j: int| 0 <= j < items@.len() ==> valid(self@, #[trigger] items@[j]@),
                        s_clone_items(m0, sv, 0, Seq::empty(), d1) == s_clone_items(
                            self@,
                            sv,
                            i as int,
                            values_view(items@),
                            d1,
                        ),
                    decreases src@.len() - i,
                {
                    proof {
                        assert(valid(self@, src@[i as int]@));
                        assert(src@[i as int]@ == sv[i as int]);
                    }
                    let ghost vi = items@;
                    let c = self.deep_clone_to(&src[i], depth - 1);
                    items.push(c);
                    proof {
                        assert(values_view(items@) =~= values_view(vi).push(c@));
                    }
                    i = i + 1;
                }
                proof {
                    lemma_wf_new_array(self@, values_view(items@));
                }
                let h2 = self.new_array(items);
                Value::Array(h2)
            },
            _ => v.duplicate(),
        }
    }
}

impl Value {
    /// A deep copy of this value: an array is copied, nested arrays too,
    /// into new arrays of the interpreter; any other value is itself.
    pub fn deep_clone<F: Host>(&self, interp: &mut Interpreter<F>) -> (r: Value)
        requires
            old(interp).wf(),
            valid(old(interp)@, self@),
        ensures
            final(interp).wf(),
            grows(old(interp)@, final(interp)@),
            valid(final(interp)@, r@),
            (r@, final(interp)@) == s_deep_clone(old(interp)@, self@, depth_limit()),
    {
        interp.deep_clone_to(self, 0xffff_ffff_ffff_ffffu64)
    }

    /// The language's `==`: numbers compare by value (an integer equals
    /// the float it converts to), strings, booleans and `null` by value,
    /// arrays element by element; values of other kinds are unequal.
    pub fn equals<F: Host>(&self, other: &Value, interp: &mut Interpreter<F>) -> (r: bool)
        requires
            old(interp).wf(),
            valid(old(interp)@, self@),
            valid(old(interp)@, other@),
        ensures
            final(interp).wf(),
            grows(old(interp)@, final(interp)@),
            same_data(old(interp)@, final(interp)@),
            forall|o: Seq<HostAnswer>| #![trigger with_replies(final(interp)@, o)]
                knows(o, final(interp)@.asked) ==> crate::semantics::values_equal(
                    with_replies(old(interp)@, o),
                    self@,
                    other@,
                    depth_limit(),
                ) == Out::Done(r, with_replies(final(interp)@, o)),
    {
        interp.values_equal(self, other, 0xffff_ffff_ffff_ffffu64)
    }
}

impl<F: Host + Default> Default for Interpreter<F> {
    /// A fresh interpreter with the default host.
    fn default() -> (r: Self)
        ensures
            r.wf(),
            r@ == initial_machine(),
    {
        Interpreter::new(F::default())
    }
}

} // verus!

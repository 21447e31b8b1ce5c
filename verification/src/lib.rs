//! Mini-Lang: a small tree-walking interpreter.
//!
//! Source text goes through three stages: the lexer splits it into tokens,
//! the parser builds a syntax tree, and the interpreter runs the tree.  Each
//! stage is proved to do what a specification of it says: the lexer and the
//! parser against spec functions over character and token sequences, the
//! interpreter against a big-step semantics (`semantics`).

pub mod ast;
pub mod environment;
pub mod errors;
pub mod interpreter;
pub mod lexer;
pub mod parser;
pub mod repl;
pub mod semantics;
pub mod text;
pub mod token;
pub mod value;

use crate::ast::{Program, SStmt, Stmt};
use crate::errors::{MiniError, RuntimeError, SMiniError};
use crate::interpreter::{flow_out, value_out, Host, Interpreter};
use crate::semantics::s_eval;
use crate::lexer::{lemma_tokens_end_with_eof, tokenize_spec, Lexer};
use crate::parser::{parse_spec, Parser};
use crate::semantics::{
    grows, knows, lemma_session_value, s_block, s_prompt_step, s_session, step_budget, valid,
    with_replies, HostAnswer, HostCall, Out, SMachine,
};
use crate::token::{tokens_view, STokenKind, Symbol};
use crate::value::{SValue, Value};
use vstd::prelude::*;

verus! {

/// The statements of a source text, or its lexical or syntax error.
pub open spec fn source_program(src: Seq<char>) -> Result<Seq<SStmt>, SMiniError> {
    match tokenize_spec(src) {
        Ok(ts) => match parse_spec(ts) {
            Ok(stmts) => Ok(stmts),
            Err(e) => Err(SMiniError::Parse(e)),
        },
        Err(e) => Err(SMiniError::Lex(e)),
    }
}

/// The view of an optional value.
pub open spec fn opt_view(o: Option<Value>) -> Option<SValue> {
    match o {
        Some(v) => Some(v@),
        None => None,
    }
}

/// With the host's replies `o`, running `stmts` in the global scope from
/// state `m0` gives `r` and the state `m1` (which holds the replies `o`).
pub open spec fn program_outcome(
    m0: SMachine,
    stmts: Seq<SStmt>,
    r: Result<(), MiniError>,
    m1: SMachine,
    o: Seq<HostAnswer>,
) -> bool {
    match s_block(with_replies(m0, o), stmts, 0, 0, step_budget()) {
        Out::Done(_, m) => r is Ok && m1 == m,
        Out::Failed(e, m) => r matches Err(x) && x@ == SMiniError::Runtime(e) && m1 == m,
        Out::Opaque => false,
    }
}

/// With the host's replies `o`, running `stmts` as the interactive prompt
/// does, from state `m0`, gives `r` and the state `m1` (which holds the
/// replies `o`).
pub open spec fn session_outcome(
    m0: SMachine,
    stmts: Seq<SStmt>,
    r: Result<Option<Value>, MiniError>,
    m1: SMachine,
    o: Seq<HostAnswer>,
) -> bool {
    match s_session(with_replies(m0, o), stmts, 0, None) {
        Out::Done(last, m) => r matches Ok(v) && opt_view(v) == last && m1 == m,
        Out::Failed(e, m) => r matches Err(x) && x@ == SMiniError::Runtime(e) && m1 == m,
        Out::Opaque => false,
    }
}

/// The statements of `source`, or its lexical or syntax error.
fn parse_source(source: &str) -> (r: Result<Program, MiniError>)
    requires
        source@.len() < usize::MAX,
    ensures
        match source_program(source@) {
            Ok(stmts) => r matches Ok(p) && p@ == stmts,
            Err(e) => r matches Err(x) && x@ == e,
        },
{
    let tokens = match Lexer::tokenize(source) {
        Ok(t) => t,
        Err(e) => return Err(MiniError::Lex(e)),
    };
    proof {
        lemma_tokens_end_with_eof(source@);
        let ts = tokens_view(tokens@);
        assert(ts[ts.len() - 1].kind == STokenKind::Sym(Symbol::Eof));
    }
    match Parser::parse(tokens) {
        Ok(p) => Ok(p),
        Err(e) => Err(MiniError::Parse(e)),
    }
}

/// Runs a source text through the whole pipeline (lexing, parsing,
/// running) in the interpreter's global scope, whose bindings persist
/// from one call to the next.
pub fn run_source<F: Host>(source: &str, interp: &mut Interpreter<F>) -> (r: Result<(), MiniError>)
    requires
        old(interp).wf(),
        source@.len() < usize::MAX,
    ensures
        final(interp).wf(),
        grows(old(interp)@, final(interp)@),
        match source_program(source@) {
            Err(e) => r matches Err(x) && x@ == e && final(interp)@ == old(interp)@,
            Ok(stmts) => forall|o: Seq<HostAnswer>| #![trigger with_replies(final(interp)@, o)]
                knows(o, final(interp)@.asked) ==> program_outcome(
                    old(interp)@,
                    stmts,
                    r,
                    with_replies(final(interp)@, o),
                    o,
                ),
        },
{
    let program = parse_source(source)?;
    let ghost m0 = interp@;
    let res = interp.run_program(&program);
    let r = match res {
        Ok(_) => Ok(()),
        Err(e) => Err(MiniError::Runtime(e)),
    };
    proof {
        assert forall|o: Seq<HostAnswer>| #![trigger with_replies(interp@, o)] knows(o, interp@.asked) implies program_outcome(m0, program@, r, with_replies(interp@, o), o) by {
            assert(flow_out(s_block(with_replies(m0, o), program@, 0, 0, step_budget()), res, with_replies(interp@, o)));
        }
    }
    r
}

/// With the host's replies `o`, running `st` as the interactive prompt
/// does, from state `m0`, gives `r` and the state `m1` (which holds the
/// replies `o`).
spec fn step_outcome(
    m0: SMachine,
    st: SStmt,
    r: Result<Option<Value>, RuntimeError>,
    m1: SMachine,
    o: Seq<HostAnswer>,
) -> bool {
    match s_prompt_step(with_replies(m0, o), st) {
        Out::Done(last, m) => r matches Ok(v) && opt_view(v) == last && m1 == m,
        Out::Failed(e, m) => r matches Err(x) && x@ == e && m1 == m,
        Out::Opaque => false,
    }
}

/// Runs one statement in the global scope as the interactive prompt does.
fn prompt_step<F: Host>(interp: &mut Interpreter<F>, st: &Stmt) -> (r: Result<
    Option<Value>,
    RuntimeError,
>)
    requires
        old(interp).wf(),
    ensures
        final(interp).wf(),
        grows(old(interp)@, final(interp)@),
        r matches Ok(Some(v)) ==> valid(final(interp)@, v@),
        forall|o: Seq<HostAnswer>| #![trigger with_replies(final(interp)@, o)]
            knows(o, final(interp)@.asked) ==> step_outcome(
                old(interp)@,
                st@,
                r,
                with_replies(final(interp)@, o),
                o,
            ),
{
    let ghost m0 = interp@;
    match st {
        Stmt::ExprStmt(e) => {
            let res = interp.eval(e, 0);
            let r = match res {
                Ok(v) => Ok(Some(v)),
                Err(x) => Err(x),
            };
            proof {
                reveal(s_prompt_step);
                assert forall|o: Seq<HostAnswer>| #![trigger with_replies(interp@, o)] knows(o, interp@.asked) implies step_outcome(m0, st@, r, with_replies(interp@, o), o) by {
                    assert(value_out(s_eval(with_replies(m0, o), e@, 0, step_budget()), res, with_replies(interp@, o)));
                }
            }
            r
        },
        other => {
            let single = Program { statements: vec![other.clone()] };
            proof {
                crate::ast::lemma_stmts_view_push(Seq::empty(), single.statements@[0]);
                assert(single.statements@ =~= Seq::<Stmt>::empty().push(single.statements@[0]));
                assert(single@ =~= seq![st@]);
            }
            let res = interp.run_program(&single);
            let r = match res {
                Ok(_) => Ok(None),
                Err(x) => Err(x),
            };
            proof {
                reveal(s_prompt_step);
                assert forall|o: Seq<HostAnswer>| #![trigger with_replies(interp@, o)] knows(o, interp@.asked) implies step_outcome(m0, st@, r, with_replies(interp@, o), o) by {
                    assert(flow_out(s_block(with_replies(m0, o), single@, 0, 0, step_budget()), res, with_replies(interp@, o)));
                }
            }
            r
        },
    }
}

/// Runs a source text statement by statement in the global scope and
/// returns the value of the last statement when it is an expression
/// statement (what the interactive prompt shows): a text that runs gives a
/// value exactly when its last statement is an expression statement.
#[verifier::rlimit(20)]
pub fn eval_source<F: Host>(source: &str, interp: &mut Interpreter<F>) -> (r: Result<
    Option<Value>,
    MiniError,
>)
    requires
        old(interp).wf(),
        source@.len() < usize::MAX,
    ensures
        final(interp).wf(),
        grows(old(interp)@, final(interp)@),
        r matches Ok(Some(v)) ==> valid(final(interp)@, v@),
        match source_program(source@) {
            Err(e) => r matches Err(x) && x@ == e && final(interp)@ == old(interp)@,
            Ok(stmts) => {
                &&& forall|o: Seq<HostAnswer>| #![trigger with_replies(final(interp)@, o)]
                    knows(o, final(interp)@.asked) ==> session_outcome(
                        old(interp)@,
                        stmts,
                        r,
                        with_replies(final(interp)@, o),
                        o,
                    )
                &&& r matches Ok(v) ==> (v is Some <==> (stmts.len() > 0 && stmts.last() is ExprStmt))
            },
        },
{
    let program = parse_source(source)?;
    let ghost m0 = interp@;
    let ghost ss = program@;
    proof {
        crate::ast::lemma_stmts_view_index(program.statements@);
    }
    let mut last: Option<Value> = None;
    let mut i: usize = 0;
    while i < program.statements.len()
        invariant
            interp.wf(),
            m0 == old(interp)@,
            grows(m0, interp@),
            ss == program@,
            source_program(source@) == Ok::<Seq<SStmt>, SMiniError>(ss),
            ss.len() == program.statements@.len(),
            i <= ss.len(),
            last matches Some(v) ==> valid(interp@, v@),
            forall|o: Seq<HostAnswer>| #![trigger with_replies(interp@, o)]
                knows(o, interp@.asked) ==> s_session(with_replies(m0, o), ss, 0, None) == s_session(
                    with_replies(interp@, o),
                    ss,
                    i as int,
                    opt_view(last),
                ),
        decreases ss.len() - i,
    {
        let ghost mi = interp@;
        proof {
            crate::ast::lemma_stmts_view_index(program.statements@);
            assert(ss[i as int] == program.statements@[i as int]@);
        }
        let step = prompt_step(interp, &program.statements[i]);
        proof {
            assert forall|o: Seq<HostAnswer>| #![trigger with_replies(interp@, o)] knows(o, interp@.asked) implies s_session(
                with_replies(m0, o),
                ss,
                0,
                None,
            ) == s_session(with_replies(mi, o), ss, i as int, opt_view(last)) && step_outcome(mi, ss[i as int], step, with_replies(interp@, o), o) by {
                assert(knows(o, mi.asked));
            }
        }
        match step {
            Ok(v) => {
                last = v;
            },
            Err(x) => {
                let r = Err(MiniError::Runtime(x));
                proof {
                    assert forall|o: Seq<HostAnswer>| #![trigger with_replies(interp@, o)] knows(o, interp@.asked) implies session_outcome(m0, ss, r, with_replies(interp@, o), o) by {
                        assert(step_outcome(mi, ss[i as int], step, with_replies(interp@, o), o));
                    }
                }
                return r;
            },
        }
        i = i + 1;
    }
    proof {
        let o = interp@.asked.map_values(|p: (HostCall, HostAnswer)| p.1);
        assert(knows(o, interp@.asked));
        lemma_session_value(with_replies(m0, o), ss);
        assert(s_session(with_replies(interp@, o), ss, i as int, opt_view(last)) == Out::Done(
            opt_view(last),
            with_replies(interp@, o),
        ));
        assert forall|o: Seq<HostAnswer>| #![trigger with_replies(interp@, o)] knows(o, interp@.asked) implies session_outcome(m0, ss, Ok(last), with_replies(interp@, o), o) by {
            assert(s_session(with_replies(interp@, o), ss, i as int, opt_view(last)) == Out::Done(
                opt_view(last),
                with_replies(interp@, o),
            ));
        }
    }
    Ok(last)
}

} // verus!

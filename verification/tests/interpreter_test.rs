//! Tests of the interpreter's laws and edge cases on concrete programs.

use mini_lang::errors::{MiniError, RuntimeError};
use mini_lang::interpreter::{Flow, Host, Interpreter, Question};
use mini_lang::value::Value;
use mini_lang::{eval_source, run_source};

/// A host with IEEE-754 binary64 arithmetic that keeps what programs
/// print.
#[derive(Default)]
struct F64 {
    out: String,
}

fn fl(bits: u64) -> f64 {
    f64::from_bits(bits)
}

impl Host for F64 {
    fn float_answer(&self, q: &Question) -> u64 {
        let x = match q {
            Question::ParseFloat(t) => t.parse::<f64>().unwrap_or(0.0),
            Question::IntToFloat(n) => *n as f64,
            Question::Add(a, b) => fl(*a) + fl(*b),
            Question::Sub(a, b) => fl(*a) - fl(*b),
            Question::Mul(a, b) => fl(*a) * fl(*b),
            Question::Div(a, b) => fl(*a) / fl(*b),
            Question::Rem(a, b) => fl(*a) % fl(*b),
            _ => 0.0,
        };
        x.to_bits()
    }

    fn int_answer(&self, q: &Question) -> i64 {
        match q {
            Question::FloatToInt(x) => fl(*x) as i64,
            _ => 0,
        }
    }

    fn bool_answer(&self, q: &Question) -> bool {
        match q {
            Question::Eq(a, b) => fl(*a) == fl(*b),
            Question::Lt(a, b) => fl(*a) < fl(*b),
            Question::Gt(a, b) => fl(*a) > fl(*b),
            Question::Le(a, b) => fl(*a) <= fl(*b),
            Question::Ge(a, b) => fl(*a) >= fl(*b),
            _ => false,
        }
    }

    fn text_answer(&self, q: &Question) -> String {
        match q {
            Question::Format(x) => format!("{}", fl(*x)),
            _ => String::new(),
        }
    }

    fn write(&mut self, text: &str) {
        self.out.push_str(text);
    }
}

fn eval_str(source: &str) -> Result<Option<Value>, MiniError> {
    let mut interp = Interpreter::new(F64::default());
    eval_source(source, &mut interp)
}

fn runtime_error(source: &str) -> RuntimeError {
    match eval_str(source) {
        Err(MiniError::Runtime(e)) => e,
        other => panic!("expected a runtime error, got {:?}", other),
    }
}

fn printed(source: &str) -> String {
    let mut interp = Interpreter::new(F64::default());
    run_source(source, &mut interp).unwrap();
    interp.host().out.clone()
}

// ─── Laws on concrete values ─────────────────────────────────

#[test]
fn pop_undoes_push() {
    let source = "let a = [1, 2]; push(a, 5); let x = pop(a); x;";
    assert_eq!(eval_str(source).unwrap(), Some(Value::Int(5)));
    let source = "let a = [1, 2]; push(a, 5); pop(a); len(a);";
    assert_eq!(eval_str(source).unwrap(), Some(Value::Int(2)));
}

#[test]
fn push_appends_last() {
    let source = "let a = [1, 2]; push(a, 7); a[-1];";
    assert_eq!(eval_str(source).unwrap(), Some(Value::Int(7)));
}

#[test]
fn negative_index_counts_from_end() {
    assert_eq!(eval_str("[4, 5, 6][-3];").unwrap(), Some(Value::Int(4)));
    assert_eq!(eval_str("[4, 5, 6][-2];").unwrap(), Some(Value::Int(5)));
    assert!(matches!(runtime_error("[4, 5, 6][-4];"), RuntimeError::IndexError { .. }));
}

#[test]
fn index_after_set_reads_back() {
    let source = "let a = [0, 0, 0]; a[2] = 42; a[2];";
    assert_eq!(eval_str(source).unwrap(), Some(Value::Int(42)));
}

#[test]
fn arrays_are_shared() {
    let source = "let a = [1]; let b = a; push(b, 2); len(a);";
    assert_eq!(eval_str(source).unwrap(), Some(Value::Int(2)));
}

#[test]
fn and_short_circuits() {
    assert_eq!(eval_str("false && undefined_thing;").unwrap(), Some(Value::Bool(false)));
    assert_eq!(eval_str("true && 0;").unwrap(), Some(Value::Bool(false)));
    assert_eq!(eval_str("1 && \"x\";").unwrap(), Some(Value::Bool(true)));
}

#[test]
fn or_short_circuits() {
    assert_eq!(eval_str("true || undefined_thing;").unwrap(), Some(Value::Bool(true)));
    assert_eq!(eval_str("0 || null;").unwrap(), Some(Value::Bool(false)));
}

#[test]
fn define_then_lookup() {
    assert_eq!(eval_str("let x = 4; let x = 9; x;").unwrap(), Some(Value::Int(9)));
}

#[test]
fn const_refuses_assignment() {
    let e = runtime_error("const c = 1; c = 2;");
    assert_eq!(e, RuntimeError::ReassignConst("c".to_string()));
    assert_eq!(e.message(), "Runtime error: cannot reassign const 'c'");
}

#[test]
fn assignment_is_seen_by_lookup() {
    assert_eq!(eval_str("let x = 1; fn f() { x = 7; } f(); x;").unwrap(), Some(Value::Int(7)));
}

#[test]
fn child_scope_sees_parent_and_shadows() {
    let source = "let x = 1; fn f() { let x = 2; return x; } let y = f(); x + y * 10;";
    assert_eq!(eval_str(source).unwrap(), Some(Value::Int(21)));
}

#[test]
fn for_loop_scope_does_not_leak() {
    let e = runtime_error("for (i in [1, 2]) { } i;");
    assert_eq!(e, RuntimeError::UndefinedVar("i".to_string()));
}

#[test]
fn printed_text_only_grows() {
    assert_eq!(printed("print(1); println(\"a\"); print([1, \"b\", null]);"), "1a\n[1, \"b\", null]");
    let mut interp = Interpreter::new(F64::default());
    run_source("print(1);", &mut interp).unwrap();
    let r = run_source("print(2); 1 / 0;", &mut interp);
    assert!(r.is_err());
    assert_eq!(interp.host().out, "12");
}

#[test]
fn deep_clone_leaves_source() {
    let mut interp = Interpreter::new(F64::default());
    let v = eval_source("let a = [1, [2, 3]]; a;", &mut interp).unwrap().unwrap();
    let c = v.deep_clone(&mut interp);
    match (&v, &c) {
        (Value::Array(h), Value::Array(k)) => {
            assert_ne!(h, k);
            let inner_src = interp.array(*h).unwrap()[1].clone();
            let inner_copy = interp.array(*k).unwrap()[1].clone();
            assert_ne!(inner_src, inner_copy);
            assert!(v.equals(&c, &mut interp));
        }
        _ => panic!("expected arrays"),
    }
    assert_eq!(Value::Int(3).deep_clone(&mut interp), Value::Int(3));
}

#[test]
fn language_equality() {
    assert_eq!(eval_str("1 == 1.0;").unwrap(), Some(Value::Bool(true)));
    assert_eq!(eval_str("[1, [2]] == [1, [2]];").unwrap(), Some(Value::Bool(true)));
    assert_eq!(eval_str("[1, 2] == [1, 3];").unwrap(), Some(Value::Bool(false)));
    assert_eq!(eval_str("\"a\" != \"b\";").unwrap(), Some(Value::Bool(true)));
    assert_eq!(eval_str("null == null;").unwrap(), Some(Value::Bool(true)));
    assert_eq!(eval_str("1 == \"1\";").unwrap(), Some(Value::Bool(false)));
}

// ─── Formulas ────────────────────────────────────────────────

#[test]
fn integer_division_truncates() {
    assert_eq!(eval_str("-7 / 2;").unwrap(), Some(Value::Int(-3)));
    assert_eq!(eval_str("-7 % 2;").unwrap(), Some(Value::Int(-1)));
    assert_eq!(eval_str("7 % -2;").unwrap(), Some(Value::Int(1)));
}

#[test]
fn integer_arithmetic_wraps() {
    assert_eq!(eval_str("9223372036854775807 + 1;").unwrap(), Some(Value::Int(i64::MIN)));
}

#[test]
fn mixed_number_arithmetic() {
    assert_eq!(eval_str("1 + 0.5;").unwrap(), Some(Value::Float(1.5f64.to_bits())));
    assert_eq!(eval_str("3 * 0.5;").unwrap(), Some(Value::Float(1.5f64.to_bits())));
    assert_eq!(eval_str("2.0 < 3;").unwrap(), Some(Value::Bool(true)));
    assert_eq!(eval_str("-2.5;").unwrap(), Some(Value::Float((-2.5f64).to_bits())));
}

#[test]
fn string_plus_value() {
    assert_eq!(eval_str("\"n=\" + 5;").unwrap(), Some(Value::Str("n=5".to_string())));
    assert_eq!(eval_str("[1, 2] + \"!\";").unwrap(), Some(Value::Str("[1, 2]!".to_string())));
    assert_eq!(eval_str("\"x\" + true;").unwrap(), Some(Value::Str("xtrue".to_string())));
}

#[test]
fn string_comparison_is_lexicographic() {
    assert_eq!(eval_str("\"abc\" < \"abd\";").unwrap(), Some(Value::Bool(true)));
    assert_eq!(eval_str("\"b\" < \"abc\";").unwrap(), Some(Value::Bool(false)));
    assert_eq!(eval_str("\"ab\" < \"abc\";").unwrap(), Some(Value::Bool(true)));
}

#[test]
fn display_of_values() {
    assert_eq!(eval_str("str([1, \"a\", [true]]);").unwrap(), Some(Value::Str("[1, \"a\", [true]]".to_string())));
    assert_eq!(eval_str("fn f(a, b) {} str(f);").unwrap(), Some(Value::Str("<func(a, b)>".to_string())));
    assert_eq!(eval_str("str(len);").unwrap(), Some(Value::Str("<native_func len>".to_string())));
    assert_eq!(eval_str("str(-12);").unwrap(), Some(Value::Str("-12".to_string())));
    assert_eq!(eval_str("str(2.5);").unwrap(), Some(Value::Str("2.5".to_string())));
}

#[test]
fn unicode_strings_count_characters() {
    assert_eq!(eval_str("len(\"héllo\");").unwrap(), Some(Value::Int(5)));
    assert_eq!(eval_str("\"héllo\"[1];").unwrap(), Some(Value::Str("é".to_string())));
    assert_eq!(eval_str("\"abc\"[-1];").unwrap(), Some(Value::Str("c".to_string())));
}

#[test]
fn builtin_type_names() {
    assert_eq!(eval_str("type(1.5);").unwrap(), Some(Value::Str("float".to_string())));
    assert_eq!(eval_str("type([]);").unwrap(), Some(Value::Str("array".to_string())));
    assert_eq!(eval_str("type(null);").unwrap(), Some(Value::Str("null".to_string())));
    assert_eq!(eval_str("type(print);").unwrap(), Some(Value::Str("native_func".to_string())));
    assert_eq!(eval_str("fn g() {} type(g);").unwrap(), Some(Value::Str("func".to_string())));
    assert_eq!(eval_str("type(false);").unwrap(), Some(Value::Str("bool".to_string())));
}

#[test]
fn int_conversions() {
    assert_eq!(eval_str("int(\"-17\");").unwrap(), Some(Value::Int(-17)));
    assert_eq!(eval_str("int(false);").unwrap(), Some(Value::Int(0)));
    assert_eq!(eval_str("int(-2.7);").unwrap(), Some(Value::Int(-2)));
    let e = runtime_error("int(\"4x\");");
    assert_eq!(e.message(), "Runtime error: type error: cannot convert '4x' to int");
    let e = runtime_error("int([1]);");
    assert_eq!(e.message(), "Runtime error: type error: cannot convert array to int");
}

#[test]
fn truthiness() {
    let source = "let n = 0; if (\"\") { n = 1; } if ([]) { n = n + 2; } if ([0]) { n = n + 4; } if (0.0) { n = n + 8; } n;";
    assert_eq!(eval_str(source).unwrap(), Some(Value::Int(4)));
    assert_eq!(eval_str("!null;").unwrap(), Some(Value::Bool(true)));
}

#[test]
fn eval_source_clears_value_after_statement() {
    assert_eq!(eval_str("1; let x = 2;").unwrap(), None);
    assert_eq!(eval_str("").unwrap(), None);
}

#[test]
fn exec_reports_flow() {
    let mut interp = Interpreter::new(F64::default());
    let program = mini_lang::parser::Parser::parse(mini_lang::lexer::Lexer::tokenize("return 5;").unwrap()).unwrap();
    match interp.run_program(&program) {
        Ok(Flow::Return(v)) => assert_eq!(v, Value::Int(5)),
        _ => panic!("expected a return"),
    }
    let program = mini_lang::parser::Parser::parse(mini_lang::lexer::Lexer::tokenize("break;").unwrap()).unwrap();
    assert!(matches!(interp.run_program(&program), Ok(Flow::Break)));
}

#[test]
fn value_methods() {
    let mut interp = Interpreter::new(F64::default());
    let v = eval_source("[1, \"s\"];", &mut interp).unwrap().unwrap();
    assert_eq!(v.display(&mut interp), "[1, \"s\"]");
    assert!(v.is_truthy(&interp));
    assert!(!Value::Null.is_truthy(&interp));
    assert_eq!(Value::Str("q".to_string()).type_label(), "str");
}

// ─── Error variants ──────────────────────────────────────────

#[test]
fn error_undefined_variable() {
    let e = runtime_error("nope;");
    assert_eq!(e, RuntimeError::UndefinedVar("nope".to_string()));
    assert_eq!(e.message(), "Runtime error: undefined variable 'nope'");
}

#[test]
fn error_type_messages() {
    assert_eq!(runtime_error("1 + true;").message(), "Runtime error: type error: cannot add int and bool");
    assert_eq!(runtime_error("[1] - 3;").message(), "Runtime error: type error: cannot subtract array and int");
    assert_eq!(runtime_error("null * 3;").message(), "Runtime error: type error: cannot multiply null and int");
    assert_eq!(runtime_error("true / 3;").message(), "Runtime error: type error: cannot divide bool by int");
    assert_eq!(runtime_error("true % 3;").message(), "Runtime error: type error: cannot mod bool by int");
    assert_eq!(runtime_error("1 < \"a\";").message(), "Runtime error: type error: cannot compare int and str");
    assert_eq!(runtime_error("-\"a\";").message(), "Runtime error: type error: cannot negate str");
    assert_eq!(runtime_error("5[0];").message(), "Runtime error: type error: cannot index int with int");
    assert_eq!(runtime_error("let x = 1; x[0] = 2;").message(), "Runtime error: type error: cannot index-assign on int with int");
    assert_eq!(runtime_error("len(3);").message(), "Runtime error: type error: len() does not support int");
    assert_eq!(runtime_error("push(1, 2);").message(), "Runtime error: type error: push() expects an array and a value");
    assert_eq!(runtime_error("pop(1);").message(), "Runtime error: type error: pop() expects an array");
}

#[test]
fn error_division_by_zero() {
    assert_eq!(runtime_error("1 / 0;"), RuntimeError::DivisionByZero);
    assert_eq!(runtime_error("1 % 0;"), RuntimeError::DivisionByZero);
    assert_eq!(runtime_error("1.5 / 0.0;"), RuntimeError::DivisionByZero);
    assert_eq!(runtime_error("1 / 0.0;"), RuntimeError::DivisionByZero);
    assert_eq!(runtime_error("1.5 / 0;"), RuntimeError::DivisionByZero);
}

#[test]
fn error_index_messages() {
    assert_eq!(runtime_error("[1, 2][5];").message(), "Runtime error: index error: index 5 out of bounds for array of length 2");
    assert_eq!(runtime_error("[1, 2][-3];").message(), "Runtime error: index error: index -3 out of bounds");
    assert_eq!(runtime_error("\"ab\"[2];").message(), "Runtime error: index error: index 2 out of bounds for string of length 2");
    assert_eq!(runtime_error("let a = [1]; a[3] = 0;").message(), "Runtime error: index error: index 3 out of bounds for array of length 1");
    assert_eq!(runtime_error("pop([]);").message(), "Runtime error: index error: pop() on empty array");
}

#[test]
fn error_arg_count() {
    assert_eq!(runtime_error("fn f(a) {} f(1, 2);"), RuntimeError::ArgCountMismatch { expected: 1, got: 2 });
    assert_eq!(runtime_error("len();"), RuntimeError::ArgCountMismatch { expected: 1, got: 0 });
    assert_eq!(runtime_error("push([]);").message(), "Runtime error: expected 2 argument(s), got 1");
}

#[test]
fn error_not_iterable_not_callable() {
    assert_eq!(runtime_error("for (x in 5) {}"), RuntimeError::NotIterable);
    assert_eq!(runtime_error("5();"), RuntimeError::NotCallable);
}

#[test]
fn error_stray_break_continue() {
    assert_eq!(runtime_error("fn f() { break; } f();"), RuntimeError::InvalidBreak);
    assert_eq!(runtime_error("fn f() { continue; } f();"), RuntimeError::InvalidContinue);
}

#[test]
fn error_invalid_assignment_target() {
    assert_eq!(runtime_error("1 = 2;").message(), "Runtime error: type error: invalid assignment target");
}

#[test]
fn prompt_result_line() {
    let mut interp = Interpreter::new(F64::default());
    let v = eval_source("[1, 2];", &mut interp).unwrap();
    assert_eq!(mini_lang::repl::result_line(&mut interp, &v), Some("=> [1, 2]".to_string()));
    assert_eq!(mini_lang::repl::result_line(&mut interp, &Some(Value::Null)), None);
    assert_eq!(mini_lang::repl::result_line(&mut interp, &None), None);
}

#[test]
fn global_scope_persists_between_sources() {
    let mut interp = Interpreter::<F64>::default();
    assert_eq!(eval_source("let x = 1;", &mut interp).unwrap(), None);
    assert_eq!(eval_source("x + 1;", &mut interp).unwrap(), Some(Value::Int(2)));
    assert_eq!(interp.global(), 0);
    assert!(interp.scope_count() >= 1);
}

#[test]
fn fresh_interpreter_has_builtins() {
    assert_eq!(eval_str("str(print);").unwrap(), Some(Value::Str("<native_func print>".to_string())));
    assert_eq!(eval_str("str(println);").unwrap(), Some(Value::Str("<native_func println>".to_string())));
    assert_eq!(eval_str("str(push);").unwrap(), Some(Value::Str("<native_func push>".to_string())));
    assert_eq!(eval_str("str(pop);").unwrap(), Some(Value::Str("<native_func pop>".to_string())));
    assert_eq!(eval_str("str(int);").unwrap(), Some(Value::Str("<native_func int>".to_string())));
    assert_eq!(eval_str("str(type);").unwrap(), Some(Value::Str("<native_func type>".to_string())));
    assert_eq!(eval_str("str(str);").unwrap(), Some(Value::Str("<native_func str>".to_string())));
}

#[test]
fn calls_see_defining_scope() {
    let source = "let x = \"global\"; fn show() { return x; } fn caller() { let x = \"local\"; return show(); } caller();";
    assert_eq!(eval_str(source).unwrap(), Some(Value::Str("global".to_string())));
}

#[test]
fn parameters_name_their_arguments() {
    assert_eq!(eval_str("fn f(a, b) { return a - b; } f(10, 3);").unwrap(), Some(Value::Int(7)));
    assert_eq!(eval_str("fn g(a, a) { return a; } g(1, 2);").unwrap(), Some(Value::Int(2)));
}

#[test]
fn division_formula() {
    for (a, b) in [(7i64, 2i64), (-7, 2), (7, -2), (-7, -2), (0, 5)] {
        let source = format!("({} / {}) * {} + {} % {};", a, b, b, a, b);
        assert_eq!(eval_str(&source).unwrap(), Some(Value::Int(a)));
    }
}

#[test]
fn string_ordering_operators() {
    assert_eq!(eval_str("\"b\" > \"a\";").unwrap(), Some(Value::Bool(true)));
    assert_eq!(eval_str("\"a\" > \"a\";").unwrap(), Some(Value::Bool(false)));
    assert_eq!(eval_str("\"a\" <= \"a\";").unwrap(), Some(Value::Bool(true)));
    assert_eq!(eval_str("\"b\" <= \"a\";").unwrap(), Some(Value::Bool(false)));
    assert_eq!(eval_str("\"a\" >= \"a\";").unwrap(), Some(Value::Bool(true)));
    assert_eq!(eval_str("\"a\" >= \"b\";").unwrap(), Some(Value::Bool(false)));
    assert_eq!(eval_str("\"a\" < \"b\";").unwrap(), Some(Value::Bool(true)));
}

#[test]
fn chained_assignment_assigns_both() {
    assert_eq!(eval_str("let a = 0; let b = 0; a = b = 1; a + b * 10;").unwrap(), Some(Value::Int(11)));
    assert_eq!(eval_str("let a = 1; let b = 2; a += b += 3; a * 10 + b;").unwrap(), Some(Value::Int(65)));
    let e = runtime_error("let a = 0; const c = 1; a = c = 2;");
    assert_eq!(e, RuntimeError::ReassignConst("c".to_string()));
}

#[test]
fn eval_source_value_only_after_expression() {
    assert_eq!(eval_str("let x = 2; x;").unwrap(), Some(Value::Int(2)));
    assert_eq!(eval_str("1; let y = 2;").unwrap(), None);
    assert_eq!(eval_str("// nothing").unwrap(), None);
}

/// A host that answers as `F64` does and notes each question put to it.
#[derive(Default)]
struct Recorder {
    inner: F64,
    log: std::cell::RefCell<Vec<String>>,
}

impl Recorder {
    fn note(&self, q: &Question) {
        let s = match q {
            Question::ParseFloat(t) => format!("parse {}", t),
            Question::IntToFloat(n) => format!("widen {}", n),
            Question::FloatToInt(x) => format!("trunc {}", fl(*x)),
            Question::Add(a, b) => format!("add {} {}", fl(*a), fl(*b)),
            Question::Sub(a, b) => format!("sub {} {}", fl(*a), fl(*b)),
            Question::Mul(a, b) => format!("mul {} {}", fl(*a), fl(*b)),
            Question::Div(a, b) => format!("div {} {}", fl(*a), fl(*b)),
            Question::Rem(a, b) => format!("rem {} {}", fl(*a), fl(*b)),
            Question::Eq(a, b) => format!("eq {} {}", fl(*a), fl(*b)),
            Question::Lt(a, b) => format!("lt {} {}", fl(*a), fl(*b)),
            Question::Gt(a, b) => format!("gt {} {}", fl(*a), fl(*b)),
            Question::Le(a, b) => format!("le {} {}", fl(*a), fl(*b)),
            Question::Ge(a, b) => format!("ge {} {}", fl(*a), fl(*b)),
            Question::Format(x) => format!("format {}", fl(*x)),
        };
        self.log.borrow_mut().push(s);
    }
}

impl Host for Recorder {
    fn float_answer(&self, q: &Question) -> u64 {
        self.note(q);
        self.inner.float_answer(q)
    }

    fn int_answer(&self, q: &Question) -> i64 {
        self.note(q);
        self.inner.int_answer(q)
    }

    fn bool_answer(&self, q: &Question) -> bool {
        self.note(q);
        self.inner.bool_answer(q)
    }

    fn text_answer(&self, q: &Question) -> String {
        self.note(q);
        self.inner.text_answer(q)
    }

    fn write(&mut self, text: &str) {
        self.inner.write(text);
    }
}

fn questions(src: &str) -> (Result<Option<Value>, MiniError>, Vec<String>) {
    let mut interp = Interpreter::new(Recorder::default());
    let r = eval_source(src, &mut interp);
    let log = interp.host().log.borrow().clone();
    (r, log)
}

#[test]
fn host_asked_in_order_with_operands() {
    let (r, log) = questions("1 - 0.5;");
    assert!(matches!(r, Ok(Some(Value::Float(b))) if f64::from_bits(b) == 0.5));
    assert_eq!(log, vec!["parse 0.5", "widen 1", "sub 1 0.5"]);

    let (r, log) = questions("10.0 / 4.0;");
    assert!(matches!(r, Ok(Some(Value::Float(b))) if f64::from_bits(b) == 2.5));
    assert_eq!(log, vec!["parse 10.0", "parse 4.0", "div 10 4"]);

    let (r, log) = questions("2.5 == 2;");
    assert!(matches!(r, Ok(Some(Value::Bool(false)))));
    assert_eq!(log, vec!["parse 2.5", "widen 2", "eq 2.5 2"]);

    let (r, log) = questions("2 < 2.5;");
    assert!(matches!(r, Ok(Some(Value::Bool(true)))));
    assert_eq!(log, vec!["parse 2.5", "widen 2", "lt 2 2.5"]);

    let (r, log) = questions("int(-3.9);");
    assert!(matches!(r, Ok(Some(Value::Int(-3)))));
    assert_eq!(log, vec!["parse 3.9", "trunc -3.9"]);

    let (r, log) = questions("1 + 0.5;");
    assert!(matches!(r, Ok(Some(Value::Float(b))) if f64::from_bits(b) == 1.5));
    assert_eq!(log, vec!["parse 0.5", "widen 1", "add 1 0.5"]);

    let (r, log) = questions("[1, 2] == [1.0, 2];");
    assert!(matches!(r, Ok(Some(Value::Bool(true)))));
    assert_eq!(log, vec!["parse 1.0", "widen 1", "eq 1 1"]);

    let (r, log) = questions("print(2.5);");
    assert!(matches!(r, Ok(Some(Value::Null))));
    assert_eq!(log, vec!["parse 2.5", "format 2.5"]);

    let (r, log) = questions("str(4.0);");
    assert!(matches!(r, Ok(Some(Value::Str(ref s))) if s == "4"));
    assert_eq!(log, vec!["parse 4.0", "format 4"]);
}

#[test]
fn division_by_float_zero_asks_nothing_more() {
    let (r, log) = questions("1 / 0.0;");
    assert!(matches!(r, Err(MiniError::Runtime(RuntimeError::DivisionByZero))));
    assert_eq!(log, vec!["parse 0.0"]);
}

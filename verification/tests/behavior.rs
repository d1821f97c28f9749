//! Behaviour the specification calls out: tolerant lookup, display
//! output, error cases, integer edges, scoping, and the step budget.
use std::rc::Rc;

use fancy_schemers::env::Env;
use fancy_schemers::eval::Interpreter;
use fancy_schemers::value::Value;

fn run(env: &mut Env, src: &str) -> Rc<Value> {
    let mut out = String::new();
    env.eval(src, &mut out).unwrap()
}

fn fails(env: &mut Env, src: &str) -> bool {
    let mut out = String::new();
    env.eval(src, &mut out).is_err()
}

#[test]
fn test_unbound_symbol_is_void() {
    let mut env = Env::new();
    let v = run(&mut env, "no-such-binding");
    assert_eq!(v.as_ref(), &Value::Void);
    assert_eq!(v.to_string(), "".to_string());
}

#[test]
fn test_display_writes_unquoted_form() {
    let mut env = Env::new();
    let mut out = String::new();
    let v = env.eval("(display '(1 2 (3 . 4)))", &mut out).unwrap();
    assert_eq!(v.as_ref(), &Value::Void);
    assert_eq!(out, "(1 2 (3 . 4))".to_string());
    let mut out2 = String::new();
    let v = env.eval("(display 42) (display 'x)", &mut out2).unwrap();
    assert_eq!(v.as_ref(), &Value::Void);
    assert_eq!(out2, "42x".to_string());
}

#[test]
fn test_multiply() {
    let mut env = Env::new();
    let v = run(&mut env, "(* 3 4 5)");
    assert_eq!(v.as_ref(), &Value::Int(60));
    let v = run(&mut env, "(*)");
    assert_eq!(v.as_ref(), &Value::Int(1));
    let v = run(&mut env, "(+)");
    assert_eq!(v.as_ref(), &Value::Int(0));
}

#[test]
fn test_structural_equality() {
    let mut env = Env::new();
    let v = run(&mut env, "(eq? '(1 (2 3)) '(1 (2 3)))");
    assert_eq!(v.as_ref(), &Value::Bool(true));
    let v = run(&mut env, "(eq? '(1 2) '(1 3))");
    assert_eq!(v.as_ref(), &Value::Bool(false));
    let v = run(&mut env, "(eq? '() null)");
    assert_eq!(v.as_ref(), &Value::Bool(true));
}

#[test]
fn test_null_predicate() {
    let mut env = Env::new();
    let v = run(&mut env, "(null? '())");
    assert_eq!(v.as_ref(), &Value::Bool(true));
    let v = run(&mut env, "(null? 1)");
    assert_eq!(v.as_ref(), &Value::Bool(false));
}

#[test]
fn test_runtime_errors() {
    let mut env = Env::new();
    assert!(fails(&mut env, "(car 1)"));
    assert!(fails(&mut env, "(cdr '())"));
    assert!(fails(&mut env, "(if 1 2 3)"));
    assert!(fails(&mut env, "(1 2)"));
    assert!(fails(&mut env, "(unquote 1)"));
    assert!(fails(&mut env, "(+ 1 'a)"));
    assert!(fails(&mut env, "(- 1)"));
    assert!(fails(&mut env, "((lambda (x) x) 1 2)"));
    assert!(fails(&mut env, "((lambda (x y) x) 1)"));
}

#[test]
fn test_parse_errors() {
    let mut env = Env::new();
    assert!(fails(&mut env, "("));
    assert!(fails(&mut env, ")"));
    assert!(fails(&mut env, "."));
    assert!(fails(&mut env, "(1 . )"));
    assert!(fails(&mut env, "(1 . 2 3)"));
    assert!(fails(&mut env, "(1 2"));
    assert!(fails(&mut env, "'"));
}

#[test]
fn test_integer_edges() {
    let mut env = Env::new();
    let v = run(&mut env, "9223372036854775807");
    assert_eq!(v.as_ref(), &Value::Int(i64::MAX));
    let v = run(&mut env, "-9223372036854775808");
    assert_eq!(v.as_ref(), &Value::Int(i64::MIN));
    assert_eq!(v.to_string(), "-9223372036854775808".to_string());
    // One past the range is no integer literal: an unbound symbol.
    let v = run(&mut env, "9223372036854775808");
    assert_eq!(v.as_ref(), &Value::Void);
    let v = run(&mut env, "'+5");
    assert_eq!(v.as_ref(), &Value::Int(5));
    let v = run(&mut env, "'-");
    assert_eq!(v.as_ref(), &Value::Symbol("-".to_string()));
}

#[test]
fn test_quasiquote_any_depth() {
    let mut env = Env::new();
    let v = run(&mut env, "`(1 ,(+ 1 1) (3 ,(+ 2 2)))").to_string();
    assert_eq!(v, "'(1 2 (3 4))".to_string());
    let v = run(&mut env, "`x");
    assert_eq!(v.as_ref(), &Value::Symbol("x".to_string()));
}

#[test]
fn test_lexical_scoping_scenario() {
    let mut env = Env::new();
    let v = run(
        &mut env,
        r###"
        (define x 1)
        (define (f) x)
        (define (g x) (f))
        (g 99)
        "###,
    );
    assert_eq!(v.as_ref(), &Value::Int(1));
    let v = run(
        &mut env,
        r###"
        (define (adder n) (lambda (m) (+ n m)))
        (define add2 (adder 2))
        (define n 100)
        (add2 5)
        "###,
    );
    assert_eq!(v.as_ref(), &Value::Int(7));
}

#[test]
fn test_prelude_bindings() {
    let mut env = Env::new();
    let v = run(&mut env, "(append '(1) '(2 3))").to_string();
    assert_eq!(v, "'(1 2 3)".to_string());
    let v = run(&mut env, "(cadr '(1 2 3))");
    assert_eq!(v.as_ref(), &Value::Int(2));
    let v = run(&mut env, "(not #f)");
    assert_eq!(v.as_ref(), &Value::Bool(true));
    let v = run(&mut env, "(flat '((1) (2 3)))").to_string();
    assert_eq!(v, "'(1 2 3)".to_string());
}

#[test]
fn test_step_budget_exhaustion() {
    let mut env = Env::new();
    let mut out = String::new();
    // A tiny budget cannot finish this evaluation; a bigger one can.
    assert!(env.eval_source("(+ 1 (+ 2 (+ 3 4)))", &mut out, 3).is_err());
    let v = env.eval_source("(+ 1 (+ 2 (+ 3 4)))", &mut out, 1000).unwrap();
    assert_eq!(v.as_ref(), &Value::Int(10));
}

#[test]
fn test_empty_program_is_void() {
    let mut env = Env::new();
    let v = run(&mut env, "");
    assert_eq!(v.as_ref(), &Value::Void);
    let v = run(&mut env, "   ");
    assert_eq!(v.as_ref(), &Value::Void);
}

#[test]
fn test_define_returns_void() {
    let mut env = Env::new();
    let v = run(&mut env, "(define a 1)");
    assert_eq!(v.as_ref(), &Value::Void);
}

#[test]
fn test_dotted_tail_only() {
    let mut env = Env::new();
    let v = run(&mut env, "'( . 5)");
    assert_eq!(v.as_ref(), &Value::Int(5));
}

#[test]
fn test_wrapping_arithmetic() {
    let mut env = Env::new();
    let v = run(&mut env, "(+ 9223372036854775807 1)");
    assert_eq!(v.as_ref(), &Value::Int(i64::MIN));
    let v = run(&mut env, "(- -9223372036854775808 1)");
    assert_eq!(v.as_ref(), &Value::Int(i64::MAX));
}

#[test]
fn test_display_inverts_reader() {
    let mut env = Env::new();
    // What display writes reads back as the same value.
    let mut out = String::new();
    env.eval("(display '(abc (#t . -17) () 42))", &mut out).unwrap();
    assert_eq!(out, "(abc (#t . -17) () 42)".to_string());
    let mut out2 = String::new();
    let reread = format!("(display '{})", out);
    env.eval(&reread, &mut out2).unwrap();
    assert_eq!(out2, out);
}

#[test]
fn test_quote_beats_bindings() {
    let mut env = Env::new();
    // A binding named `quote` never changes what the special form does.
    let v = run(&mut env, "(define quote 99) (quote (1 2))").to_string();
    assert_eq!(v, "'(1 2)".to_string());
    let v = run(&mut env, "(define if 0) (if #f 1 2)");
    assert_eq!(v.as_ref(), &Value::Int(2));
}

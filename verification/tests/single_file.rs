//! The test set of the original single-file interpreter, run against the
//! same library.
use std::rc::Rc;

use fancy_schemers::env::Env;
use fancy_schemers::eval::Interpreter;
use fancy_schemers::value::Value;

fn run(env: &mut Env, src: &str) -> Rc<Value> {
    let mut out = String::new();
    env.eval(src, &mut out).unwrap()
}

#[test]
fn main_test_eval() {
    let mut env = Env::new();
    let v = run(&mut env, "123");
    assert_eq!(v.as_ref(), &Value::Int(123));
    let v = run(&mut env, "(define a 123) a");
    assert_eq!(v.as_ref(), &Value::Int(123));
    let v = run(&mut env, "(+ 1 2)");
    assert_eq!(v.as_ref(), &Value::Int(3));
    let v = run(&mut env, "(define three (+ 1 2)) three");
    assert_eq!(v.as_ref(), &Value::Int(3));
    let v = run(&mut env, "(define three (+ 1 2)) (+ three (+ 3 4 5))");
    assert_eq!(v.as_ref(), &Value::Int(15));
}

#[test]
fn main_test_lambda() {
    let mut env = Env::new();
    let v = run(&mut env, "((lambda (a b) (+ a b)) 1 2)");
    assert_eq!(v.as_ref(), &Value::Int(3));
    let v = run(&mut env, "(define sum (lambda (a b) (+ a b))) (sum (sum 1 2) 3)");
    assert_eq!(v.as_ref(), &Value::Int(6));
}

#[test]
fn main_test_if() {
    let mut env = Env::new();
    let v = run(&mut env, "(if #t 1 2)");
    assert_eq!(v.as_ref(), &Value::Int(1));
    let v = run(&mut env, "(if #f 1 2)");
    assert_eq!(v.as_ref(), &Value::Int(2));
    let v = run(&mut env, "(if (eq? 1 (+ 1 1)) 1 2)");
    assert_eq!(v.as_ref(), &Value::Int(2));
    let v = run(
        &mut env,
        "(define fact (lambda (n) (if (eq? n 0) 1 (* n (fact (- n 1)))))) (fact 5)",
    );
    assert_eq!(v.as_ref(), &Value::Int(120));
}

#[test]
fn main_test_list() {
    let mut env = Env::new();
    let v = run(&mut env, "null");
    assert_eq!(v.as_ref(), &Value::Null);
    let v = run(&mut env, "(car (cons 1 2))");
    assert_eq!(v.as_ref(), &Value::Int(1));
    let v = run(&mut env, "(cdr (cons 1 2))");
    assert_eq!(v.as_ref(), &Value::Int(2));
    let v = run(&mut env, "(car (cdr (cons 1 (cons 2 null))))");
    assert_eq!(v.as_ref(), &Value::Int(2));
}

#[test]
fn main_test_quote() {
    let mut env = Env::new();
    let v = run(&mut env, "'()");
    assert_eq!(v.as_ref(), &Value::Null);
    let v = run(&mut env, "'123");
    assert_eq!(v.as_ref(), &Value::Int(123));
    let v = run(&mut env, "'abc");
    assert_eq!(v.as_ref(), &Value::Symbol("abc".to_string()));
    let v = run(&mut env, "(car '(1 2))");
    assert_eq!(v.as_ref(), &Value::Int(1));
    let v = run(&mut env, "(car (cdr '(1 2)))");
    assert_eq!(v.as_ref(), &Value::Int(2));
    let v = run(&mut env, "(car (car '('1)))");
    assert_eq!(v.as_ref(), &Value::Symbol("quote".to_string()));
    let v = run(&mut env, "(car (cdr (car '('1))))");
    assert_eq!(v.as_ref(), &Value::Int(1));
}

#[test]
fn main_test_list_op() {
    let mut env = Env::new();
    let v = run(&mut env, "'()");
    assert_eq!(v.as_ref(), &Value::Null);
    let v = run(&mut env, "'123");
    assert_eq!(v.as_ref(), &Value::Int(123));
    let v = run(&mut env, "'abc");
    assert_eq!(v.as_ref(), &Value::Symbol("abc".to_string()));
    let v = run(&mut env, "(car '(1 2))");
    assert_eq!(v.as_ref(), &Value::Int(1));
    let v = run(&mut env, "(car (cdr '(1 2)))");
    assert_eq!(v.as_ref(), &Value::Int(2));
    let v = run(&mut env, "(car (car '('1)))");
    assert_eq!(v.as_ref(), &Value::Symbol("quote".to_string()));
    let v = run(&mut env, "(car (cdr (car '('1))))");
    assert_eq!(v.as_ref(), &Value::Int(1));
}

#[test]
fn main_test_value_to_stirng() {
    let mut env = Env::new();
    let v = run(&mut env, "'()").to_string();
    assert_eq!(v, "'()".to_string());
    let v = run(&mut env, "123").to_string();
    assert_eq!(v, "123".to_string());
    let v = run(&mut env, "'(1 2 (3 4) 5)").to_string();
    assert_eq!(v, "'(1 2 (3 4) 5)".to_string());
    let v = run(&mut env, "(cons 1 2)").to_string();
    assert_eq!(v, "'(1 . 2)".to_string());
    let v = run(&mut env, "(cons '(1 2) (cons '(3 4) 5))").to_string();
    assert_eq!(v, "'((1 2) (3 4) . 5)".to_string());
}

#[test]
fn main_test_perm() {
    let mut env = Env::new();
    let v = run(
        &mut env,
        r###"
            (define map (lambda (f l)
                (if (null? l)
                    '()
                    (cons (f (car l)) (map f (cdr l))))))
            (define filter (lambda (f l)
                (if (null? l)
                    '()
                    (if (f (car l))
                        (cons (car l) (filter f (cdr l)))
                        (filter f (cdr l))))))
            (define append (lambda (a b)
                (if (null? a)
                    b
                    (cons (car a) (append (cdr a) b)))))
            (define flat (lambda (l)
                (if (null? l)
                    '()
                    (append (car l) (flat (cdr l))))))
            (define not (lambda (x) (if x #f #t)))
            (define perm (lambda (l)
                (if (null? l)
                    '(())
                    (flat (map (lambda (x)
                                (map (lambda (y) (cons x y)) (perm (filter (lambda (y) (not (eq? y x))) l))))
                            l)))))
            (perm '(1 2 3))
        "###,
    )
    .to_string();
    assert_eq!(v, "'((1 2 3) (1 3 2) (2 1 3) (2 3 1) (3 1 2) (3 2 1))".to_string());
}

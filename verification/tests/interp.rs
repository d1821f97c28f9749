use std::rc::Rc;

use fancy_schemers::env::Env;
use fancy_schemers::eval::Interpreter;
use fancy_schemers::value::Value;

fn run(env: &mut Env, src: &str) -> Rc<Value> {
    let mut out = String::new();
    env.eval(src, &mut out).unwrap()
}

#[test]
fn test_eval() {
    let mut env = Env::new();
    let v = run(&mut env, "123");
    assert_eq!(v.as_ref(), &Value::Int(123));
    let v = run(&mut env, "(define a 123) a");
    assert_eq!(v.as_ref(), &Value::Int(123));
    let v = run(&mut env, "(+ 1 2)");
    assert_eq!(v.as_ref(), &Value::Int(3));
    let v = run(&mut env, "(define three (+ 1 2)) three");
    assert_eq!(v.as_ref(), &Value::Int(3));
    let v = run(&mut env, "(define three (+ 1 2)) (+ three (+ 3 4 5))");
    assert_eq!(v.as_ref(), &Value::Int(15));
}

#[test]
fn test_lambda() {
    let mut env = Env::new();
    let v = run(&mut env, "((lambda (a b) (+ a b)) 1 2)");
    assert_eq!(v.as_ref(), &Value::Int(3));
    let v = run(&mut env, "(define sum (lambda (a b) (+ a b))) (sum (sum 1 2) 3)");
    assert_eq!(v.as_ref(), &Value::Int(6));
}

#[test]
fn test_if() {
    let mut env = Env::new();
    let v = run(&mut env, "(if #t 1 2)");
    assert_eq!(v.as_ref(), &Value::Int(1));
    let v = run(&mut env, "(if #f 1 2)");
    assert_eq!(v.as_ref(), &Value::Int(2));
    let v = run(&mut env, "(if (eq? 1 (+ 1 1)) 1 2)");
    assert_eq!(v.as_ref(), &Value::Int(2));
    let v = run(
        &mut env,
        "(define fact (lambda (n) (if (eq? n 0) 1 (* n (fact (- n 1)))))) (fact 5)",
    );
    assert_eq!(v.as_ref(), &Value::Int(120));
}

#[test]
fn test_list() {
    let mut env = Env::new();
    let v = run(&mut env, "null");
    assert_eq!(v.as_ref(), &Value::Null);
    let v = run(&mut env, "(car (cons 1 2))");
    assert_eq!(v.as_ref(), &Value::Int(1));
    let v = run(&mut env, "(cdr (cons 1 2))");
    assert_eq!(v.as_ref(), &Value::Int(2));
    let v = run(&mut env, "(car (cdr (cons 1 (cons 2 null))))");
    assert_eq!(v.as_ref(), &Value::Int(2));
}

#[test]
fn test_quote() {
    let mut env = Env::new();
    let v = run(&mut env, "'()");
    assert_eq!(v.as_ref(), &Value::Null);
    let v = run(&mut env, "'123");
    assert_eq!(v.as_ref(), &Value::Int(123));
    let v = run(&mut env, "'abc");
    assert_eq!(v.as_ref(), &Value::Symbol("abc".to_string()));
    let v = run(&mut env, "(car '(1 2))");
    assert_eq!(v.as_ref(), &Value::Int(1));
    let v = run(&mut env, "(car (cdr '(1 2)))");
    assert_eq!(v.as_ref(), &Value::Int(2));
    let v = run(&mut env, "(car (car '('1)))");
    assert_eq!(v.as_ref(), &Value::Symbol("quote".to_string()));
    let v = run(&mut env, "(car (cdr (car '('1))))");
    assert_eq!(v.as_ref(), &Value::Int(1));
}

#[test]
fn test_list_op() {
    let mut env = Env::new();
    let v = run(&mut env, "'()");
    assert_eq!(v.as_ref(), &Value::Null);
    let v = run(&mut env, "'123");
    assert_eq!(v.as_ref(), &Value::Int(123));
    let v = run(&mut env, "'abc");
    assert_eq!(v.as_ref(), &Value::Symbol("abc".to_string()));
    let v = run(&mut env, "(car '(1 2))");
    assert_eq!(v.as_ref(), &Value::Int(1));
    let v = run(&mut env, "(car (cdr '(1 2)))");
    assert_eq!(v.as_ref(), &Value::Int(2));
    let v = run(&mut env, "(car (car '('1)))");
    assert_eq!(v.as_ref(), &Value::Symbol("quote".to_string()));
    let v = run(&mut env, "(car (cdr (car '('1))))");
    assert_eq!(v.as_ref(), &Value::Int(1));
}

#[test]
fn test_value_to_stirng() {
    let mut env = Env::new();
    let v = run(&mut env, "'()").to_string();
    assert_eq!(v, "'()".to_string());
    let v = run(&mut env, "123").to_string();
    assert_eq!(v, "123".to_string());
    let v = run(&mut env, "'(1 2 (3 4) 5)").to_string();
    assert_eq!(v, "'(1 2 (3 4) 5)".to_string());
    let v = run(&mut env, "(cons 1 2)").to_string();
    assert_eq!(v, "'(1 . 2)".to_string());
    let v = run(&mut env, "(cons '(1 2) (cons '(3 4) 5))").to_string();
    assert_eq!(v, "'((1 2) (3 4) . 5)".to_string());
}

#[test]
fn test_perm() {
    let mut env = Env::new();
    let v = run(
        &mut env,
        r###"
            (define perm (lambda (l)
                (if (null? l)
                    '(())
                    (flat (map (lambda (x)
                                (map (lambda (y) (cons x y)) (perm (filter (lambda (y) (not (eq? y x))) l))))
                            l)))))
            (perm '(1 2 3))
        "###,
    )
    .to_string();
    assert_eq!(v, "'((1 2 3) (1 3 2) (2 1 3) (2 3 1) (3 1 2) (3 2 1))".to_string());
}

#[test]
fn test_tail_recursion() {
    let mut env = Env::new();
    let v = run(
        &mut env,
        r###"
        (define f (lambda (n res) (if (eq? n 0) res (f (- n 1) (+ 1 res)))))
        (f 10000 0)
        "###,
    )
    .to_string();
    assert_eq!(v, "10000".to_string());
}

#[test]
fn test_multi_arg_lambda() {
    let mut env = Env::new();
    let v = run(
        &mut env,
        r###"
        (define f (lambda x (car x)))
        (f 1 2)
        "###,
    )
    .to_string();
    assert_eq!(v, "1".to_string());
    let v = run(
        &mut env,
        r###"
        (define f (lambda x (cdr x)))
        (f 1 2)
        "###,
    )
    .to_string();
    assert_eq!(v, "'(2)".to_string());
}

#[test]
fn test_dot() {
    let mut env = Env::new();
    let v = run(
        &mut env,
        r###"
        (define f (lambda (x . y) (car y)))
        (f 1 2 3)
        "###,
    )
    .to_string();
    assert_eq!(v, "2".to_string());
}

#[test]
fn test_define_function() {
    let mut env = Env::new();
    let v = run(
        &mut env,
        r###"
        (define (f x y) (+ x y))
        (f 1 2)
        "###,
    )
    .to_string();
    assert_eq!(v, "3".to_string());
    let v = run(
        &mut env,
        r###"
        (define (f . x) (cdr x))
        (f 1 2)
        "###,
    )
    .to_string();
    assert_eq!(v, "'(2)".to_string());
}

#[test]
fn test_define_macro() {
    let mut env = Env::new();
    let v = run(
        &mut env,
        r###"
        (defmacro (and a b) (cons 'if (cons a (cons b (cons '#f null)))))
        (and (eq? 1 1) (eq? 1 2))
        "###,
    )
    .to_string();
    assert_eq!(v, "#f".to_string());

    let v = run(
        &mut env,
        r###"
        (defmacro (and a b) `(if ,a ,b #f))
        (and (eq? 1 1) (eq? 1 2))
        "###,
    )
    .to_string();
    assert_eq!(v, "#f".to_string());

    let v = run(
        &mut env,
        r###"
        (defmacro (let bindings . body)
            `((lambda ,(map car bindings) . ,body)
                . ,(map (lambda (x) (cadr x)) bindings)))
        (let ((x 1)
              (y 2)) (+ x y))
        "###,
    )
    .to_string();
    assert_eq!(v, "3".to_string());
}

#[test]
fn test_multi_exp_function() {
    let mut env = Env::new();
    let v = run(
        &mut env,
        r###"
        (define (f) 1 2)
        (f)
        "###,
    )
    .to_string();
    assert_eq!(v, "2".to_string());

    let v = run(
        &mut env,
        r###"
        (define f (lambda () 1 2))
        (f)
        "###,
    )
    .to_string();
    assert_eq!(v, "2".to_string());
}

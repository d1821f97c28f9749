//! Unit tests of the library's pieces: the lexer, the reader, the
//! environment store, and the primitives.
use std::rc::Rc;

use fancy_schemers::env::Env;
use fancy_schemers::eval::apply_built_in_function;
use fancy_schemers::lex::{tokenize, Token};
use fancy_schemers::parser::parse;
use fancy_schemers::value::{BuiltInFunType, Value};

#[test]
fn test_tokenize_units() {
    let toks = tokenize("(foo . -12)");
    assert_eq!(
        toks,
        vec![
            Token::LeftParen,
            Token::Symbol("foo".to_string()),
            Token::Dot,
            Token::Symbol("-12".to_string()),
            Token::RightParen,
        ]
    );
    let toks = tokenize("`(,x)");
    assert_eq!(
        toks,
        vec![
            Token::Backquote,
            Token::LeftParen,
            Token::Comma,
            Token::Symbol("x".to_string()),
            Token::RightParen,
        ]
    );
    let toks = tokenize("a.b 'c");
    assert_eq!(
        toks,
        vec![
            Token::Symbol("a.b".to_string()),
            Token::Quote,
            Token::Symbol("c".to_string()),
        ]
    );
    assert_eq!(tokenize("  \t\n"), vec![]);
}

#[test]
fn test_parse_units() {
    let pr = parse("(+ 1 2) #t").unwrap();
    assert_eq!(pr.exps.len(), 2);
    assert_eq!(pr.exps[1].as_ref(), &Value::Bool(true));
    assert_eq!(
        pr.exps[0].as_ref(),
        &Value::Pair(
            Rc::new(Value::Symbol("+".to_string())),
            Rc::new(Value::Pair(
                Rc::new(Value::Int(1)),
                Rc::new(Value::Pair(Rc::new(Value::Int(2)), Rc::new(Value::Null))),
            )),
        )
    );
    assert!(parse("(").is_err());
    assert!(parse("'x").is_ok());
    assert_eq!(parse("").unwrap().exps.len(), 0);
}

#[test]
fn test_env_store_units() {
    let mut env = Env::new();
    let child = env.new_with_parent(0);
    env.set(child, "x", Rc::new(Value::Int(1)));
    assert_eq!(env.get(child, "x").unwrap().as_ref(), &Value::Int(1));
    assert!(env.get(0, "x").is_none());
    // A write into another frame never changes what the child sees.
    env.set(0, "x", Rc::new(Value::Int(2)));
    assert_eq!(env.get(child, "x").unwrap().as_ref(), &Value::Int(1));
    // Lookup falls back to the parent chain.
    env.set(0, "y", Rc::new(Value::Int(3)));
    assert_eq!(env.get(child, "y").unwrap().as_ref(), &Value::Int(3));
    // The last write to a frame wins.
    env.set(child, "x", Rc::new(Value::Int(9)));
    assert_eq!(env.get(child, "x").unwrap().as_ref(), &Value::Int(9));
}

#[test]
fn test_builtin_units() {
    let mut out = String::new();
    let r = apply_built_in_function(
        BuiltInFunType::Add,
        vec![Rc::new(Value::Int(1)), Rc::new(Value::Int(2))],
        &mut out,
    )
    .unwrap();
    assert_eq!(r.as_ref(), &Value::Int(3));
    let r = apply_built_in_function(
        BuiltInFunType::Sub,
        vec![Rc::new(Value::Int(1)), Rc::new(Value::Int(2))],
        &mut out,
    )
    .unwrap();
    assert_eq!(r.as_ref(), &Value::Int(-1));
    assert!(apply_built_in_function(BuiltInFunType::Car, vec![Rc::new(Value::Int(1))], &mut out)
        .is_err());
    assert_eq!(out, "".to_string());
    let r = apply_built_in_function(
        BuiltInFunType::Display,
        vec![Rc::new(Value::Bool(false))],
        &mut out,
    )
    .unwrap();
    assert_eq!(r.as_ref(), &Value::Void);
    assert_eq!(out, "#f".to_string());
}

//! The reader: turns the token stream into value trees.
use vstd::prelude::*;
use std::rc::Rc;

use crate::lex::{tokenize, spec_tokenize, token_views, SpecToken, Token};
use crate::value::{spec_list, views_of, SpecValue, Value};

verus! {

/// Malformed source: unclosed list, stray `)` or `.`, or a datum cut short.
#[derive(Debug, PartialEq, Eq)]
pub struct ParseError {
    pub msg: String,
}

/// The top-level expressions read from a source text.
#[derive(Debug, PartialEq)]
pub struct ParseResult {
    pub exps: Vec<Rc<Value>>,
}

/// The value of a decimal digit character, `-1` for any other character.
pub open spec fn spec_digit_val(c: char) -> int {
    if c == '0' {
        0
    } else if c == '1' {
        1
    } else if c == '2' {
        2
    } else if c == '3' {
        3
    } else if c == '4' {
        4
    } else if c == '5' {
        5
    } else if c == '6' {
        6
    } else if c == '7' {
        7
    } else if c == '8' {
        8
    } else if c == '9' {
        9
    } else {
        -1
    }
}

/// Whether every character of `s` is a decimal digit.
pub open spec fn spec_all_digits(s: Seq<char>) -> bool {
    forall|k: int| 0 <= k < s.len() ==> spec_digit_val(s[k]) >= 0
}

/// The numeric value of a digit string.
pub open spec fn spec_digits_val(s: Seq<char>) -> int
    decreases s.len(),
{
    if s.len() == 0 {
        0
    } else {
        spec_digits_val(s.drop_last()) * 10 + spec_digit_val(s.last())
    }
}

/// The signed 64-bit integer a symbol's text denotes, if its entire content
/// is an optional sign followed by one or more decimal digits and the value
/// fits; `None` otherwise.
pub open spec fn spec_int_of(s: Seq<char>) -> Option<int> {
    let signed = s.len() > 0 && (s[0] == '-' || s[0] == '+');
    let digits = if signed {
        s.drop_first()
    } else {
        s
    };
    if digits.len() == 0 || !spec_all_digits(digits) {
        None
    } else {
        let v = if s[0] == '-' {
            -spec_digits_val(digits)
        } else {
            spec_digits_val(digits)
        };
        if i64::MIN <= v <= i64::MAX {
            Some(v)
        } else {
            None
        }
    }
}

/// The value a lone symbol token denotes: a boolean literal, an integer
/// literal, or the symbol itself.
pub open spec fn spec_symbol_value(s: Seq<char>) -> SpecValue {
    if s == "#t"@ {
        SpecValue::Bool(true)
    } else if s == "#f"@ {
        SpecValue::Bool(false)
    } else {
        match spec_int_of(s) {
            Some(v) => SpecValue::Int(v),
            None => SpecValue::Symbol(s),
        }
    }
}

/// The symbol a quote-family token abbreviates.
pub open spec fn spec_sugar_name(t: SpecToken) -> Seq<char> {
    match t {
        SpecToken::Quote => "quote"@,
        SpecToken::Backquote => "quasiquote"@,
        _ => "unquote"@,
    }
}

/// Reads one datum from the front of `toks`; yields the datum and the
/// remaining tokens. `None` on malformed input.
pub open spec fn spec_parse_one(toks: Seq<SpecToken>) -> Option<(SpecValue, Seq<SpecToken>)>
    decreases toks.len(), 0int,
{
    if toks.len() == 0 {
        None
    } else {
        match toks.first() {
            SpecToken::LeftParen => match spec_parse_list(toks.drop_first()) {
                Some((elems, tail, rest)) => Some((spec_list(elems, tail), rest)),
                None => None,
            },
            SpecToken::RightParen => None,
            SpecToken::Dot => None,
            SpecToken::Symbol(s) => Some((spec_symbol_value(s), toks.drop_first())),
            _ => match spec_parse_one(toks.drop_first()) {
                Some((v, rest)) => Some(
                    (
                        spec_list(
                            seq![SpecValue::Symbol(spec_sugar_name(toks.first())), v],
                            SpecValue::Null,
                        ),
                        rest,
                    ),
                ),
                None => None,
            },
        }
    }
}

/// Reads the remainder of a list after its `(`: the elements, the tail
/// value (`Null` unless a dotted ending names another), and the tokens
/// after the closing `)`.
pub open spec fn spec_parse_list(toks: Seq<SpecToken>) -> Option<
    (Seq<SpecValue>, SpecValue, Seq<SpecToken>),
>
    decreases toks.len(), 1int,
{
    if toks.len() == 0 {
        None
    } else if toks.first() is RightParen {
        Some((Seq::empty(), SpecValue::Null, toks.drop_first()))
    } else if toks.first() is Dot {
        match spec_parse_one(toks.drop_first()) {
            Some((tail, rest)) => if rest.len() > 0 && rest.first() is RightParen {
                Some((Seq::empty(), tail, rest.drop_first()))
            } else {
                None
            },
            None => None,
        }
    } else {
        match spec_parse_one(toks) {
            Some((v, rest)) => if rest.len() < toks.len() {
                match spec_parse_list(rest) {
                    Some((elems, tail, rest2)) => Some((seq![v] + elems, tail, rest2)),
                    None => None,
                }
            } else {
                None
            },
            None => None,
        }
    }
}

/// Reads a whole token stream as a sequence of top-level data.
pub open spec fn spec_parse_all(toks: Seq<SpecToken>) -> Option<Seq<SpecValue>>
    decreases toks.len(),
{
    if toks.len() == 0 {
        Some(Seq::empty())
    } else {
        match spec_parse_one(toks) {
            Some((v, rest)) => if rest.len() < toks.len() {
                match spec_parse_all(rest) {
                    Some(vs) => Some(seq![v] + vs),
                    None => None,
                }
            } else {
                None
            },
            None => None,
        }
    }
}

/// Reading one datum consumes at least one token.
pub proof fn lemma_parse_one_consumes(toks: Seq<SpecToken>)
    ensures
        spec_parse_one(toks) matches Some((v, rest)) ==> rest.len() < toks.len(),
    decreases toks.len(), 0int,
{
    if toks.len() > 0 {
        match toks.first() {
            SpecToken::LeftParen => {
                lemma_parse_list_consumes(toks.drop_first());
            },
            SpecToken::RightParen => {},
            SpecToken::Dot => {},
            SpecToken::Symbol(s) => {},
            _ => {
                lemma_parse_one_consumes(toks.drop_first());
            },
        }
    }
}

/// Reading a list remainder consumes at least its closing parenthesis.
pub proof fn lemma_parse_list_consumes(toks: Seq<SpecToken>)
    ensures
        spec_parse_list(toks) matches Some((elems, tail, rest)) ==> rest.len() < toks.len(),
    decreases toks.len(), 1int,
{
    if toks.len() > 0 {
        if toks.first() is RightParen {
        } else if toks.first() is Dot {
            lemma_parse_one_consumes(toks.drop_first());
        } else {
            lemma_parse_one_consumes(toks);
            match spec_parse_one(toks) {
                Some((v, rest)) => {
                    if rest.len() < toks.len() {
                        lemma_parse_list_consumes(rest);
                    }
                },
                None => {},
            }
        }
    }
}

/// Once a digit prefix is too large, the whole digit string is too large.
proof fn lemma_digits_val_prefix_grows(s: Seq<char>, k: int)
    requires
        spec_all_digits(s),
        0 <= k <= s.len(),
    ensures
        spec_digits_val(s.take(k)) <= spec_digits_val(s),
        spec_digits_val(s) >= 0,
    decreases s.len() - k,
{
    if k == s.len() {
        assert(s.take(k) =~= s);
        lemma_digits_val_nonneg(s);
    } else {
        lemma_digits_val_prefix_grows(s, k + 1);
        lemma_digits_val_nonneg(s.take(k));
        assert(s.take(k + 1).drop_last() =~= s.take(k));
        assert(spec_digits_val(s.take(k + 1)) == spec_digits_val(s.take(k)) * 10 + spec_digit_val(
            s[k],
        ));
        assert(spec_digits_val(s.take(k)) <= spec_digits_val(s.take(k)) * 10) by (nonlinear_arith)
            requires
                spec_digits_val(s.take(k)) >= 0,
        ;
    }
}

/// A digit string's value is never negative.
proof fn lemma_digits_val_nonneg(s: Seq<char>)
    requires
        spec_all_digits(s),
    ensures
        spec_digits_val(s) >= 0,
    decreases s.len(),
{
    if s.len() > 0 {
        assert(spec_all_digits(s.drop_last()));
        lemma_digits_val_nonneg(s.drop_last());
        assert(spec_digits_val(s.drop_last()) * 10 >= 0) by (nonlinear_arith)
            requires
                spec_digits_val(s.drop_last()) >= 0,
        ;
    }
}

/// The value of a decimal digit character, if it is one.
fn digit_val(c: char) -> (r: Option<u64>)
    ensures
        match r {
            Some(d) => spec_digit_val(c) == d as int && d < 10,
            None => spec_digit_val(c) < 0,
        },
{
    match c {
        '0' => Some(0),
        '1' => Some(1),
        '2' => Some(2),
        '3' => Some(3),
        '4' => Some(4),
        '5' => Some(5),
        '6' => Some(6),
        '7' => Some(7),
        '8' => Some(8),
        '9' => Some(9),
        _ => None,
    }
}

/// Reads a symbol's text as a signed 64-bit integer when its entire
/// content is one.
fn parse_i64(s: &str) -> (r: Option<i64>)
    ensures
        match r {
            Some(v) => spec_int_of(s@) == Some(v as int),
            None => spec_int_of(s@) is None,
        },
{
    let n: usize = s.unicode_len();
    if n == 0 {
        return None;
    }
    let c0: char = s.get_char(0);
    let neg: bool = c0 == '-';
    let start: usize = if c0 == '-' || c0 == '+' {
        1
    } else {
        0
    };
    let ghost digits = if start == 1 {
        s@.drop_first()
    } else {
        s@
    };
    if n == start {
        proof {
            assert(digits.len() == 0);
        }
        return None;
    }
    let limit: u64 = if neg {
        9223372036854775808
    } else {
        9223372036854775807
    };
    let mut acc: u64 = 0;
    let mut i: usize = start;
    proof {
        assert(digits =~= s@.skip(start as int));
        assert(digits.take(0) =~= Seq::<char>::empty());
    }
    while i < n
        invariant
            start <= i <= n,
            n == s@.len(),
            n > 0,
            start == 0 || start == 1,
            (start == 1) <==> (s@[0] == '-' || s@[0] == '+'),
            digits == (if s@[0] == '-' || s@[0] == '+' {
                s@.drop_first()
            } else {
                s@
            }),
            digits == s@.skip(start as int),
            digits.len() == n - start,
            acc <= limit,
            limit == if neg {
                9223372036854775808u64
            } else {
                9223372036854775807u64
            },
            neg ==> start == 1 && s@[0] == '-',
            !neg ==> s@.len() > 0 && s@[0] != '-',
            spec_all_digits(digits.take(i - start)),
            acc as int == spec_digits_val(digits.take(i - start)),
        decreases n - i,
    {
        let c: char = s.get_char(i);
        proof {
            assert(digits[i - start] == c);
        }
        match digit_val(c) {
            None => {
                proof {
                    assert(!spec_all_digits(digits));
                    assert(spec_int_of(s@) is None);
                }
                return None;
            },
            Some(d) => {
                let ghost k = i - start;
                proof {
                    assert(digits.take(k + 1).drop_last() =~= digits.take(k));
                    assert(digits.take(k + 1).last() == c);
                    assert(spec_all_digits(digits.take(k + 1)));
                }
                if acc > (limit - d) / 10 {
                    // The value can only grow with further digits.
                    proof {
                        assert(acc * 10 + d > limit) by (nonlinear_arith)
                            requires
                                acc > (limit - d) / 10,
                                d < 10,
                                d <= limit,
                                acc >= 0,
                                limit > 0,
                        ;
                        assert(spec_digits_val(digits.take(k + 1)) > limit);
                        if spec_all_digits(digits) {
                            lemma_digits_val_prefix_grows(digits, k + 1);
                            assert(spec_digits_val(digits) > limit);
                            if s@[0] == '-' {
                                assert(-spec_digits_val(digits) < i64::MIN);
                            } else {
                                assert(spec_digits_val(digits) > i64::MAX);
                            }
                        }
                        assert(spec_int_of(s@) is None);
                    }
                    return None;
                }
                proof {
                    assert(acc * 10 + d <= limit) by (nonlinear_arith)
                        requires
                            acc <= (limit - d) / 10,
                            d < 10,
                            d <= limit,
                            acc >= 0,
                    ;
                }
                acc = acc * 10 + d;
                proof {
                    assert(acc as int == spec_digits_val(digits.take(k + 1)));
                }
            },
        }
        i = i + 1;
    }
    proof {
        assert(digits.take(n - start) =~= digits);
        assert(spec_all_digits(digits));
        assert(acc as int == spec_digits_val(digits));
    }
    if neg {
        if acc == 9223372036854775808 {
            Some(i64::MIN)
        } else {
            Some(-(acc as i64))
        }
    } else {
        Some(acc as i64)
    }
}

/// The value a symbol token stands for: `#t`, `#f`, an integer literal,
/// or the symbol itself.
fn symbol_value(s: String) -> (r: Value)
    ensures
        r@ == spec_symbol_value(s@),
{
    proof {
        reveal_strlit("#t");
        reveal_strlit("#f");
    }
    let n: usize = s.as_str().unicode_len();
    if n == 2 && s.as_str().get_char(0) == '#' {
        let c1: char = s.as_str().get_char(1);
        if c1 == 't' {
            proof {
                assert(s@ =~= "#t"@);
            }
            return Value::Bool(true);
        }
        if c1 == 'f' {
            proof {
                assert(s@ =~= "#f"@);
            }
            return Value::Bool(false);
        }
    }
    proof {
        assert(s@ != "#t"@ && s@ != "#f"@);
    }
    match parse_i64(s.as_str()) {
        Some(v) => Value::Int(v),
        None => Value::Symbol(s),
    }
}

fn parse_fail(text: &str) -> ParseError {
    ParseError { msg: String::from_str(text) }
}

/// Reads one datum starting at token `pos`.
fn parse_one(tokens: &Vec<Token>, pos: usize) -> (r: Result<(Rc<Value>, usize), ParseError>)
    requires
        pos <= tokens@.len(),
    ensures
        match r {
            Ok(p) => pos < p.1 <= tokens@.len() && spec_parse_one(
                token_views(tokens@).skip(pos as int),
            ) == Some((p.0@, token_views(tokens@).skip(p.1 as int))),
            Err(e) => spec_parse_one(token_views(tokens@).skip(pos as int)) is None,
        },
    decreases tokens@.len() - pos, 0int,
{
    let ghost toks = token_views(tokens@).skip(pos as int);
    proof {
        assert(token_views(tokens@).len() == tokens@.len());
    }
    if pos >= tokens.len() {
        return Err(parse_fail("unexpected end of input"));
    }
    proof {
        assert(toks.first() == tokens@[pos as int]@);
        assert(toks.drop_first() =~= token_views(tokens@).skip(pos as int + 1));
    }
    match &tokens[pos] {
        Token::LeftParen => {
            let (elems, tail, next) = parse_list(tokens, pos + 1)?;
            let mut v: Rc<Value> = tail;
            let mut k: usize = elems.len();
            proof {
                assert(views_of(elems@).skip(k as int) =~= Seq::<SpecValue>::empty());
            }
            while k > 0
                invariant
                    k <= elems@.len(),
                    v@ == spec_list(views_of(elems@).skip(k as int), tail@),
                decreases k,
            {
                let ghost before = views_of(elems@).skip(k as int);
                v = Rc::new(Value::Pair(crate::value::rc_dup(&elems[k - 1]), v));
                k = k - 1;
                proof {
                    assert(views_of(elems@).skip(k as int).drop_first() =~= before);
                    assert(views_of(elems@).skip(k as int)[0] == elems@[k as int]@);
                }
            }
            proof {
                assert(views_of(elems@).skip(0) =~= views_of(elems@));
            }
            Ok((v, next))
        },
        Token::RightParen => Err(parse_fail("unexpected token )")),
        Token::Dot => Err(parse_fail("unexpected token .")),
        Token::Symbol(s) => {
            let v = symbol_value(s.clone());
            Ok((Rc::new(v), pos + 1))
        },
        _ => {
            let name: &str = match &tokens[pos] {
                Token::Quote => "quote",
                Token::Backquote => "quasiquote",
                _ => "unquote",
            };
            let sym = String::from_str(name);
            proof {
                assert(sym@ == spec_sugar_name(toks.first()));
            }
            let (inner, next) = parse_one(tokens, pos + 1)?;
            let ghost iv = inner@;
            let v = Rc::new(
                Value::Pair(
                    Rc::new(Value::Symbol(sym)),
                    Rc::new(Value::Pair(inner, Rc::new(Value::Null))),
                ),
            );
            proof {
                reveal_with_fuel(spec_list, 3);
                reveal_with_fuel(crate::value::value_model, 4);
                let items = seq![SpecValue::Symbol(spec_sugar_name(toks.first())), iv];
                assert(items.drop_first() =~= seq![iv]);
                assert(items.drop_first().drop_first() =~= Seq::<SpecValue>::empty());
                assert(v@ == spec_list(items, SpecValue::Null));
            }
            Ok((v, next))
        },
    }
}

/// Reads the remainder of a list, after its opening parenthesis.
fn parse_list(tokens: &Vec<Token>, pos: usize) -> (r: Result<
    (Vec<Rc<Value>>, Rc<Value>, usize),
    ParseError,
>)
    requires
        pos <= tokens@.len(),
    ensures
        match r {
            Ok(p) => pos < p.2 <= tokens@.len() && spec_parse_list(
                token_views(tokens@).skip(pos as int),
            ) == Some((views_of(p.0@), p.1@, token_views(tokens@).skip(p.2 as int))),
            Err(e) => spec_parse_list(token_views(tokens@).skip(pos as int)) is None,
        },
    decreases tokens@.len() - pos, 1int,
{
    let ghost toks = token_views(tokens@).skip(pos as int);
    proof {
        assert(token_views(tokens@).len() == tokens@.len());
    }
    if pos >= tokens.len() {
        return Err(parse_fail("expected ), found end of input"));
    }
    proof {
        assert(toks.first() == tokens@[pos as int]@);
        assert(toks.drop_first() =~= token_views(tokens@).skip(pos as int + 1));
    }
    match &tokens[pos] {
        Token::RightParen => {
            proof {
                assert(views_of(Seq::<Rc<Value>>::empty()) =~= Seq::<SpecValue>::empty());
            }
            Ok((Vec::new(), Rc::new(Value::Null), pos + 1))
        },
        Token::Dot => {
            let (tail, next) = parse_one(tokens, pos + 1)?;
            proof {
                assert(token_views(tokens@).skip(next as int).len() > 0 ==> token_views(
                    tokens@,
                ).skip(next as int).first() == tokens@[next as int]@);
            }
            if next < tokens.len() {
                match &tokens[next] {
                    Token::RightParen => {
                        proof {
                            assert(token_views(tokens@).skip(next as int).drop_first()
                                =~= token_views(tokens@).skip(next as int + 1));
                            assert(views_of(Seq::<Rc<Value>>::empty())
                                =~= Seq::<SpecValue>::empty());
                        }
                        Ok((Vec::new(), tail, next + 1))
                    },
                    _ => Err(parse_fail("expected ) after dotted tail")),
                }
            } else {
                Err(parse_fail("expected ) after dotted tail"))
            }
        },
        _ => {
            let (v, rest) = parse_one(tokens, pos)?;
            proof {
                lemma_parse_one_consumes(toks);
            }
            let (mut elems, tail, next) = parse_list(tokens, rest)?;
            let ghost elems_before = elems@;
            elems.insert(0, v);
            proof {
                assert(views_of(elems@) =~= seq![v@] + views_of(elems_before));
            }
            Ok((elems, tail, next))
        },
    }
}

/// A value the reader can reproduce: no procedure, primitive or `Void`
/// anywhere, integers within the 64-bit range, and no symbol whose text
/// reads back as a boolean or integer literal.
pub open spec fn spec_readable(v: SpecValue) -> bool
    decreases v,
{
    match v {
        SpecValue::Int(i) => i64::MIN <= i <= i64::MAX,
        SpecValue::Bool(b) => true,
        SpecValue::Null => true,
        SpecValue::Symbol(s) => s != "#t"@ && s != "#f"@ && spec_int_of(s) is None,
        SpecValue::Pair(a, d) => spec_readable(*a) && spec_readable(*d),
        _ => false,
    }
}

/// The token rendering of a value's unquoted external form.
pub open spec fn spec_print_tokens(v: SpecValue) -> Seq<SpecToken>
    decreases v, 1int,
{
    match v {
        SpecValue::Int(i) => seq![SpecToken::Symbol(crate::value::spec_int_str(i))],
        SpecValue::Bool(b) => seq![
            SpecToken::Symbol(
                if b {
                    "#t"@
                } else {
                    "#f"@
                },
            ),
        ],
        SpecValue::Symbol(s) => seq![SpecToken::Symbol(s)],
        SpecValue::Null => seq![SpecToken::LeftParen] + spec_print_items_tokens(v) + seq![
            SpecToken::RightParen,
        ],
        SpecValue::Pair(a, d) => seq![SpecToken::LeftParen] + spec_print_items_tokens(v) + seq![
            SpecToken::RightParen,
        ],
        _ => Seq::empty(),
    }
}

/// The token rendering of a pair chain's items, dotted ending included.
pub open spec fn spec_print_items_tokens(v: SpecValue) -> Seq<SpecToken>
    decreases v, 0int,
{
    match v {
        SpecValue::Pair(a, d) => match *d {
            SpecValue::Null => spec_print_tokens(*a),
            SpecValue::Pair(x, y) => spec_print_tokens(*a) + spec_print_items_tokens(*d),
            _ => spec_print_tokens(*a) + seq![SpecToken::Dot] + spec_print_tokens(*d),
        },
        _ => Seq::empty(),
    }
}

/// The elements of a pair chain, up to its dotted ending.
pub open spec fn chain_elems(v: SpecValue) -> Seq<SpecValue>
    decreases v,
{
    match v {
        SpecValue::Pair(a, d) => match *d {
            SpecValue::Pair(x, y) => seq![*a] + chain_elems(*d),
            _ => seq![*a],
        },
        _ => Seq::empty(),
    }
}

/// What a pair chain ends in: `Null` for a proper list.
pub open spec fn chain_tail(v: SpecValue) -> SpecValue
    decreases v,
{
    match v {
        SpecValue::Pair(a, d) => match *d {
            SpecValue::Pair(x, y) => chain_tail(*d),
            _ => *d,
        },
        _ => v,
    }
}

/// A pair chain is the list of its elements over its tail.
proof fn lemma_chain(v: SpecValue)
    requires
        v is Pair || v is Null,
    ensures
        spec_list(chain_elems(v), chain_tail(v)) == v,
    decreases v,
{
    match v {
        SpecValue::Pair(a, d) => {
            match *d {
                SpecValue::Pair(x, y) => {
                    lemma_chain(*d);
                    assert((seq![*a] + chain_elems(*d)).drop_first() =~= chain_elems(*d));
                },
                _ => {
                    assert(seq![*a].drop_first() =~= Seq::<SpecValue>::empty());
                },
            }
        },
        _ => {},
    }
}

/// The decimal digits of `n` are digits, and they denote `n`.
proof fn lemma_dec_digits_val(n: nat)
    ensures
        crate::value::spec_dec_digits(n).len() >= 1,
        spec_all_digits(crate::value::spec_dec_digits(n)),
        spec_digits_val(crate::value::spec_dec_digits(n)) == n,
    decreases n,
{
    let dd = crate::value::spec_dec_digits(n);
    assert(spec_digits_val(Seq::<char>::empty()) == 0);
    if n < 10 {
        assert(dd == seq![crate::value::spec_digit_char(n as int)]);
        assert(spec_digit_val(crate::value::spec_digit_char(n as int)) == n);
        assert(dd.drop_last() =~= Seq::<char>::empty());
        assert(dd.last() == crate::value::spec_digit_char(n as int));
        assert(spec_digits_val(dd) == spec_digits_val(dd.drop_last()) * 10 + spec_digit_val(
            dd.last(),
        ));
        assert(spec_all_digits(dd));
    } else {
        lemma_dec_digits_val(n / 10);
        let prefix = crate::value::spec_dec_digits(n / 10);
        assert(dd == prefix.push(crate::value::spec_digit_char((n % 10) as int)));
        assert(dd.drop_last() =~= prefix);
        assert(spec_digit_val(crate::value::spec_digit_char((n % 10) as int)) == n % 10);
        assert(spec_all_digits(dd));
        assert(spec_digits_val(dd) == spec_digits_val(prefix) * 10 + n % 10);
        assert((n / 10) * 10 + n % 10 == n) by (nonlinear_arith);
    }
}

/// Reading back a printed integer gives the integer.
proof fn lemma_int_round_trip(i: int)
    requires
        i64::MIN <= i <= i64::MAX,
    ensures
        spec_int_of(crate::value::spec_int_str(i)) == Some(i),
        crate::value::spec_int_str(i) != "#t"@,
        crate::value::spec_int_str(i) != "#f"@,
    decreases 0int,
{
    reveal_strlit("#t");
    reveal_strlit("#f");
    let s = crate::value::spec_int_str(i);
    if i < 0 {
        let dd = crate::value::spec_dec_digits((-i) as nat);
        lemma_dec_digits_val((-i) as nat);
        assert(s == seq!['-'] + dd);
        assert(s[0] == '-');
        assert(s.drop_first() =~= dd);
        assert(spec_int_of(s) == Some(i));
    } else {
        let dd = crate::value::spec_dec_digits(i as nat);
        lemma_dec_digits_val(i as nat);
        assert(s == dd);
        assert(spec_digit_val(s[0]) >= 0);
        assert(s[0] != '-' && s[0] != '+');
        assert(spec_int_of(s) == Some(i));
    }
    assert(s[0] == '-' || spec_digit_val(s[0]) >= 0);
    assert(s[0] != '#');
}

/// The printed tokens of a readable value: at least one token, never
/// starting with a closing parenthesis or a dot.
proof fn lemma_print_tokens_head(v: SpecValue)
    requires
        spec_readable(v),
    ensures
        spec_print_tokens(v).len() >= 1,
        !(spec_print_tokens(v).first() is RightParen),
        !(spec_print_tokens(v).first() is Dot),
{
    match v {
        SpecValue::Null => {
            assert(spec_print_tokens(v).first() == SpecToken::LeftParen);
        },
        SpecValue::Pair(a, d) => {
            assert(spec_print_tokens(v).first() == SpecToken::LeftParen);
        },
        _ => {},
    }
}

/// Reading the printed form of a readable value gives the value back,
/// leaving any following tokens untouched: at the token level, the reader
/// inverts the printer.
pub proof fn lemma_parse_print_identity(v: SpecValue, rest: Seq<SpecToken>)
    requires
        spec_readable(v),
    ensures
        spec_parse_one(spec_print_tokens(v) + rest) == Some((v, rest)),
    decreases v, 1int,
{
    reveal_strlit("#t");
    reveal_strlit("#f");
    lemma_print_tokens_head(v);
    let toks = spec_print_tokens(v) + rest;
    assert(toks.len() >= 1);
    assert(toks.first() == spec_print_tokens(v).first());
    match v {
        SpecValue::Int(i) => {
            lemma_int_round_trip(i);
            assert(toks.first() == SpecToken::Symbol(crate::value::spec_int_str(i)));
            assert(spec_symbol_value(crate::value::spec_int_str(i)) == v);
            assert(toks.drop_first() =~= rest);
            assert(spec_parse_one(toks) == Some((v, rest)));
        },
        SpecValue::Bool(b) => {
            assert("#t"@.len() == 2 && "#f"@.len() == 2);
            assert("#t"@[1] == 't' && "#f"@[1] == 'f');
            assert("#f"@ != "#t"@);
            assert(toks.drop_first() =~= rest);
            assert(spec_parse_one(toks) == Some((v, rest)));
        },
        SpecValue::Symbol(s) => {
            assert(toks.first() == SpecToken::Symbol(s));
            assert(spec_symbol_value(s) == v);
            assert(toks.drop_first() =~= rest);
            assert(spec_parse_one(toks) == Some((v, rest)));
        },
        SpecValue::Null => {
            assert(spec_print_items_tokens(v) =~= Seq::<SpecToken>::empty());
            assert(toks.first() == SpecToken::LeftParen);
            assert(toks.drop_first() =~= seq![SpecToken::RightParen] + rest);
            lemma_parse_print_items(v, rest);
            assert(spec_print_items_tokens(v) + seq![SpecToken::RightParen] + rest =~= seq![
                SpecToken::RightParen,
            ] + rest);
            lemma_chain(v);
            assert(spec_parse_one(toks) == Some((v, rest)));
        },
        SpecValue::Pair(a, d) => {
            assert(toks.first() == SpecToken::LeftParen);
            assert(toks.drop_first() =~= spec_print_items_tokens(v) + seq![
                SpecToken::RightParen,
            ] + rest);
            lemma_parse_print_items(v, rest);
            lemma_chain(v);
            assert(spec_parse_one(toks) == Some((v, rest)));
        },
        _ => {
            assert(false);
        },
    }
}

/// Reading a printed pair chain's items (up to and past the closing
/// parenthesis) gives back the chain's elements and tail.
#[verifier::rlimit(60)]
proof fn lemma_parse_print_items(v: SpecValue, rest: Seq<SpecToken>)
    requires
        spec_readable(v),
        v is Pair || v is Null,
    ensures
        spec_parse_list(spec_print_items_tokens(v) + seq![SpecToken::RightParen] + rest) == Some(
            (chain_elems(v), chain_tail(v), rest),
        ),
    decreases v, 0int,
{
    reveal_with_fuel(spec_parse_list, 2);
    let toks = spec_print_items_tokens(v) + seq![SpecToken::RightParen] + rest;
    match v {
        SpecValue::Null => {
            assert(toks =~= seq![SpecToken::RightParen] + rest);
            assert(toks.first() == SpecToken::RightParen);
            assert(toks.drop_first() =~= rest);
            assert(chain_elems(v) =~= Seq::<SpecValue>::empty());
            assert(chain_tail(v) == SpecValue::Null);
            assert(spec_parse_list(toks) == Some((chain_elems(v), chain_tail(v), rest)));
        },
        SpecValue::Pair(a, d) => {
            lemma_print_tokens_head(*a);
            match *d {
                SpecValue::Null => {
                    let after = seq![SpecToken::RightParen] + rest;
                    assert(toks =~= spec_print_tokens(*a) + after);
                    assert(toks.first() == spec_print_tokens(*a).first());
                    lemma_parse_print_identity(*a, after);
                    assert(after.len() < toks.len());
                    assert(after.first() == SpecToken::RightParen);
                    assert(after.drop_first() =~= rest);
                    assert(seq![*a] + Seq::<SpecValue>::empty() =~= seq![*a]);
                    assert(chain_elems(v) == seq![*a]);
                    assert(chain_tail(v) == SpecValue::Null);
                    assert(spec_parse_list(toks) == Some((chain_elems(v), chain_tail(v), rest)));
                },
                SpecValue::Pair(x, y) => {
                    let after = spec_print_items_tokens(*d) + seq![SpecToken::RightParen] + rest;
                    assert(toks =~= spec_print_tokens(*a) + after);
                    assert(toks.first() == spec_print_tokens(*a).first());
                    lemma_parse_print_identity(*a, after);
                    lemma_parse_print_items(*d, rest);
                    assert(after.len() < toks.len());
                    assert(seq![*a] + chain_elems(*d) == chain_elems(v));
                    assert(chain_tail(*d) == chain_tail(v));
                    assert(spec_parse_list(toks) == Some((chain_elems(v), chain_tail(v), rest)));
                },
                _ => {
                    let after = seq![SpecToken::Dot] + spec_print_tokens(*d) + seq![
                        SpecToken::RightParen,
                    ] + rest;
                    assert(toks =~= spec_print_tokens(*a) + after);
                    assert(toks.first() == spec_print_tokens(*a).first());
                    lemma_parse_print_identity(*a, after);
                    assert(after.len() < toks.len());
                    assert(after.first() == SpecToken::Dot);
                    let after_dot = spec_print_tokens(*d) + (seq![SpecToken::RightParen] + rest);
                    assert(after.drop_first() =~= after_dot);
                    lemma_parse_print_identity(*d, seq![SpecToken::RightParen] + rest);
                    let close = seq![SpecToken::RightParen] + rest;
                    assert(close.first() == SpecToken::RightParen);
                    assert(close.drop_first() =~= rest);
                    assert(seq![*a] + Seq::<SpecValue>::empty() =~= seq![*a]);
                    assert(chain_elems(v) =~= seq![*a]);
                    assert(chain_tail(v) == *d);
                    assert(spec_parse_list(toks) == Some((chain_elems(v), chain_tail(v), rest)));
                },
            }
        },
        _ => {
            assert(false);
        },
    }
}

/// A symbol text the lexer reads back as one symbol token: non-empty,
/// free of delimiters and whitespace, and not a lone dot.
pub open spec fn spec_symbol_text_ok(s: Seq<char>) -> bool {
    &&& s.len() > 0
    &&& forall|k: int|
        0 <= k < s.len() ==> !crate::lex::spec_is_delim(#[trigger] s[k]) && !crate::lex::spec_is_space(
            s[k],
        )
    &&& s != seq!['.']
}

/// A value whose printed text lexes back into its own tokens: every
/// symbol in it has lexable text.
pub open spec fn spec_writable(v: SpecValue) -> bool
    decreases v,
{
    match v {
        SpecValue::Symbol(s) => spec_symbol_text_ok(s),
        SpecValue::Pair(a, d) => spec_writable(*a) && spec_writable(*d),
        SpecValue::Int(i) => true,
        SpecValue::Bool(b) => true,
        SpecValue::Null => true,
        _ => false,
    }
}

/// Text that follows a printed datum without extending a symbol run:
/// nothing, or a delimiter or whitespace first.
pub open spec fn spec_clean_start(s: Seq<char>) -> bool {
    s.len() == 0 || crate::lex::spec_is_delim(s.first()) || crate::lex::spec_is_space(s.first())
}

/// Lexing a run of plain symbol characters only extends the pending run.
proof fn lemma_tokenize_run(w: Seq<char>, s2: Seq<char>, cur: Seq<char>)
    requires
        forall|k: int|
            0 <= k < w.len() ==> !crate::lex::spec_is_delim(#[trigger] w[k])
                && !crate::lex::spec_is_space(w[k]),
    ensures
        crate::lex::spec_tokenize_go(w + s2, cur) == crate::lex::spec_tokenize_go(s2, cur + w),
    decreases w.len(),
{
    if w.len() == 0 {
        assert(w + s2 =~= s2);
        assert(cur + w =~= cur);
    } else {
        let c = w.first();
        assert((w + s2).len() > 0);
        assert((w + s2).first() == c);
        assert((w + s2).drop_first() =~= w.drop_first() + s2);
        lemma_tokenize_run(w.drop_first(), s2, cur.push(c));
        assert(cur.push(c) + w.drop_first() =~= cur + w);
    }
}

/// Before a delimiter, whitespace, or the end of input, the pending run
/// is flushed first.
proof fn lemma_tokenize_flush(cur: Seq<char>, s2: Seq<char>)
    requires
        spec_clean_start(s2),
    ensures
        crate::lex::spec_tokenize_go(s2, cur) == crate::lex::spec_flush(cur)
            + crate::lex::spec_tokenize_go(s2, Seq::empty()),
{
    if s2.len() == 0 {
        assert(crate::lex::spec_flush(cur) + crate::lex::spec_flush(Seq::empty())
            =~= crate::lex::spec_flush(cur));
    } else if crate::lex::spec_is_delim(s2.first()) {
        assert(crate::lex::spec_flush(Seq::empty()) + seq![
            crate::lex::spec_delim_token(s2.first()),
        ] + crate::lex::spec_tokenize_go(s2.drop_first(), Seq::empty()) =~= seq![
            crate::lex::spec_delim_token(s2.first()),
        ] + crate::lex::spec_tokenize_go(s2.drop_first(), Seq::empty()));
        assert(crate::lex::spec_flush(cur) + (seq![crate::lex::spec_delim_token(s2.first())]
            + crate::lex::spec_tokenize_go(s2.drop_first(), Seq::empty()))
            =~= crate::lex::spec_flush(cur) + seq![crate::lex::spec_delim_token(s2.first())]
            + crate::lex::spec_tokenize_go(s2.drop_first(), Seq::empty()));
    } else {
        assert(crate::lex::spec_flush(Seq::empty()) + crate::lex::spec_tokenize_go(
            s2.drop_first(),
            Seq::empty(),
        ) =~= crate::lex::spec_tokenize_go(s2.drop_first(), Seq::empty()));
    }
}

/// The printed characters of an integer: non-empty, plain symbol
/// characters, not a lone dot.
proof fn lemma_int_str_chars(i: int)
    ensures
        spec_symbol_text_ok(crate::value::spec_int_str(i)),
{
    let s = crate::value::spec_int_str(i);
    if i < 0 {
        lemma_dec_digits_val((-i) as nat);
        let dd = crate::value::spec_dec_digits((-i) as nat);
        assert(s == seq!['-'] + dd);
        assert(forall|k: int| 0 <= k < s.len() ==> s[k] == '-' || spec_digit_val(#[trigger] s[k]) >= 0)
            by {
            assert(forall|k: int| 1 <= k < s.len() ==> s[k] == dd[k - 1]);
        }
        assert(s[0] == '-');
        assert(s != seq!['.']);
    } else {
        lemma_dec_digits_val(i as nat);
        assert(forall|k: int| 0 <= k < s.len() ==> spec_digit_val(#[trigger] s[k]) >= 0);
        assert(spec_digit_val(s[0]) >= 0);
        assert(s[0] != '.');
        assert(s != seq!['.']);
    }
}

/// Lexing the printed form of a readable, writable value yields its token
/// rendering, with anything cleanly following lexed on its own.
proof fn lemma_tokenize_print(v: SpecValue, s2: Seq<char>)
    requires
        spec_readable(v),
        spec_writable(v),
        spec_clean_start(s2),
    ensures
        crate::lex::spec_tokenize_go(crate::value::spec_print(v) + s2, Seq::empty())
            == spec_print_tokens(v) + crate::lex::spec_tokenize_go(s2, Seq::empty()),
    decreases v, 1int,
{
    reveal_strlit("#t");
    reveal_strlit("#f");
    reveal_with_fuel(crate::lex::spec_tokenize_go, 4);
    let e = Seq::<char>::empty();
    let go2 = crate::lex::spec_tokenize_go(s2, e);
    match v {
        SpecValue::Int(i) => {
            let w = crate::value::spec_int_str(i);
            lemma_int_str_chars(i);
            lemma_tokenize_run(w, s2, e);
            assert(e + w =~= w);
            lemma_tokenize_flush(w, s2);
            assert(crate::lex::spec_classify(w) == SpecToken::Symbol(w));
            assert(crate::lex::spec_flush(w) =~= seq![SpecToken::Symbol(w)]);
        },
        SpecValue::Bool(b) => {
            let w = if b {
                "#t"@
            } else {
                "#f"@
            };
            assert(w.len() == 2 && w[0] == '#' && (w[1] == 't' || w[1] == 'f'));
            assert(forall|k: int|
                0 <= k < w.len() ==> !crate::lex::spec_is_delim(#[trigger] w[k])
                    && !crate::lex::spec_is_space(w[k]));
            lemma_tokenize_run(w, s2, e);
            assert(e + w =~= w);
            lemma_tokenize_flush(w, s2);
            assert(w != seq!['.']);
            assert(crate::lex::spec_flush(w) =~= seq![SpecToken::Symbol(w)]);
        },
        SpecValue::Symbol(s) => {
            lemma_tokenize_run(s, s2, e);
            assert(e + s =~= s);
            lemma_tokenize_flush(s, s2);
            assert(crate::lex::spec_flush(s) =~= seq![SpecToken::Symbol(s)]);
        },
        SpecValue::Null => {
            let w = crate::value::spec_print(v);
            assert(crate::value::spec_print_items(v) =~= Seq::<char>::empty());
            assert(w =~= seq!['(', ')']);
            assert((w + s2).first() == '(');
            assert((w + s2).drop_first() =~= seq![')'] + s2);
            assert((seq![')'] + s2).first() == ')');
            assert((seq![')'] + s2).drop_first() =~= s2);
            assert(spec_print_items_tokens(v) =~= Seq::<SpecToken>::empty());
            assert(crate::lex::spec_tokenize_go(w + s2, e) == crate::lex::spec_flush(e) + seq![
                SpecToken::LeftParen,
            ] + crate::lex::spec_tokenize_go((w + s2).drop_first(), e));
            assert(crate::lex::spec_tokenize_go((w + s2).drop_first(), e)
                == crate::lex::spec_tokenize_go(seq![')'] + s2, e));
            assert(crate::lex::spec_tokenize_go(seq![')'] + s2, e) == crate::lex::spec_flush(e)
                + seq![SpecToken::RightParen] + crate::lex::spec_tokenize_go(s2, e));
            assert(crate::lex::spec_tokenize_go(w + s2, e) =~= seq![
                SpecToken::LeftParen,
                SpecToken::RightParen,
            ] + go2);
            assert(spec_print_tokens(v) =~= seq![SpecToken::LeftParen, SpecToken::RightParen]);
        },
        SpecValue::Pair(a, d) => {
            let items = crate::value::spec_print_items(v);
            let w = crate::value::spec_print(v);
            assert(w == seq!['('] + items + seq![')']);
            assert((w + s2).first() == '(');
            assert((w + s2).drop_first() =~= items + (seq![')'] + s2));
            lemma_tokenize_print_items(v, s2);
            assert(crate::lex::spec_tokenize_go(w + s2, e) == seq![SpecToken::LeftParen]
                + (spec_print_items_tokens(v) + (seq![SpecToken::RightParen] + go2)));
            assert(seq![SpecToken::LeftParen] + (spec_print_items_tokens(v) + (seq![
                SpecToken::RightParen,
            ] + go2)) =~= spec_print_tokens(v) + go2);
        },
        _ => {
            assert(false);
        },
    }
}

/// Lexing a printed pair chain's items followed by `)` yields the item
/// tokens, the closing parenthesis, and whatever cleanly follows.
proof fn lemma_tokenize_print_items(v: SpecValue, s2: Seq<char>)
    requires
        spec_readable(v),
        spec_writable(v),
        v is Pair || v is Null,
        spec_clean_start(s2),
    ensures
        crate::lex::spec_tokenize_go(
            crate::value::spec_print_items(v) + (seq![')'] + s2),
            Seq::empty(),
        ) == spec_print_items_tokens(v) + (seq![SpecToken::RightParen]
            + crate::lex::spec_tokenize_go(s2, Seq::empty())),
    decreases v, 0int,
{
    reveal_with_fuel(crate::lex::spec_tokenize_go, 4);
    let e = Seq::<char>::empty();
    let go2 = crate::lex::spec_tokenize_go(s2, e);
    let close = seq![')'] + s2;
    assert(close.first() == ')');
    assert(close.drop_first() =~= s2);
    assert(crate::lex::spec_tokenize_go(close, e) =~= seq![SpecToken::RightParen] + go2);
    match v {
        SpecValue::Null => {
            assert(crate::value::spec_print_items(v) + close =~= close);
            assert(spec_print_items_tokens(v) + (seq![SpecToken::RightParen] + go2) =~= seq![
                SpecToken::RightParen,
            ] + go2);
        },
        SpecValue::Pair(a, d) => {
            match *d {
                SpecValue::Null => {
                    assert(crate::value::spec_print_items(v) + close
                        =~= crate::value::spec_print(*a) + close);
                    lemma_tokenize_print(*a, close);
                    assert(spec_print_tokens(*a) + (seq![SpecToken::RightParen] + go2)
                        =~= spec_print_items_tokens(v) + (seq![SpecToken::RightParen] + go2));
                },
                SpecValue::Pair(x, y) => {
                    let rest_items = crate::value::spec_print_items(*d) + close;
                    assert(crate::value::spec_print_items(v) + close =~= crate::value::spec_print(
                        *a,
                    ) + (seq![' '] + rest_items));
                    lemma_tokenize_print(*a, seq![' '] + rest_items);
                    assert((seq![' '] + rest_items).first() == ' ');
                    assert((seq![' '] + rest_items).drop_first() =~= rest_items);
                    lemma_tokenize_print_items(*d, s2);
                    assert(crate::lex::spec_tokenize_go(seq![' '] + rest_items, e)
                        == crate::lex::spec_flush(e) + crate::lex::spec_tokenize_go(
                        rest_items,
                        e,
                    ));
                    assert(crate::lex::spec_flush(e) + crate::lex::spec_tokenize_go(rest_items, e)
                        =~= crate::lex::spec_tokenize_go(rest_items, e));
                    assert(spec_print_tokens(*a) + (spec_print_items_tokens(*d) + (seq![
                        SpecToken::RightParen,
                    ] + go2)) =~= spec_print_items_tokens(v) + (seq![SpecToken::RightParen]
                        + go2));
                },
                _ => {
                    let tail_part = crate::value::spec_print(*d) + close;
                    let dot_part = seq![' ', '.', ' '] + tail_part;
                    assert(" . "@ =~= seq![' ', '.', ' ']) by {
                        reveal_strlit(" . ");
                    }
                    assert(crate::value::spec_print_items(v) + close =~= crate::value::spec_print(
                        *a,
                    ) + dot_part);
                    lemma_tokenize_print(*a, dot_part);
                    assert(dot_part.first() == ' ');
                    assert(dot_part.drop_first() =~= seq!['.', ' '] + tail_part);
                    assert((seq!['.', ' '] + tail_part).first() == '.');
                    assert((seq!['.', ' '] + tail_part).drop_first() =~= seq![' '] + tail_part);
                    assert((seq![' '] + tail_part).first() == ' ');
                    assert((seq![' '] + tail_part).drop_first() =~= tail_part);
                    assert(e.push('.') =~= seq!['.']);
                    assert(crate::lex::spec_flush(seq!['.']) =~= seq![SpecToken::Dot]);
                    lemma_tokenize_print(*d, close);
                    // Walking the " . " characters: flush nothing, read the
                    // dot, flush it at the following space.
                    assert(crate::lex::spec_tokenize_go(dot_part, e) == crate::lex::spec_flush(e)
                        + crate::lex::spec_tokenize_go(seq!['.', ' '] + tail_part, e));
                    assert(crate::lex::spec_tokenize_go(seq!['.', ' '] + tail_part, e)
                        == crate::lex::spec_tokenize_go(seq![' '] + tail_part, seq!['.']));
                    assert(crate::lex::spec_tokenize_go(seq![' '] + tail_part, seq!['.'])
                        == crate::lex::spec_flush(seq!['.']) + crate::lex::spec_tokenize_go(
                        tail_part,
                        e,
                    ));
                    assert(crate::lex::spec_flush(e) + (seq![SpecToken::Dot]
                        + crate::lex::spec_tokenize_go(tail_part, e)) =~= seq![SpecToken::Dot]
                        + crate::lex::spec_tokenize_go(tail_part, e));
                    assert(spec_print_tokens(*a) + (seq![SpecToken::Dot] + (spec_print_tokens(*d)
                        + (seq![SpecToken::RightParen] + go2))) =~= spec_print_items_tokens(v) + (
                    seq![SpecToken::RightParen] + go2));
                },
            }
        },
        _ => {
            assert(false);
        },
    }
}

/// Purity of parsing: reading the printed text of a readable, writable
/// value gives back exactly that value — the reader inverts the printer.
pub proof fn lemma_parse_print_text(v: SpecValue)
    requires
        spec_readable(v),
        spec_writable(v),
    ensures
        spec_parse_all(crate::lex::spec_tokenize(crate::value::spec_print(v))) == Some(seq![v]),
{
    lemma_tokenize_print(v, Seq::empty());
    assert(crate::value::spec_print(v) + Seq::<char>::empty() =~= crate::value::spec_print(v));
    assert(crate::lex::spec_tokenize_go(Seq::<char>::empty(), Seq::<char>::empty()) =~= Seq::<
        SpecToken,
    >::empty());
    assert(spec_print_tokens(v) + Seq::<SpecToken>::empty() =~= spec_print_tokens(v));
    lemma_parse_print_program(v);
}

/// Reading the printed form of a readable value as a whole program gives
/// exactly that one value.
pub proof fn lemma_parse_print_program(v: SpecValue)
    requires
        spec_readable(v),
    ensures
        spec_parse_all(spec_print_tokens(v)) == Some(seq![v]),
{
    lemma_parse_print_identity(v, Seq::empty());
    lemma_print_tokens_head(v);
    assert(spec_print_tokens(v) + Seq::<SpecToken>::empty() =~= spec_print_tokens(v));
    assert(spec_parse_all(Seq::<SpecToken>::empty()) == Some(Seq::<SpecValue>::empty()));
    assert(seq![v] + Seq::<SpecValue>::empty() =~= seq![v]);
}

/// Reads a whole source text as its sequence of top-level expressions.
pub fn parse(s: &str) -> (r: Result<ParseResult, ParseError>)
    ensures
        match r {
            Ok(pr) => spec_parse_all(spec_tokenize(s@)) == Some(views_of(pr.exps@)),
            Err(e) => spec_parse_all(spec_tokenize(s@)) is None,
        },
{
    let tokens: Vec<Token> = tokenize(s);
    let mut exps: Vec<Rc<Value>> = Vec::new();
    let mut pos: usize = 0;
    proof {
        assert(token_views(tokens@).skip(0) =~= token_views(tokens@));
        assert(token_views(tokens@).len() == tokens@.len());
    }
    while pos < tokens.len()
        invariant
            pos <= tokens@.len(),
            token_views(tokens@) == spec_tokenize(s@),
            match spec_parse_all(token_views(tokens@).skip(pos as int)) {
                Some(rest_vals) => spec_parse_all(token_views(tokens@)) == Some(
                    views_of(exps@) + rest_vals,
                ),
                None => spec_parse_all(token_views(tokens@)) is None,
            },
        decreases tokens@.len() - pos,
    {
        let ghost toks = token_views(tokens@).skip(pos as int);
        let ghost prev_exps = exps@;
        match parse_one(&tokens, pos) {
            Ok((v, next)) => {
                exps.push(v);
                pos = next;
                proof {
                    assert(views_of(exps@) =~= views_of(prev_exps).push(v@));
                    match spec_parse_all(token_views(tokens@).skip(pos as int)) {
                        Some(rest_vals) => {
                            assert(spec_parse_all(toks) == Some(seq![v@] + rest_vals));
                            assert(views_of(prev_exps) + (seq![v@] + rest_vals) =~= views_of(
                                exps@,
                            ) + rest_vals);
                        },
                        None => {},
                    }
                }
            },
            Err(e) => {
                return Err(e);
            },
        }
    }
    proof {
        assert(token_views(tokens@).skip(pos as int).len() == 0);
        assert(token_views(tokens@).skip(pos as int) =~= Seq::<SpecToken>::empty());
        assert(views_of(exps@) + Seq::<SpecValue>::empty() =~= views_of(exps@));
    }
    Ok(ParseResult { exps })
}

} // verus!

//! The runtime value model: a tagged, immutable tree of shared cons cells.
use vstd::prelude::*;
use std::rc::Rc;

verus! {

/// Tags of the built-in primitive procedures.
#[derive(Debug, PartialEq, Eq, Clone, Copy, Structural)]
pub enum BuiltInFunType {
    Add,
    Eq,
    Sub,
    Mul,
    Cons,
    Car,
    Cdr,
    IsNull,
    Display,
}

/// A runtime value. Values are immutable once constructed; `Pair` components
/// are shared references, so distinct values may share sub-trees. A closure
/// does not own its captured environment: it refers to a frame of the
/// environment store by index (see `Env`), which keeps the value graph
/// acyclic.
#[derive(Debug, PartialEq, Eq, Clone)]
pub enum Value {
    Void,
    Int(i64),
    BuiltInFun(BuiltInFunType),
    Closure {
        /// Index of the captured frame in the environment store.
        env: usize,
        /// Body forms, kept as a proper list of expressions.
        body: Rc<Value>,
        /// Parameter specification (itself a value, see `param_match`).
        params: Rc<Value>,
        is_macro: bool,
    },
    Bool(bool),
    Pair(Rc<Value>, Rc<Value>),
    Null,
    Symbol(String),
}

/// The mathematical model of a `Value`: the same tree with mathematical
/// integers and character sequences at the leaves.
pub enum SpecValue {
    Void,
    Int(int),
    BuiltInFun(BuiltInFunType),
    Closure { env: int, body: Box<SpecValue>, params: Box<SpecValue>, is_macro: bool },
    Bool(bool),
    Pair(Box<SpecValue>, Box<SpecValue>),
    Null,
    Symbol(Seq<char>),
}

/// The model a value denotes.
pub open spec fn value_model(v: Value) -> SpecValue
    decreases v,
{
    match v {
        Value::Void => SpecValue::Void,
        Value::Int(i) => SpecValue::Int(i as int),
        Value::BuiltInFun(f) => SpecValue::BuiltInFun(f),
        Value::Closure { env, body, params, is_macro } => SpecValue::Closure {
            env: env as int,
            body: Box::new(value_model(*body)),
            params: Box::new(value_model(*params)),
            is_macro,
        },
        Value::Bool(b) => SpecValue::Bool(b),
        Value::Pair(a, d) => SpecValue::Pair(
            Box::new(value_model(*a)),
            Box::new(value_model(*d)),
        ),
        Value::Null => SpecValue::Null,
        Value::Symbol(s) => SpecValue::Symbol(s@),
    }
}

impl View for Value {
    type V = SpecValue;

    open spec fn view(&self) -> SpecValue {
        value_model(*self)
    }
}

/// A value and its model always carry the same tag.
pub proof fn lemma_model_variant(v: Value)
    ensures
        value_model(v) is Void <==> v is Void,
        value_model(v) is Int <==> v is Int,
        value_model(v) is BuiltInFun <==> v is BuiltInFun,
        value_model(v) is Closure <==> v is Closure,
        value_model(v) is Bool <==> v is Bool,
        value_model(v) is Pair <==> v is Pair,
        value_model(v) is Null <==> v is Null,
        value_model(v) is Symbol <==> v is Symbol,
{
    match v {
        Value::Void => {},
        Value::Int(i) => {},
        Value::BuiltInFun(f) => {},
        Value::Closure { env, body, params, is_macro } => {},
        Value::Bool(b) => {},
        Value::Pair(a, d) => {},
        Value::Null => {},
        Value::Symbol(s) => {},
    }
}

/// Duplicates a shared reference to a value.
///
/// Relies on `Rc::clone` of std: the clone points at the very same
/// allocation, hence carries the same value.
#[verifier::external_body]
pub fn rc_dup(v: &Rc<Value>) -> (r: Rc<Value>)
    ensures
        r == *v,
{
    Rc::clone(v)
}

/// Character-by-character equality of two string slices.
pub fn str_eq(a: &str, b: &str) -> (r: bool)
    ensures
        r == (a@ == b@),
{
    let n: usize = a.unicode_len();
    let m: usize = b.unicode_len();
    if n != m {
        return false;
    }
    let mut i: usize = 0;
    while i < n
        invariant
            i <= n,
            n == a@.len(),
            n == b@.len(),
            forall|k: int| 0 <= k < i ==> a@[k] == b@[k],
        decreases n - i,
    {
        if a.get_char(i) != b.get_char(i) {
            return false;
        }
        i = i + 1;
    }
    proof {
        assert(a@ =~= b@);
    }
    true
}

/// Height of a value tree; the termination measure for walks over values.
pub open spec fn vheight(v: SpecValue) -> nat
    decreases v,
{
    match v {
        SpecValue::Pair(a, d) => (1 + vstd::math::max(
            vheight(*a) as int,
            vheight(*d) as int,
        )) as nat,
        SpecValue::Closure { env, body, params, is_macro } => (1 + vstd::math::max(
            vheight(*body) as int,
            vheight(*params) as int,
        )) as nat,
        _ => 0,
    }
}

/// The spine of a proper list value: the sequence of its elements.
/// `None` when the chain does not end in `Null` (an improper list or an atom).
pub open spec fn spec_spine(v: SpecValue) -> Option<Seq<SpecValue>>
    decreases v,
{
    match v {
        SpecValue::Null => Some(Seq::empty()),
        SpecValue::Pair(a, d) => match spec_spine(*d) {
            Some(s) => Some(seq![*a] + s),
            None => None,
        },
        _ => None,
    }
}

/// Builds the pair chain holding the elements of `s` and terminated by `tail`.
pub open spec fn spec_list(s: Seq<SpecValue>, tail: SpecValue) -> SpecValue
    decreases s.len(),
{
    if s.len() == 0 {
        tail
    } else {
        SpecValue::Pair(Box::new(s[0]), Box::new(spec_list(s.drop_first(), tail)))
    }
}

/// The models of a sequence of shared values.
pub open spec fn views_of(s: Seq<Rc<Value>>) -> Seq<SpecValue> {
    s.map_values(|r: Rc<Value>| r@)
}

/// `spec_spine(rest)` with `prefix` prepended, when `rest` is a proper list.
pub open spec fn spine_concat(prefix: Seq<SpecValue>, rest: SpecValue) -> Option<Seq<SpecValue>> {
    match spec_spine(rest) {
        Some(s) => Some(prefix + s),
        None => None,
    }
}

/// Collects the elements of a proper list value into a vector;
/// `None` when the value is not a proper list.
pub fn list_to_vec(v: &Rc<Value>) -> (r: Option<Vec<Rc<Value>>>)
    ensures
        match r {
            Some(vec) => spec_spine(v@) == Some(views_of(vec@)),
            None => spec_spine(v@) is None,
        },
{
    let mut out: Vec<Rc<Value>> = Vec::new();
    let mut cur: Rc<Value> = rc_dup(v);
    loop
        invariant
            spec_spine(v@) == spine_concat(views_of(out@), cur@),
        decreases vheight(cur@),
    {
        match &*cur {
            Value::Null => {
                proof {
                    assert(views_of(out@) + spec_spine(cur@).unwrap() =~= views_of(out@));
                }
                return Some(out);
            },
            Value::Pair(a, d) => {
                let ghost ga = (*a)@;
                let ghost prev_out = out@;
                let next: Rc<Value> = rc_dup(d);
                out.push(rc_dup(a));
                cur = next;
                proof {
                    assert(views_of(out@) =~= views_of(prev_out).push(ga));
                    if spec_spine(cur@) is Some {
                        assert(views_of(prev_out) + (seq![ga] + spec_spine(cur@).unwrap())
                            =~= views_of(out@) + spec_spine(cur@).unwrap());
                    }
                }
            },
            _ => {
                return None;
            },
        }
    }
}

/// Builds the pair chain of the elements of `items` from index `from`
/// onwards, terminated by `tail`.
pub fn make_list(items: &Vec<Rc<Value>>, from: usize, tail: Rc<Value>) -> (r: Rc<Value>)
    requires
        from <= items@.len(),
    ensures
        r@ == spec_list(views_of(items@).skip(from as int), tail@),
{
    let ghost tv = tail@;
    let mut v: Rc<Value> = tail;
    let mut k: usize = items.len();
    proof {
        assert(views_of(items@).skip(k as int) =~= Seq::<SpecValue>::empty());
    }
    while k > from
        invariant
            from <= k <= items@.len(),
            v@ == spec_list(views_of(items@).skip(k as int), tv),
        decreases k,
    {
        let ghost before = views_of(items@).skip(k as int);
        v = Rc::new(Value::Pair(rc_dup(&items[k - 1]), v));
        k = k - 1;
        proof {
            assert(views_of(items@).skip(k as int).drop_first() =~= before);
            assert(views_of(items@).skip(k as int)[0] == items@[k as int]@);
        }
    }
    v
}

/// Structural equality over the full value type; the meaning of `eq?`.
pub fn value_eq(a: &Value, b: &Value) -> (r: bool)
    ensures
        r == (a@ == b@),
    decreases vheight(a@),
{
    match (a, b) {
        (Value::Void, Value::Void) => true,
        (Value::Int(x), Value::Int(y)) => *x == *y,
        (Value::BuiltInFun(f), Value::BuiltInFun(g)) => *f == *g,
        (
            Value::Closure { env: e1, body: b1, params: p1, is_macro: m1 },
            Value::Closure { env: e2, body: b2, params: p2, is_macro: m2 },
        ) => *e1 == *e2 && *m1 == *m2 && value_eq(&**b1, &**b2) && value_eq(&**p1, &**p2),
        (Value::Bool(x), Value::Bool(y)) => *x == *y,
        (Value::Pair(a1, d1), Value::Pair(a2, d2)) => value_eq(&**a1, &**a2) && value_eq(
            &**d1,
            &**d2,
        ),
        (Value::Null, Value::Null) => true,
        (Value::Symbol(s), Value::Symbol(t)) => *s == *t,
        _ => false,
    }
}

/// The character of a single decimal digit.
pub open spec fn spec_digit_char(d: int) -> char {
    if d == 0 {
        '0'
    } else if d == 1 {
        '1'
    } else if d == 2 {
        '2'
    } else if d == 3 {
        '3'
    } else if d == 4 {
        '4'
    } else if d == 5 {
        '5'
    } else if d == 6 {
        '6'
    } else if d == 7 {
        '7'
    } else if d == 8 {
        '8'
    } else {
        '9'
    }
}

/// The decimal digits of `n`, most significant first, no leading zeros
/// (except for `n == 0` itself).
pub open spec fn spec_dec_digits(n: nat) -> Seq<char>
    decreases n,
{
    if n < 10 {
        seq![spec_digit_char(n as int)]
    } else {
        spec_dec_digits(n / 10).push(spec_digit_char((n % 10) as int))
    }
}

/// The external form of an integer: decimal digits with an optional sign.
pub open spec fn spec_int_str(v: int) -> Seq<char> {
    if v < 0 {
        seq!['-'] + spec_dec_digits((-v) as nat)
    } else {
        spec_dec_digits(v as nat)
    }
}

/// The stable tag under which a primitive is printed.
pub open spec fn spec_builtin_name(f: BuiltInFunType) -> Seq<char> {
    match f {
        BuiltInFunType::Add => "Add"@,
        BuiltInFunType::Eq => "Eq"@,
        BuiltInFunType::Sub => "Sub"@,
        BuiltInFunType::Mul => "Mul"@,
        BuiltInFunType::Cons => "Cons"@,
        BuiltInFunType::Car => "Car"@,
        BuiltInFunType::Cdr => "Cdr"@,
        BuiltInFunType::IsNull => "IsNull"@,
        BuiltInFunType::Display => "Display"@,
    }
}

/// The external form of a value, without the leading quote of lists.
pub open spec fn spec_print(v: SpecValue) -> Seq<char>
    decreases v, 1int,
{
    match v {
        SpecValue::Void => Seq::empty(),
        SpecValue::Int(i) => spec_int_str(i),
        SpecValue::BuiltInFun(f) => spec_builtin_name(f),
        SpecValue::Closure { env, body, params, is_macro } => "#procedure"@,
        SpecValue::Bool(b) => if b {
            "#t"@
        } else {
            "#f"@
        },
        SpecValue::Null => seq!['('] + spec_print_items(v) + seq![')'],
        SpecValue::Pair(a, d) => seq!['('] + spec_print_items(v) + seq![')'],
        SpecValue::Symbol(s) => s,
    }
}

/// The space-separated items of a pair chain, with ` . tail` for an
/// improper ending; empty for anything that is not a pair or `Null`.
pub open spec fn spec_print_items(v: SpecValue) -> Seq<char>
    decreases v, 0int,
{
    match v {
        SpecValue::Pair(a, d) => match *d {
            SpecValue::Null => spec_print(*a),
            SpecValue::Pair(d1, d2) => spec_print(*a) + seq![' '] + spec_print_items(*d),
            _ => spec_print(*a) + " . "@ + spec_print(*d),
        },
        _ => Seq::empty(),
    }
}

/// The full external form: lists carry a leading quote at the outermost
/// position.
pub open spec fn spec_external(v: SpecValue) -> Seq<char> {
    match v {
        SpecValue::Null => seq!['\''] + spec_print(v),
        SpecValue::Pair(a, d) => seq!['\''] + spec_print(v),
        _ => spec_print(v),
    }
}

/// One decimal digit as text.
fn digit_str(d: u64) -> (r: &'static str)
    requires
        d < 10,
    ensures
        r@ == seq![spec_digit_char(d as int)],
{
    proof {
        reveal_strlit("0");
        reveal_strlit("1");
        reveal_strlit("2");
        reveal_strlit("3");
        reveal_strlit("4");
        reveal_strlit("5");
        reveal_strlit("6");
        reveal_strlit("7");
        reveal_strlit("8");
        reveal_strlit("9");
    }
    let r: &'static str = match d {
        0 => "0",
        1 => "1",
        2 => "2",
        3 => "3",
        4 => "4",
        5 => "5",
        6 => "6",
        7 => "7",
        8 => "8",
        _ => "9",
    };
    proof {
        assert(r@ =~= seq![spec_digit_char(d as int)]);
    }
    r
}

/// The digits of a digit sequence, reversed, as characters.
pub open spec fn rev_digit_chars(s: Seq<u64>) -> Seq<char>
    decreases s.len(),
{
    if s.len() == 0 {
        Seq::empty()
    } else {
        seq![spec_digit_char(s.last() as int)] + rev_digit_chars(s.drop_last())
    }
}

/// Renders a 64-bit integer in its external decimal form.
pub fn int_to_string(v: i64) -> (r: String)
    ensures
        r@ == spec_int_str(v as int),
{
    let neg: bool = v < 0;
    let mag: u64 = if v >= 0 {
        v as u64
    } else {
        ((-(v + 1)) as u64) + 1
    };
    proof {
        assert(mag as int == if v < 0 {
            -(v as int)
        } else {
            v as int
        });
    }
    let mut digs: Vec<u64> = Vec::new();
    let mut n: u64 = mag;
    while n > 0
        invariant
            n > 0 ==> spec_dec_digits(mag as nat) == spec_dec_digits(n as nat) + rev_digit_chars(
                digs@,
            ),
            n == 0 && digs@.len() > 0 ==> spec_dec_digits(mag as nat) == rev_digit_chars(digs@),
            digs@.len() == 0 ==> n == mag,
            forall|k: int| 0 <= k < digs@.len() ==> digs@[k] < 10,
        decreases n,
    {
        let d: u64 = n % 10;
        let ghost prev = digs@;
        let ghost n0 = n;
        digs.push(d);
        n = n / 10;
        proof {
            assert(digs@.drop_last() =~= prev);
            assert(rev_digit_chars(digs@) == seq![spec_digit_char(d as int)] + rev_digit_chars(
                prev,
            ));
            if n > 0 {
                assert(spec_dec_digits(n0 as nat) == spec_dec_digits(n as nat).push(
                    spec_digit_char(d as int),
                ));
                assert(spec_dec_digits(n as nat).push(spec_digit_char(d as int))
                    + rev_digit_chars(prev) =~= spec_dec_digits(n as nat) + rev_digit_chars(
                    digs@,
                ));
            } else {
                assert(n0 < 10);
                assert(spec_dec_digits(n0 as nat) == seq![spec_digit_char(n0 as int)]);
                assert(seq![spec_digit_char(d as int)] + rev_digit_chars(prev) =~= rev_digit_chars(
                    digs@,
                ));
            }
        }
    }
    let mut r = String::new();
    if neg {
        r.append("-");
        proof {
            reveal_strlit("-");
            assert(r@ =~= seq!['-']);
        }
    }
    let ghost prefix = r@;
    if digs.len() == 0 {
        // Only `mag == 0` leaves no collected digits.
        r.append(digit_str(0));
        proof {
            assert(spec_dec_digits(mag as nat) == seq![spec_digit_char(0)]);
            assert(r@ =~= prefix + spec_dec_digits(mag as nat));
        }
    } else {
        let mut i: usize = digs.len();
        proof {
            assert(digs@.take(i as int) =~= digs@);
        }
        while i > 0
            invariant
                i <= digs@.len(),
                forall|k: int| 0 <= k < digs@.len() ==> digs@[k] < 10,
                r@ + rev_digit_chars(digs@.take(i as int)) == prefix + rev_digit_chars(digs@),
            decreases i,
        {
            let ghost before = r@;
            let ghost itop = i as int;
            let d: u64 = digs[i - 1];
            r.append(digit_str(d));
            i = i - 1;
            proof {
                assert(digs@.take(itop).drop_last() =~= digs@.take(i as int));
                assert(digs@.take(itop).last() == d);
                assert(rev_digit_chars(digs@.take(itop)) == seq![spec_digit_char(d as int)]
                    + rev_digit_chars(digs@.take(i as int)));
                assert(r@ + rev_digit_chars(digs@.take(i as int)) =~= before + rev_digit_chars(
                    digs@.take(itop),
                ));
            }
        }
        proof {
            assert(digs@.take(0) =~= Seq::<u64>::empty());
            assert(r@ + rev_digit_chars(digs@.take(0)) =~= r@);
            assert(spec_dec_digits(mag as nat) == rev_digit_chars(digs@));
        }
    }
    proof {
        assert(r@ == prefix + spec_dec_digits(mag as nat));
        if v < 0 {
            assert(r@ =~= spec_int_str(v as int));
        } else {
            assert(prefix =~= Seq::<char>::empty());
            assert(r@ =~= spec_int_str(v as int));
        }
    }
    r
}

/// The stable printed tag of a primitive.
fn builtin_name(f: BuiltInFunType) -> (r: &'static str)
    ensures
        r@ == spec_builtin_name(f),
{
    match f {
        BuiltInFunType::Add => "Add",
        BuiltInFunType::Eq => "Eq",
        BuiltInFunType::Sub => "Sub",
        BuiltInFunType::Mul => "Mul",
        BuiltInFunType::Cons => "Cons",
        BuiltInFunType::Car => "Car",
        BuiltInFunType::Cdr => "Cdr",
        BuiltInFunType::IsNull => "IsNull",
        BuiltInFunType::Display => "Display",
    }
}

/// Renders the items of a pair chain, without the outer parentheses.
pub(crate) fn list_to_string_inner(value: &Value) -> (r: String)
    ensures
        r@ == spec_print_items(value@),
    decreases vheight(value@), 0int,
{
    match value {
        Value::Pair(fst, rest) => {
            match &**rest {
                Value::Null => to_string_helper(&**fst),
                Value::Pair(d1, d2) => {
                    let mut r = to_string_helper(&**fst);
                    r.append(" ");
                    let tail = list_to_string_inner(&**rest);
                    r.append(tail.as_str());
                    proof {
                        reveal_strlit(" ");
                        assert(r@ =~= spec_print_items(value@));
                    }
                    r
                },
                _ => {
                    let mut r = to_string_helper(&**fst);
                    r.append(" . ");
                    let tail = to_string_helper(&**rest);
                    r.append(tail.as_str());
                    proof {
                        assert(r@ =~= spec_print_items(value@));
                    }
                    r
                },
            }
        },
        _ => String::new(),
    }
}

/// Renders a value without the leading quote of lists.
pub(crate) fn to_string_helper(value: &Value) -> (r: String)
    ensures
        r@ == spec_print(value@),
    decreases vheight(value@), 1int,
{
    match value {
        Value::Void => String::new(),
        Value::Int(v) => int_to_string(*v),
        Value::BuiltInFun(f) => {
            let mut r = String::new();
            r.append(builtin_name(*f));
            proof {
                assert(r@ =~= spec_print(value@));
            }
            r
        },
        Value::Closure { env, body, params, is_macro } => {
            let mut r = String::new();
            r.append("#procedure");
            proof {
                assert(r@ =~= spec_print(value@));
            }
            r
        },
        Value::Bool(v) => {
            let mut r = String::new();
            if *v {
                r.append("#t");
            } else {
                r.append("#f");
            }
            proof {
                assert(r@ =~= spec_print(value@));
            }
            r
        },
        Value::Null => {
            let mut r = String::new();
            r.append("(");
            let inner = list_to_string_inner(value);
            r.append(inner.as_str());
            r.append(")");
            proof {
                reveal_strlit("(");
                reveal_strlit(")");
                assert(r@ =~= spec_print(value@));
            }
            r
        },
        Value::Pair(a, d) => {
            let mut r = String::new();
            r.append("(");
            let inner = list_to_string_inner(value);
            r.append(inner.as_str());
            r.append(")");
            proof {
                reveal_strlit("(");
                reveal_strlit(")");
                assert(r@ =~= spec_print(value@));
            }
            r
        },
        Value::Symbol(s) => s.clone(),
    }
}

impl Value {
    /// The external form of the value: what the interactive loop shows.
    /// Lists carry a leading quote at the outermost position.
    pub fn to_string(&self) -> (r: String)
        ensures
            r@ == spec_external(self@),
    {
        match self {
            Value::Null => {
                let mut r = String::new();
                r.append("'");
                let rest = to_string_helper(self);
                r.append(rest.as_str());
                proof {
                    reveal_strlit("'");
                    assert(r@ =~= spec_external(self@));
                }
                r
            },
            Value::Pair(a, d) => {
                let mut r = String::new();
                r.append("'");
                let rest = to_string_helper(self);
                r.append(rest.as_str());
                proof {
                    reveal_strlit("'");
                    assert(r@ =~= spec_external(self@));
                }
                r
            },
            _ => to_string_helper(self),
        }
    }
}

} // verus!

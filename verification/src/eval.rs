//! The evaluator: reduces a value tree under an environment, with proper
//! tail calls, macros, and quasi-quotation.
//!
//! Its meaning is given by a definitional interpreter written in
//! specification code (`spec_eval` and companions). Evaluation is metered
//! by a step budget: every evaluator step consumes one unit, so the
//! executable evaluator provably returns exactly what the specification
//! interpreter says for the same budget. The interactive entry points use
//! a budget so large it is never exhausted in practice.
use vstd::prelude::*;
use std::rc::Rc;

use crate::env::{spec_define, spec_lookup, spec_new_frame, SpecFrame};
use crate::value::{
    rc_dup, spec_list, spec_print, spec_spine, str_eq, vheight, views_of, BuiltInFunType,
    SpecValue, Value,
};

verus! {

/// A runtime fault: wrong arity or operand type, a non-boolean condition,
/// application of a non-callable value, a binding failure, `unquote`
/// outside `quasiquote`, or an exhausted step budget.
#[derive(Debug, PartialEq, Eq)]
pub struct EvalError {
    pub msg: String,
}

/// The model of the mutable evaluation state: the environment frames and
/// the text written by `display` so far.
pub struct SpecState {
    pub frames: Seq<SpecFrame>,
    pub log: Seq<char>,
}

/// The outcome of one evaluation: a value, a runtime fault, or an
/// exhausted step budget.
pub enum SpecOut {
    Val(SpecValue),
    Fail,
    Spent,
}

/// An outcome together with the state it leaves behind.
pub struct SpecRun {
    pub out: SpecOut,
    pub st: SpecState,
}

pub open spec fn run_val(v: SpecValue, st: SpecState) -> SpecRun {
    SpecRun { out: SpecOut::Val(v), st }
}

pub open spec fn run_fail(st: SpecState) -> SpecRun {
    SpecRun { out: SpecOut::Fail, st }
}

pub open spec fn run_spent(st: SpecState) -> SpecRun {
    SpecRun { out: SpecOut::Spent, st }
}

pub open spec fn is_sym(v: SpecValue, s: Seq<char>) -> bool {
    v == SpecValue::Symbol(s)
}

/// Whether an argument list structurally matches a parameter
/// specification: `Null` takes no arguments, a pair of a symbol and a rest
/// spec takes a head and the rest, a bare symbol collects everything.
pub open spec fn param_match(params: SpecValue, vals: SpecValue) -> bool
    decreases params,
{
    match params {
        SpecValue::Null => vals is Null,
        SpecValue::Pair(ph, pt) => match vals {
            SpecValue::Pair(vh, vt) => (*ph) is Symbol && param_match(*pt, *vt),
            _ => false,
        },
        SpecValue::Symbol(s) => true,
        _ => false,
    }
}

/// Binding an argument list against a parameter specification in frame
/// `id`: whether it succeeds, and the frames afterwards (bindings made
/// before a mismatch was found persist).
pub open spec fn spec_bind(
    params: SpecValue,
    vals: SpecValue,
    frames: Seq<SpecFrame>,
    id: int,
) -> (bool, Seq<SpecFrame>)
    decreases params,
{
    match params {
        SpecValue::Null => (vals is Null, frames),
        SpecValue::Pair(ph, pt) => match *ph {
            SpecValue::Symbol(name) => match vals {
                SpecValue::Pair(vh, vt) => spec_bind(
                    *pt,
                    *vt,
                    spec_define(frames, id, name, *vh),
                    id,
                ),
                _ => (false, frames),
            },
            _ => (false, frames),
        },
        SpecValue::Symbol(name) => (true, spec_define(frames, id, name, vals)),
        _ => (false, frames),
    }
}

/// Binding succeeds exactly on structurally matching arguments, whatever
/// the frames and the target frame.
pub proof fn lemma_bind_iff_match(
    params: SpecValue,
    vals: SpecValue,
    frames: Seq<SpecFrame>,
    id: int,
)
    ensures
        spec_bind(params, vals, frames, id).0 == param_match(params, vals),
    decreases params,
{
    match params {
        SpecValue::Pair(ph, pt) => match *ph {
            SpecValue::Symbol(name) => match vals {
                SpecValue::Pair(vh, vt) => {
                    lemma_bind_iff_match(*pt, *vt, spec_define(frames, id, name, *vh), id);
                },
                _ => {},
            },
            _ => {},
        },
        _ => {},
    }
}

/// The left-to-right wrapping sum of integer operands, `None` when one is
/// not an integer.
pub open spec fn spec_sum(acc: i64, vs: Seq<SpecValue>) -> Option<i64>
    decreases vs.len(),
{
    if vs.len() == 0 {
        Some(acc)
    } else {
        match vs.first() {
            SpecValue::Int(v) => spec_sum(
                vstd::wrapping::i64_specs::wrapping_add(acc, v as i64),
                vs.drop_first(),
            ),
            _ => None,
        }
    }
}

/// The left-to-right wrapping product of integer operands.
pub open spec fn spec_product(acc: i64, vs: Seq<SpecValue>) -> Option<i64>
    decreases vs.len(),
{
    if vs.len() == 0 {
        Some(acc)
    } else {
        match vs.first() {
            SpecValue::Int(v) => spec_product(
                vstd::wrapping::i64_specs::wrapping_mul(acc, v as i64),
                vs.drop_first(),
            ),
            _ => None,
        }
    }
}

/// The result of applying a primitive to evaluated operands.
pub open spec fn spec_builtin_out(f: BuiltInFunType, vs: Seq<SpecValue>) -> SpecOut {
    match f {
        BuiltInFunType::Add => match spec_sum(0, vs) {
            Some(r) => SpecOut::Val(SpecValue::Int(r as int)),
            None => SpecOut::Fail,
        },
        BuiltInFunType::Mul => match spec_product(1, vs) {
            Some(r) => SpecOut::Val(SpecValue::Int(r as int)),
            None => SpecOut::Fail,
        },
        BuiltInFunType::Sub => if vs.len() == 2 && vs[0] is Int && vs[1] is Int {
            SpecOut::Val(
                SpecValue::Int(
                    vstd::wrapping::i64_specs::wrapping_sub(
                        vs[0]->Int_0 as i64,
                        vs[1]->Int_0 as i64,
                    ) as int,
                ),
            )
        } else {
            SpecOut::Fail
        },
        BuiltInFunType::Eq => if vs.len() == 2 {
            SpecOut::Val(SpecValue::Bool(vs[0] == vs[1]))
        } else {
            SpecOut::Fail
        },
        BuiltInFunType::Cons => if vs.len() == 2 {
            SpecOut::Val(SpecValue::Pair(Box::new(vs[0]), Box::new(vs[1])))
        } else {
            SpecOut::Fail
        },
        BuiltInFunType::Car => if vs.len() == 1 && vs[0] is Pair {
            SpecOut::Val(*vs[0]->Pair_0)
        } else {
            SpecOut::Fail
        },
        BuiltInFunType::Cdr => if vs.len() == 1 && vs[0] is Pair {
            SpecOut::Val(*vs[0]->Pair_1)
        } else {
            SpecOut::Fail
        },
        BuiltInFunType::IsNull => if vs.len() == 1 {
            SpecOut::Val(SpecValue::Bool(vs[0] is Null))
        } else {
            SpecOut::Fail
        },
        BuiltInFunType::Display => if vs.len() == 1 {
            SpecOut::Val(SpecValue::Void)
        } else {
            SpecOut::Fail
        },
    }
}

/// What a primitive writes to the display output: `display` writes its
/// operand's unquoted external form, the others write nothing.
pub open spec fn spec_builtin_log(f: BuiltInFunType, vs: Seq<SpecValue>) -> Seq<char> {
    if f is Display && vs.len() == 1 {
        spec_print(vs[0])
    } else {
        Seq::empty()
    }
}

/// Applying a primitive: result plus the display output it appends.
pub open spec fn spec_apply_builtin(f: BuiltInFunType, vs: Seq<SpecValue>, st: SpecState) -> SpecRun {
    SpecRun {
        out: spec_builtin_out(f, vs),
        st: SpecState { frames: st.frames, log: st.log + spec_builtin_log(f, vs) },
    }
}

/// How the head of a form is dispatched: one of the special forms, or an
/// application.
#[derive(PartialEq, Eq, Structural, Clone, Copy, Debug)]
pub enum FormKind {
    Define,
    DefMacro,
    Lambda,
    If,
    Quote,
    QuasiQuote,
    Unquote,
    Apply,
}

/// A special-form head beats any binding of the same name.
pub open spec fn spec_form_kind(head: SpecValue) -> FormKind {
    match head {
        SpecValue::Symbol(s) => if s == "define"@ {
            FormKind::Define
        } else if s == "defmacro"@ {
            FormKind::DefMacro
        } else if s == "lambda"@ {
            FormKind::Lambda
        } else if s == "if"@ {
            FormKind::If
        } else if s == "quote"@ {
            FormKind::Quote
        } else if s == "quasiquote"@ {
            FormKind::QuasiQuote
        } else if s == "unquote"@ {
            FormKind::Unquote
        } else {
            FormKind::Apply
        },
        _ => FormKind::Apply,
    }
}

/// One step of the specification interpreter. The step budget `fuel`
/// bounds the interpreter's recursion: every step consumes one unit, and
/// a budget of zero yields `Spent`.
pub open spec fn spec_eval(e: SpecValue, env: int, st: SpecState, fuel: nat) -> SpecRun
    decreases fuel, 0int, 0int,
{
    if fuel == 0 {
        run_spent(st)
    } else {
        let g = (fuel - 1) as nat;
        match e {
            SpecValue::Symbol(s) => if s == "null"@ {
                run_val(SpecValue::Null, st)
            } else {
                match spec_lookup(st.frames, env, s) {
                    Some(v) => run_val(v, st),
                    None => run_val(SpecValue::Void, st),
                }
            },
            SpecValue::Int(i) => run_val(e, st),
            SpecValue::Bool(b) => run_val(e, st),
            SpecValue::Null => run_val(e, st),
            SpecValue::Pair(a, d) => match spec_spine(e) {
                Some(lst) => spec_eval_form(lst, env, st, g),
                None => run_fail(st),
            },
            _ => run_fail(st),
        }
    }
}

/// Dispatch of a form on its head.
pub open spec fn spec_eval_form(lst: Seq<SpecValue>, env: int, st: SpecState, fuel: nat) -> SpecRun
    decreases fuel, 4int, 0int,
{
    match spec_form_kind(lst[0]) {
        FormKind::Define => spec_eval_define(lst, env, st, fuel, false),
        FormKind::DefMacro => spec_eval_define(lst, env, st, fuel, true),
        FormKind::Lambda => if lst.len() >= 3 {
            run_val(
                SpecValue::Closure {
                    env,
                    body: Box::new(spec_list(lst.skip(2), SpecValue::Null)),
                    params: Box::new(lst[1]),
                    is_macro: false,
                },
                st,
            )
        } else {
            run_fail(st)
        },
        FormKind::If => if lst.len() == 4 {
            let c = spec_eval(lst[1], env, st, fuel);
            match c.out {
                SpecOut::Val(SpecValue::Bool(b)) => if b {
                    spec_eval(lst[2], env, c.st, fuel)
                } else {
                    spec_eval(lst[3], env, c.st, fuel)
                },
                SpecOut::Val(v) => run_fail(c.st),
                _ => c,
            }
        } else {
            run_fail(st)
        },
        FormKind::Quote => if lst.len() == 2 {
            run_val(lst[1], st)
        } else {
            run_fail(st)
        },
        FormKind::QuasiQuote => if lst.len() == 2 {
            spec_quasi(lst[1], env, st, fuel)
        } else {
            run_fail(st)
        },
        FormKind::Unquote => run_fail(st),
        FormKind::Apply => spec_apply(lst, env, st, fuel),
    }
}

/// `define` and `defmacro`: bind a name to a value or to a fresh closure.
pub open spec fn spec_eval_define(
    lst: Seq<SpecValue>,
    env: int,
    st: SpecState,
    fuel: nat,
    is_macro: bool,
) -> SpecRun
    decreases fuel, 3int, 0int,
{
    if lst.len() == 3 && lst[1] is Symbol {
        let r = spec_eval(lst[2], env, st, fuel);
        match r.out {
            SpecOut::Val(v) => SpecRun {
                out: SpecOut::Val(SpecValue::Void),
                st: SpecState {
                    frames: spec_define(r.st.frames, env, lst[1]->Symbol_0, v),
                    log: r.st.log,
                },
            },
            _ => r,
        }
    } else if lst.len() >= 3 && lst[1] is Pair && (*lst[1]->Pair_0) is Symbol {
        let name = (*lst[1]->Pair_0)->Symbol_0;
        let clo = SpecValue::Closure {
            env,
            body: Box::new(spec_list(lst.skip(2), SpecValue::Null)),
            params: lst[1]->Pair_1,
            is_macro,
        };
        SpecRun {
            out: SpecOut::Val(SpecValue::Void),
            st: SpecState { frames: spec_define(st.frames, env, name, clo), log: st.log },
        }
    } else {
        run_fail(st)
    }
}

/// The evaluated operands of a call, or the first fault.
pub enum SpecValsOut {
    Vals(Seq<SpecValue>),
    Fail,
    Spent,
}

pub struct SpecValsRun {
    pub out: SpecValsOut,
    pub st: SpecState,
}

/// Left-to-right evaluation of the operands of a call.
pub open spec fn spec_eval_args(
    args: Seq<SpecValue>,
    env: int,
    st: SpecState,
    fuel: nat,
) -> SpecValsRun
    decreases fuel, 1int, args.len() as int,
{
    if args.len() == 0 {
        SpecValsRun { out: SpecValsOut::Vals(Seq::empty()), st }
    } else {
        let r = spec_eval(args.first(), env, st, fuel);
        match r.out {
            SpecOut::Val(v) => {
                let rr = spec_eval_args(args.drop_first(), env, r.st, fuel);
                match rr.out {
                    SpecValsOut::Vals(vs) => SpecValsRun {
                        out: SpecValsOut::Vals(seq![v] + vs),
                        st: rr.st,
                    },
                    _ => rr,
                }
            },
            SpecOut::Fail => SpecValsRun { out: SpecValsOut::Fail, st: r.st },
            SpecOut::Spent => SpecValsRun { out: SpecValsOut::Spent, st: r.st },
        }
    }
}

/// A body's leading forms, evaluated in order for effect; the outcome is
/// `Void` when all of them succeed.
pub open spec fn spec_eval_seq(forms: Seq<SpecValue>, env: int, st: SpecState, fuel: nat) -> SpecRun
    decreases fuel, 1int, forms.len() as int,
{
    if forms.len() == 0 {
        run_val(SpecValue::Void, st)
    } else {
        let r = spec_eval(forms.first(), env, st, fuel);
        match r.out {
            SpecOut::Val(v) => spec_eval_seq(forms.drop_first(), env, r.st, fuel),
            _ => r,
        }
    }
}

/// The quasi-quotation walker: copies its argument, replacing every
/// `(unquote EXPR)` pair by the value of `EXPR` in the current
/// environment, at any depth.
pub open spec fn spec_quasi(e: SpecValue, env: int, st: SpecState, fuel: nat) -> SpecRun
    decreases fuel, 1int, vheight(e) as int,
{
    match e {
        SpecValue::Pair(a, d) => {
            if is_sym(*a, "unquote"@) && (*d) is Pair {
                spec_eval(*(*d)->Pair_0, env, st, fuel)
            } else {
                let ra = spec_quasi(*a, env, st, fuel);
                match ra.out {
                    SpecOut::Val(va) => {
                        let rd = spec_quasi(*d, env, ra.st, fuel);
                        match rd.out {
                            SpecOut::Val(vd) => run_val(
                                SpecValue::Pair(Box::new(va), Box::new(vd)),
                                rd.st,
                            ),
                            _ => rd,
                        }
                    },
                    _ => ra,
                }
            }
        },
        _ => run_val(e, st),
    }
}

/// Application: evaluate the head; a primitive takes its evaluated
/// operands; a procedure binds evaluated operands in a fresh frame under
/// its captured frame and runs its body, the last form in tail position;
/// a macro binds the unevaluated operand forms, evaluates its body to an
/// expansion, and the expansion is evaluated in the caller's environment.
pub open spec fn spec_apply(lst: Seq<SpecValue>, env: int, st: SpecState, fuel: nat) -> SpecRun
    decreases fuel, 3int, 0int,
{
    let rf = spec_eval(lst[0], env, st, fuel);
    match rf.out {
        SpecOut::Val(f) => match f {
            SpecValue::BuiltInFun(b) => {
                let ra = spec_eval_args(lst.drop_first(), env, rf.st, fuel);
                match ra.out {
                    SpecValsOut::Vals(vs) => spec_apply_builtin(b, vs, ra.st),
                    SpecValsOut::Fail => run_fail(ra.st),
                    SpecValsOut::Spent => run_spent(ra.st),
                }
            },
            SpecValue::Closure { env: cenv, body, params, is_macro } => {
                if is_macro {
                    let nid = rf.st.frames.len() as int;
                    let frames1 = spec_new_frame(rf.st.frames, cenv);
                    let b = spec_bind(
                        *params,
                        spec_list(lst.drop_first(), SpecValue::Null),
                        frames1,
                        nid,
                    );
                    let st1 = SpecState { frames: b.1, log: rf.st.log };
                    if b.0 {
                        spec_run_body_macro(*body, nid, env, st1, fuel)
                    } else {
                        run_fail(st1)
                    }
                } else {
                    let ra = spec_eval_args(lst.drop_first(), env, rf.st, fuel);
                    match ra.out {
                        SpecValsOut::Vals(vs) => {
                            let nid = ra.st.frames.len() as int;
                            let frames1 = spec_new_frame(ra.st.frames, cenv);
                            let b = spec_bind(*params, spec_list(vs, SpecValue::Null), frames1, nid);
                            let st1 = SpecState { frames: b.1, log: ra.st.log };
                            if b.0 {
                                spec_run_body(*body, nid, st1, fuel)
                            } else {
                                run_fail(st1)
                            }
                        },
                        SpecValsOut::Fail => run_fail(ra.st),
                        SpecValsOut::Spent => run_spent(ra.st),
                    }
                }
            },
            _ => run_fail(rf.st),
        },
        _ => rf,
    }
}

/// A procedure body: the leading forms for effect, the last in tail
/// position.
pub open spec fn spec_run_body(body: SpecValue, frame: int, st: SpecState, fuel: nat) -> SpecRun
    decreases fuel, 2int, 0int,
{
    match spec_spine(body) {
        Some(forms) => if forms.len() > 0 {
            let rs = spec_eval_seq(forms.drop_last(), frame, st, fuel);
            match rs.out {
                SpecOut::Val(v) => spec_eval(forms.last(), frame, rs.st, fuel),
                _ => rs,
            }
        } else {
            run_fail(st)
        },
        None => run_fail(st),
    }
}

/// A macro body: as a procedure body, but the resulting expansion is then
/// evaluated in the caller's environment `env`.
pub open spec fn spec_run_body_macro(
    body: SpecValue,
    frame: int,
    env: int,
    st: SpecState,
    fuel: nat,
) -> SpecRun
    decreases fuel, 2int, 0int,
{
    match spec_spine(body) {
        Some(forms) => if forms.len() > 0 {
            let rs = spec_eval_seq(forms.drop_last(), frame, st, fuel);
            match rs.out {
                SpecOut::Val(v) => {
                    let re = spec_eval(forms.last(), frame, rs.st, fuel);
                    match re.out {
                        SpecOut::Val(x) => spec_eval(x, env, re.st, fuel),
                        _ => re,
                    }
                },
                _ => rs,
            }
        } else {
            run_fail(st)
        },
        None => run_fail(st),
    }
}

/// A program: top-level expressions evaluated left to right, each with
/// the full step budget; the value is the last expression's (Void for an
/// empty program).
pub open spec fn spec_eval_program(
    exps: Seq<SpecValue>,
    env: int,
    st: SpecState,
    fuel: nat,
    acc: SpecValue,
) -> SpecRun
    decreases exps.len(),
{
    if exps.len() == 0 {
        run_val(acc, st)
    } else {
        let r = spec_eval(exps.first(), env, st, fuel);
        match r.out {
            SpecOut::Val(v) => spec_eval_program(exps.drop_first(), env, r.st, fuel, v),
            _ => r,
        }
    }
}

/// A source text: read it, then evaluate its expressions; a read fault is
/// a fault of the whole program.
pub open spec fn spec_eval_source(src: Seq<char>, env: int, st: SpecState, fuel: nat) -> SpecRun {
    match crate::parser::spec_parse_all(crate::lex::spec_tokenize(src)) {
        Some(exps) => spec_eval_program(exps, env, st, fuel, SpecValue::Void),
        None => run_fail(st),
    }
}

/// The step budget the interactive entry points use: large enough that no
/// realistic evaluation exhausts it.
pub const STEP_LIMIT: u64 = 0xffff_ffff_ffff_ffff;

fn fault(text: &str) -> EvalError {
    EvalError { msg: String::from_str(text) }
}

/// Applies a primitive to its evaluated operands. `display` appends its
/// operand's unquoted external form to `out`; no other primitive writes.
#[verifier::loop_isolation(false)]
pub fn apply_built_in_function(
    f: BuiltInFunType,
    params: Vec<Rc<Value>>,
    out: &mut String,
) -> (r: Result<Rc<Value>, EvalError>)
    ensures
        final(out)@ == old(out)@ + spec_builtin_log(f, views_of(params@)),
        match r {
            Ok(v) => spec_builtin_out(f, views_of(params@)) == SpecOut::Val(v@),
            Err(e) => spec_builtin_out(f, views_of(params@)) is Fail,
        },
{
    let ghost vs = views_of(params@);
    proof {
        assert(out@ + Seq::<char>::empty() =~= out@);
    }
    match f {
        BuiltInFunType::Add => {
            let mut res: i64 = 0;
            let mut i: usize = 0;
            proof {
                assert(vs.skip(0) =~= vs);
            }
            while i < params.len()
                invariant
                    i <= params@.len(),
                    vs == views_of(params@),
                    spec_sum(0, vs) == spec_sum(res, vs.skip(i as int)),
                decreases params@.len() - i,
            {
                proof {
                    assert(vs.skip(i as int).first() == params@[i as int]@);
                    assert(vs.skip(i as int).drop_first() =~= vs.skip(i as int + 1));
                }
                match &*params[i] {
                    Value::Int(v) => {
                        res = res.wrapping_add(*v);
                        i = i + 1;
                    },
                    other => {
                        proof {
                            crate::value::lemma_model_variant(*other);
                        }
                        return Err(fault("cannot add non int value"));
                    },
                }
            }
            proof {
                assert(vs.skip(params@.len() as int) =~= Seq::<SpecValue>::empty());
            }
            Ok(Rc::new(Value::Int(res)))
        },
        BuiltInFunType::Mul => {
            let mut res: i64 = 1;
            let mut i: usize = 0;
            proof {
                assert(vs.skip(0) =~= vs);
            }
            while i < params.len()
                invariant
                    i <= params@.len(),
                    vs == views_of(params@),
                    spec_product(1, vs) == spec_product(res, vs.skip(i as int)),
                decreases params@.len() - i,
            {
                proof {
                    assert(vs.skip(i as int).first() == params@[i as int]@);
                    assert(vs.skip(i as int).drop_first() =~= vs.skip(i as int + 1));
                }
                match &*params[i] {
                    Value::Int(v) => {
                        res = res.wrapping_mul(*v);
                        i = i + 1;
                    },
                    other => {
                        proof {
                            crate::value::lemma_model_variant(*other);
                        }
                        return Err(fault("cannot multiply non int value"));
                    },
                }
            }
            proof {
                assert(vs.skip(params@.len() as int) =~= Seq::<SpecValue>::empty());
            }
            Ok(Rc::new(Value::Int(res)))
        },
        BuiltInFunType::Eq => {
            if params.len() == 2 {
                proof {
                    assert(vs[0] == params@[0]@ && vs[1] == params@[1]@);
                }
                Ok(Rc::new(Value::Bool(crate::value::value_eq(&params[0], &params[1]))))
            } else {
                Err(fault("eq? takes exactly two operands"))
            }
        },
        BuiltInFunType::Sub => {
            if params.len() == 2 {
                proof {
                    assert(vs[0] == params@[0]@ && vs[1] == params@[1]@);
                }
                match (&*params[0], &*params[1]) {
                    (Value::Int(a), Value::Int(b)) => Ok(Rc::new(Value::Int(a.wrapping_sub(*b)))),
                    (x, y) => {
                        proof {
                            crate::value::lemma_model_variant(*x);
                            crate::value::lemma_model_variant(*y);
                        }
                        Err(fault("- only applies to integers"))
                    },
                }
            } else {
                Err(fault("- takes exactly two operands"))
            }
        },
        BuiltInFunType::Cons => {
            if params.len() == 2 {
                proof {
                    assert(vs[0] == params@[0]@ && vs[1] == params@[1]@);
                }
                Ok(Rc::new(Value::Pair(rc_dup(&params[0]), rc_dup(&params[1]))))
            } else {
                Err(fault("cons takes exactly two operands"))
            }
        },
        BuiltInFunType::Car => {
            if params.len() == 1 {
                proof {
                    assert(vs[0] == params@[0]@);
                }
                match &*params[0] {
                    Value::Pair(a, d) => Ok(rc_dup(a)),
                    other => {
                        proof {
                            crate::value::lemma_model_variant(*other);
                        }
                        Err(fault("car only applies to pairs"))
                    },
                }
            } else {
                Err(fault("car takes exactly one operand"))
            }
        },
        BuiltInFunType::Cdr => {
            if params.len() == 1 {
                proof {
                    assert(vs[0] == params@[0]@);
                }
                match &*params[0] {
                    Value::Pair(a, d) => Ok(rc_dup(d)),
                    other => {
                        proof {
                            crate::value::lemma_model_variant(*other);
                        }
                        Err(fault("cdr only applies to pairs"))
                    },
                }
            } else {
                Err(fault("cdr takes exactly one operand"))
            }
        },
        BuiltInFunType::IsNull => {
            if params.len() == 1 {
                proof {
                    assert(vs[0] == params@[0]@);
                }
                match &*params[0] {
                    Value::Null => Ok(Rc::new(Value::Bool(true))),
                    other => {
                        proof {
                            crate::value::lemma_model_variant(*other);
                        }
                        Ok(Rc::new(Value::Bool(false)))
                    },
                }
            } else {
                Err(fault("null? takes exactly one operand"))
            }
        },
        BuiltInFunType::Display => {
            if params.len() == 1 {
                proof {
                    assert(vs[0] == params@[0]@);
                }
                let text = crate::value::to_string_helper(&params[0]);
                out.append(text.as_str());
                Ok(Rc::new(Value::Void))
            } else {
                Err(fault("display takes exactly one operand"))
            }
        },
    }
}

/// Binds an argument list against a parameter specification into frame
/// `frame`, writing each binding as it goes. Binding succeeds exactly
/// when the arguments structurally match the parameter specification.
fn bind_helper(
    params: &Rc<Value>,
    values: &Rc<Value>,
    st: &mut crate::env::Env,
    frame: usize,
) -> (r: Result<(), EvalError>)
    ensures
        ({
            let b = spec_bind(params@, values@, old(st)@, frame as int);
            &&& final(st)@ == b.1
            &&& (r is Ok <==> b.0)
        }),
        r is Ok <==> param_match(params@, values@),
    decreases vheight(params@),
{
    proof {
        reveal_with_fuel(crate::value::value_model, 3);
        lemma_bind_iff_match(params@, values@, st@, frame as int);
    }
    match &**params {
        Value::Null => {
            match &**values {
                Value::Null => Ok(()),
                other => {
                    proof {
                        crate::value::lemma_model_variant(*other);
                    }
                    Err(fault("binding failed"))
                },
            }
        },
        Value::Pair(ph, pt) => {
            match &**ph {
                Value::Symbol(name) => {
                    match &**values {
                        Value::Pair(vh, vt) => {
                            st.set(frame, name.as_str(), rc_dup(vh));
                            bind_helper(pt, vt, st, frame)
                        },
                        other => {
                            proof {
                                crate::value::lemma_model_variant(*other);
                            }
                            Err(fault("binding failed"))
                        },
                    }
                },
                other => {
                    proof {
                        crate::value::lemma_model_variant(*other);
                    }
                    Err(fault("binding failed"))
                },
            }
        },
        Value::Symbol(s) => {
            st.set(frame, s.as_str(), rc_dup(values));
            Ok(())
        },
        other => {
            proof {
                crate::value::lemma_model_variant(*other);
            }
            Err(fault("binding failed"))
        },
    }
}

/// How the head of a form is dispatched in the running evaluator.
fn form_kind(head: &Rc<Value>) -> (k: FormKind)
    ensures
        k == spec_form_kind(head@),
{
    match &**head {
        Value::Symbol(s) => {
            if str_eq(s.as_str(), "define") {
                FormKind::Define
            } else if str_eq(s.as_str(), "defmacro") {
                FormKind::DefMacro
            } else if str_eq(s.as_str(), "lambda") {
                FormKind::Lambda
            } else if str_eq(s.as_str(), "if") {
                FormKind::If
            } else if str_eq(s.as_str(), "quote") {
                FormKind::Quote
            } else if str_eq(s.as_str(), "quasiquote") {
                FormKind::QuasiQuote
            } else if str_eq(s.as_str(), "unquote") {
                FormKind::Unquote
            } else {
                FormKind::Apply
            }
        },
        other => {
            proof {
                crate::value::lemma_model_variant(*other);
            }
            FormKind::Apply
        },
    }
}

/// Evaluates the operands of a call, left to right, from index `from`.
#[verifier::loop_isolation(false)]
fn eval_args(
    items: &Vec<Rc<Value>>,
    from: usize,
    env: usize,
    st: &mut crate::env::Env,
    out: &mut String,
    fuel: u64,
) -> (r: Result<Vec<Rc<Value>>, EvalError>)
    requires
        from <= items@.len(),
    ensures
        ({
            let run = spec_eval_args(
                views_of(items@).skip(from as int),
                env as int,
                SpecState { frames: old(st)@, log: old(out)@ },
                fuel as nat,
            );
            &&& final(st)@ == run.st.frames
            &&& final(out)@ == run.st.log
            &&& match r {
                Ok(vals) => run.out == SpecValsOut::Vals(views_of(vals@)),
                Err(e) => run.out is Fail || run.out is Spent,
            }
        }),
    decreases fuel, 1int, 0int,
{
    let ghost run = spec_eval_args(
        views_of(items@).skip(from as int),
        env as int,
        SpecState { frames: st@, log: out@ },
        fuel as nat,
    );
    let mut vals: Vec<Rc<Value>> = Vec::new();
    let mut i: usize = from;
    proof {
        assert(views_of(vals@) =~= Seq::<SpecValue>::empty());
        assert(Seq::<SpecValue>::empty() + views_of(items@).skip(from as int) =~= views_of(
            items@,
        ).skip(from as int));
    }
    while i < items.len()
        invariant
            from <= i <= items@.len(),
            ({
                let rem = spec_eval_args(
                    views_of(items@).skip(i as int),
                    env as int,
                    SpecState { frames: st@, log: out@ },
                    fuel as nat,
                );
                &&& run.st == rem.st
                &&& match rem.out {
                    SpecValsOut::Vals(ws) => run.out == SpecValsOut::Vals(views_of(vals@) + ws),
                    SpecValsOut::Fail => run.out is Fail,
                    SpecValsOut::Spent => run.out is Spent,
                }
            }),
        decreases items@.len() - i,
    {
        proof {
            assert(views_of(items@).skip(i as int).first() == items@[i as int]@);
            assert(views_of(items@).skip(i as int).drop_first() =~= views_of(items@).skip(
                i as int + 1,
            ));
        }
        match eval_helper(&items[i], env, st, out, fuel) {
            Ok(v) => {
                let ghost prev_vals = vals@;
                vals.push(v);
                proof {
                    assert(views_of(vals@) =~= views_of(prev_vals).push(v@));
                    let rem2 = spec_eval_args(
                        views_of(items@).skip(i as int + 1),
                        env as int,
                        SpecState { frames: st@, log: out@ },
                        fuel as nat,
                    );
                    match rem2.out {
                        SpecValsOut::Vals(ws) => {
                            assert(views_of(prev_vals) + (seq![v@] + ws) =~= views_of(vals@) + ws);
                        },
                        _ => {},
                    }
                }
                i = i + 1;
            },
            Err(e) => {
                return Err(e);
            },
        }
    }
    proof {
        assert(views_of(items@).skip(items@.len() as int) =~= Seq::<SpecValue>::empty());
        assert(views_of(vals@) + Seq::<SpecValue>::empty() =~= views_of(vals@));
    }
    Ok(vals)
}

/// Evaluates a body's leading forms (all but the last) in order,
/// discarding their values.
#[verifier::loop_isolation(false)]
fn eval_body_prefix(
    forms: &Vec<Rc<Value>>,
    frame: usize,
    st: &mut crate::env::Env,
    out: &mut String,
    fuel: u64,
) -> (r: Result<(), EvalError>)
    requires
        forms@.len() >= 1,
    ensures
        ({
            let run = spec_eval_seq(
                views_of(forms@).drop_last(),
                frame as int,
                SpecState { frames: old(st)@, log: old(out)@ },
                fuel as nat,
            );
            &&& final(st)@ == run.st.frames
            &&& final(out)@ == run.st.log
            &&& match r {
                Ok(u) => run.out is Val,
                Err(e) => run.out is Fail || run.out is Spent,
            }
        }),
    decreases fuel, 1int, 0int,
{
    let ghost run = spec_eval_seq(
        views_of(forms@).drop_last(),
        frame as int,
        SpecState { frames: st@, log: out@ },
        fuel as nat,
    );
    let ghost pviews = views_of(forms@).drop_last();
    let n: usize = forms.len() - 1;
    let mut j: usize = 0;
    proof {
        assert(pviews.skip(0) =~= pviews);
    }
    while j < n
        invariant
            j <= n,
            n == forms@.len() - 1,
            ({
                let rem = spec_eval_seq(
                    pviews.skip(j as int),
                    frame as int,
                    SpecState { frames: st@, log: out@ },
                    fuel as nat,
                );
                &&& run.st == rem.st
                &&& match rem.out {
                    SpecOut::Val(u) => run.out is Val,
                    SpecOut::Fail => run.out is Fail,
                    SpecOut::Spent => run.out is Spent,
                }
            }),
        decreases n - j,
    {
        proof {
            assert(pviews.skip(j as int).first() == forms@[j as int]@);
            assert(pviews.skip(j as int).drop_first() =~= pviews.skip(j as int + 1));
        }
        match eval_helper(&forms[j], frame, st, out, fuel) {
            Ok(v) => {
                j = j + 1;
            },
            Err(e) => {
                return Err(e);
            },
        }
    }
    proof {
        assert(pviews.skip(n as int) =~= Seq::<SpecValue>::empty());
    }
    Ok(())
}

/// The quasi-quotation walker: copies its argument, evaluating each
/// `(unquote EXPR)` in the current environment.
fn quasiquote_helper(
    exp: &Rc<Value>,
    env: usize,
    st: &mut crate::env::Env,
    out: &mut String,
    fuel: u64,
) -> (r: Result<Rc<Value>, EvalError>)
    ensures
        ({
            let run = spec_quasi(
                exp@,
                env as int,
                SpecState { frames: old(st)@, log: old(out)@ },
                fuel as nat,
            );
            &&& final(st)@ == run.st.frames
            &&& final(out)@ == run.st.log
            &&& match r {
                Ok(v) => run.out == SpecOut::Val(v@),
                Err(e) => run.out is Fail || run.out is Spent,
            }
        }),
    decreases fuel, 1int, vheight(exp@) as int,
{
    match &**exp {
        Value::Pair(a, d) => {
            proof {
                reveal_with_fuel(crate::value::value_model, 3);
            }
            let is_unq: bool = match &**a {
                Value::Symbol(s) => str_eq(s.as_str(), "unquote"),
                other => {
                    proof {
                        crate::value::lemma_model_variant(*other);
                    }
                    false
                },
            };
            proof {
                assert(is_unq == is_sym(*exp@->Pair_0, "unquote"@));
            }
            match &**d {
                Value::Pair(b, r2) if is_unq => eval_helper(b, env, st, out, fuel),
                other_d => {
                    proof {
                        crate::value::lemma_model_variant(*other_d);
                    }
                    let va = match quasiquote_helper(a, env, st, out, fuel) {
                        Ok(v) => v,
                        Err(e) => {
                            return Err(e);
                        },
                    };
                    let vd = match quasiquote_helper(d, env, st, out, fuel) {
                        Ok(v) => v,
                        Err(e) => {
                            return Err(e);
                        },
                    };
                    Ok(Rc::new(Value::Pair(va, vd)))
                },
            }
        },
        _ => Ok(rc_dup(exp)),
    }
}


/// What one application step does: produce a value, fail, or hand the
/// trampoline a new (expression, environment) pair in tail position.
pub(crate) enum TailStep {
    Value(Rc<Value>),
    Error(EvalError),
    Tail(Rc<Value>, usize),
}

/// Performs one application: evaluates the head and dispatches on it.
/// For a procedure or macro the body's last form is handed back as a
/// tail step rather than evaluated here.
fn apply_form(
    lst: &Vec<Rc<Value>>,
    env: usize,
    st: &mut crate::env::Env,
    out: &mut String,
    fuel: u64,
) -> (r: TailStep)
    requires
        lst@.len() >= 1,
    ensures
        ({
            let run = spec_apply(
                views_of(lst@),
                env as int,
                SpecState { frames: old(st)@, log: old(out)@ },
                fuel as nat,
            );
            match r {
                TailStep::Value(v) => final(st)@ == run.st.frames && final(out)@ == run.st.log
                    && run.out == SpecOut::Val(v@),
                TailStep::Error(e) => final(st)@ == run.st.frames && final(out)@ == run.st.log
                    && (run.out is Fail || run.out is Spent),
                TailStep::Tail(c, e2) => run == spec_eval(
                    c@,
                    e2 as int,
                    SpecState { frames: final(st)@, log: final(out)@ },
                    fuel as nat,
                ),
            }
        }),
    decreases fuel, 2int, 0int,
{
    proof {
        reveal_with_fuel(crate::value::value_model, 3);
        reveal_with_fuel(spec_apply, 2);
        reveal_with_fuel(spec_run_body, 2);
        reveal_with_fuel(spec_run_body_macro, 2);
        reveal_with_fuel(spec_eval_args, 2);
        reveal_with_fuel(spec_eval_seq, 2);
    }
    let ghost lvs = views_of(lst@);
    proof {
        assert(forall|k: int| 0 <= k < lst@.len() ==> #[trigger] lvs[k] == lst@[k]@);
        assert(views_of(lst@).skip(1) =~= views_of(lst@).drop_first());
    }
    let fv = match eval_helper(&lst[0], env, st, out, fuel) {
        Ok(v) => v,
        Err(e) => {
            return TailStep::Error(e);
        },
    };
    match &*fv {
        Value::BuiltInFun(b) => {
            let args = match eval_args(lst, 1, env, st, out, fuel) {
                Ok(a) => a,
                Err(e) => {
                    return TailStep::Error(e);
                },
            };
            match apply_built_in_function(*b, args, out) {
                Ok(v) => TailStep::Value(v),
                Err(e) => TailStep::Error(e),
            }
        },
        Value::Closure { env: cenv, body, params, is_macro } => {
            if *is_macro {
                let nid = st.new_with_parent(*cenv);
                let raw = crate::value::make_list(lst, 1, Rc::new(Value::Null));
                match bind_helper(params, &raw, st, nid) {
                    Ok(u) => {},
                    Err(e) => {
                        return TailStep::Error(e);
                    },
                }
                let forms = match crate::value::list_to_vec(body) {
                    Some(fs) => fs,
                    None => {
                        return TailStep::Error(fault("macro body is not a list"));
                    },
                };
                if forms.len() == 0 {
                    return TailStep::Error(fault("macro body is empty"));
                }
                match eval_body_prefix(&forms, nid, st, out, fuel) {
                    Ok(u) => {},
                    Err(e) => {
                        return TailStep::Error(e);
                    },
                }
                proof {
                    assert(views_of(forms@).last() == forms@[forms@.len() - 1]@);
                }
                match eval_helper(&forms[forms.len() - 1], nid, st, out, fuel) {
                    Ok(x) => TailStep::Tail(x, env),
                    Err(e) => TailStep::Error(e),
                }
            } else {
                let args = match eval_args(lst, 1, env, st, out, fuel) {
                    Ok(a) => a,
                    Err(e) => {
                        return TailStep::Error(e);
                    },
                };
                let nid = st.new_with_parent(*cenv);
                proof {
                    assert(views_of(args@).skip(0) =~= views_of(args@));
                }
                let vals_list = crate::value::make_list(&args, 0, Rc::new(Value::Null));
                match bind_helper(params, &vals_list, st, nid) {
                    Ok(u) => {},
                    Err(e) => {
                        return TailStep::Error(e);
                    },
                }
                let forms = match crate::value::list_to_vec(body) {
                    Some(fs) => fs,
                    None => {
                        return TailStep::Error(fault("procedure body is not a list"));
                    },
                };
                if forms.len() == 0 {
                    return TailStep::Error(fault("procedure body is empty"));
                }
                match eval_body_prefix(&forms, nid, st, out, fuel) {
                    Ok(u) => {},
                    Err(e) => {
                        return TailStep::Error(e);
                    },
                }
                proof {
                    assert(views_of(forms@).last() == forms@[forms@.len() - 1]@);
                }
                TailStep::Tail(rc_dup(&forms[forms.len() - 1]), nid)
            }
        },
        other => {
            proof {
                crate::value::lemma_model_variant(*other);
            }
            TailStep::Error(fault("unknown function type"))
        },
    }
}

/// The evaluator's trampoline: reduces an expression under an
/// environment, rewriting the (expression, environment) pair in tail
/// position instead of recursing. Returns exactly what the specification
/// interpreter returns for the same step budget.
#[verifier::loop_isolation(false)]
#[verifier::rlimit(100)]
pub(crate) fn eval_helper(
    cur0: &Rc<Value>,
    env0: usize,
    st: &mut crate::env::Env,
    out: &mut String,
    fuel: u64,
) -> (r: Result<Rc<Value>, EvalError>)
    ensures
        ({
            let run = spec_eval(
                cur0@,
                env0 as int,
                SpecState { frames: old(st)@, log: old(out)@ },
                fuel as nat,
            );
            &&& final(st)@ == run.st.frames
            &&& final(out)@ == run.st.log
            &&& match r {
                Ok(v) => run.out == SpecOut::Val(v@),
                Err(e) => run.out is Fail || run.out is Spent,
            }
        }),
    decreases fuel, 0int, 0int,
{
    let ghost run0 = spec_eval(
        cur0@,
        env0 as int,
        SpecState { frames: st@, log: out@ },
        fuel as nat,
    );
    let mut cur: Rc<Value> = rc_dup(cur0);
    let mut env: usize = env0;
    let mut fl: u64 = fuel;
    loop
        invariant
            fl <= fuel,
            run0 == spec_eval(
                cur@,
                env as int,
                SpecState { frames: st@, log: out@ },
                fl as nat,
            ),
        decreases fl,
    {
        if fl == 0 {
            return Err(fault("step budget exhausted"));
        }
        fl = fl - 1;
        let ghost pre = SpecState { frames: st@, log: out@ };
        proof {
            reveal_with_fuel(crate::value::value_model, 3);
            reveal_with_fuel(spec_eval, 2);
            reveal_with_fuel(spec_eval_form, 2);
            reveal_with_fuel(spec_eval_define, 2);
            reveal_with_fuel(spec_apply, 2);
            reveal_with_fuel(spec_run_body, 2);
            reveal_with_fuel(spec_run_body_macro, 2);
            reveal_with_fuel(spec_eval_args, 2);
            reveal_with_fuel(spec_eval_seq, 2);
            reveal_with_fuel(spec_quasi, 2);
        }
        match &*cur {
            Value::Symbol(s) => {
                if str_eq(s.as_str(), "null") {
                    return Ok(Rc::new(Value::Null));
                }
                match st.get(env, s.as_str()) {
                    Some(v) => {
                        return Ok(v);
                    },
                    None => {
                        return Ok(Rc::new(Value::Void));
                    },
                }
            },
            Value::Int(i) => {
                return Ok(rc_dup(&cur));
            },
            Value::Bool(b) => {
                return Ok(rc_dup(&cur));
            },
            Value::Null => {
                return Ok(rc_dup(&cur));
            },
            Value::Pair(pa, pd) => {
                let lst = match crate::value::list_to_vec(&cur) {
                    Some(l) => l,
                    None => {
                        return Err(fault("failed to convert pair to list"));
                    },
                };
                let ghost lvs = views_of(lst@);
                proof {
                    assert(lst@.len() >= 1);
                    assert(forall|k: int| 0 <= k < lst@.len() ==> #[trigger] lvs[k] == lst@[k]@);
                }
                let kind = form_kind(&lst[0]);
                match kind {
                    FormKind::Define | FormKind::DefMacro => {
                        let is_m: bool = match kind {
                            FormKind::DefMacro => true,
                            _ => false,
                        };
                        // Shape one: (define NAME EXPR).
                        if lst.len() == 3 {
                            match &*lst[1] {
                                Value::Symbol(name) => {
                                    proof {
                                        assert(lvs[1] == lst@[1]@);
                                    }
                                    let v = match eval_helper(&lst[2], env, st, out, fl) {
                                        Ok(v) => v,
                                        Err(e) => {
                                            return Err(e);
                                        },
                                    };
                                    st.set(env, name.as_str(), v);
                                    return Ok(Rc::new(Value::Void));
                                },
                                other => {
                                    proof {
                                        crate::value::lemma_model_variant(*other);
                                    }
                                },
                            }
                        }
                        // Shape two: (define (NAME . PARAMS) BODY ...).
                        if lst.len() >= 3 {
                            match &*lst[1] {
                                Value::Pair(fst, rst) => {
                                    match &**fst {
                                        Value::Symbol(name) => {
                                            proof {
                                                assert(lvs[1] == lst@[1]@);
                                                assert(lvs[2] == lst@[2]@);
                                            }
                                            let body = crate::value::make_list(
                                                &lst,
                                                2,
                                                Rc::new(Value::Null),
                                            );
                                            let clo = Rc::new(
                                                Value::Closure {
                                                    env,
                                                    body,
                                                    params: rc_dup(rst),
                                                    is_macro: is_m,
                                                },
                                            );
                                            st.set(env, name.as_str(), clo);
                                            return Ok(Rc::new(Value::Void));
                                        },
                                        other => {
                                            proof {
                                                crate::value::lemma_model_variant(*other);
                                            }
                                            return Err(fault("illegal define syntax"));
                                        },
                                    }
                                },
                                other => {
                                    proof {
                                        crate::value::lemma_model_variant(*other);
                                    }
                                    return Err(fault("evaluate define failed"));
                                },
                            }
                        } else {
                            return Err(fault("evaluate define failed"));
                        }
                    },
                    FormKind::Lambda => {
                        if lst.len() >= 3 {
                            proof {
                                assert(lvs[1] == lst@[1]@);
                            }
                            let body = crate::value::make_list(&lst, 2, Rc::new(Value::Null));
                            return Ok(
                                Rc::new(
                                    Value::Closure {
                                        env,
                                        body,
                                        params: rc_dup(&lst[1]),
                                        is_macro: false,
                                    },
                                ),
                            );
                        } else {
                            return Err(fault("lambda needs parameters and a body"));
                        }
                    },
                    FormKind::If => {
                        if lst.len() == 4 {
                            proof {
                                assert(lvs[1] == lst@[1]@);
                                assert(lvs[2] == lst@[2]@);
                                assert(lvs[3] == lst@[3]@);
                            }
                            let c = match eval_helper(&lst[1], env, st, out, fl) {
                                Ok(v) => v,
                                Err(e) => {
                                    return Err(e);
                                },
                            };
                            match &*c {
                                Value::Bool(b) => {
                                    if *b {
                                        cur = rc_dup(&lst[2]);
                                    } else {
                                        cur = rc_dup(&lst[3]);
                                    }
                                },
                                other => {
                                    proof {
                                        crate::value::lemma_model_variant(*other);
                                    }
                                    return Err(fault("Condition is not boolean"));
                                },
                            }
                        } else {
                            return Err(fault("if takes a condition and two branches"));
                        }
                    },
                    FormKind::Quote => {
                        if lst.len() == 2 {
                            proof {
                                assert(lvs[1] == lst@[1]@);
                            }
                            return Ok(rc_dup(&lst[1]));
                        } else {
                            return Err(fault("quote takes exactly one operand"));
                        }
                    },
                    FormKind::QuasiQuote => {
                        if lst.len() == 2 {
                            proof {
                                assert(lvs[1] == lst@[1]@);
                            }
                            return quasiquote_helper(&lst[1], env, st, out, fl);
                        } else {
                            return Err(fault("quasiquote takes exactly one operand"));
                        }
                    },
                    FormKind::Unquote => {
                        return Err(fault("unquote should only happen inside quasiquote"));
                    },
                    FormKind::Apply => {
                        match apply_form(&lst, env, st, out, fl) {
                            TailStep::Value(v) => {
                                return Ok(v);
                            },
                            TailStep::Error(e) => {
                                return Err(e);
                            },
                            TailStep::Tail(c, e2) => {
                                cur = c;
                                env = e2;
                            },
                        }
                    },
                }
            },
            other => {
                proof {
                    crate::value::lemma_model_variant(*other);
                }
                return Err(fault("invalid ast"));
            },
        }
    }
}

/// The bindings of the global frame before the prelude runs: the nine
/// primitives under their surface names.
pub open spec fn spec_builtins() -> Map<Seq<char>, SpecValue> {
    Map::empty().insert("+"@, SpecValue::BuiltInFun(BuiltInFunType::Add)).insert(
        "-"@,
        SpecValue::BuiltInFun(BuiltInFunType::Sub),
    ).insert("*"@, SpecValue::BuiltInFun(BuiltInFunType::Mul)).insert(
        "eq?"@,
        SpecValue::BuiltInFun(BuiltInFunType::Eq),
    ).insert("cons"@, SpecValue::BuiltInFun(BuiltInFunType::Cons)).insert(
        "car"@,
        SpecValue::BuiltInFun(BuiltInFunType::Car),
    ).insert("cdr"@, SpecValue::BuiltInFun(BuiltInFunType::Cdr)).insert(
        "null?"@,
        SpecValue::BuiltInFun(BuiltInFunType::IsNull),
    ).insert("display"@, SpecValue::BuiltInFun(BuiltInFunType::Display))
}

/// The store holding one global frame with the primitives alone.
pub open spec fn spec_global_start() -> Seq<SpecFrame> {
    seq![SpecFrame { vars: spec_builtins(), parent: None }]
}

/// The prelude: list helpers defined in the language itself, loaded into
/// the global frame when an environment is created.
pub open spec fn spec_prelude_text() -> Seq<char> {
    "(define (map f l) (if (null? l) '() (cons (f (car l)) (map f (cdr l))))) (define (filter f l) (if (null? l) '() (if (f (car l)) (cons (car l) (filter f (cdr l))) (filter f (cdr l))))) (define (append a b) (if (null? a) b (cons (car a) (append (cdr a) b)))) (define (not x) (if x #f #t)) (define (flat l) (if (null? l) '() (append (car l) (flat (cdr l))))) (define (cadr x) (car (cdr x)))"@
}

fn prelude_source() -> (r: &'static str)
    ensures
        r@ == spec_prelude_text(),
{
    "(define (map f l) (if (null? l) '() (cons (f (car l)) (map f (cdr l))))) (define (filter f l) (if (null? l) '() (if (f (car l)) (cons (car l) (filter f (cdr l))) (filter f (cdr l))))) (define (append a b) (if (null? a) b (cons (car a) (append (cdr a) b)))) (define (not x) (if x #f #t)) (define (flat l) (if (null? l) '() (append (car l) (flat (cdr l))))) (define (cadr x) (car (cdr x)))"
}

/// The environment store of a fresh interpreter: the global frame with
/// the primitives, after the prelude has been evaluated in it.
pub open spec fn spec_initial_env() -> Seq<SpecFrame> {
    spec_eval_source(
        spec_prelude_text(),
        0,
        SpecState { frames: spec_global_start(), log: Seq::empty() },
        STEP_LIMIT as nat,
    ).st.frames
}

impl crate::env::Env {
    /// Reads a source text and evaluates its top-level expressions left to
    /// right in the global frame; the result is the last expression's
    /// value (`Void` for an empty program). A read fault is reported as an
    /// evaluation fault. `display` output is appended to `out`.
    #[verifier::loop_isolation(false)]
    pub fn eval_source(&mut self, source: &str, out: &mut String, fuel: u64) -> (r: Result<
        Rc<Value>,
        EvalError,
    >)
        ensures
            ({
                let run = spec_eval_source(
                    source@,
                    0,
                    SpecState { frames: old(self)@, log: old(out)@ },
                    fuel as nat,
                );
                &&& final(self)@ == run.st.frames
                &&& final(out)@ == run.st.log
                &&& match r {
                    Ok(v) => run.out == SpecOut::Val(v@),
                    Err(e) => run.out is Fail || run.out is Spent,
                }
            }),
            crate::parser::spec_parse_all(crate::lex::spec_tokenize(source@)) is None ==> (r
                matches Err(e) && e.msg@.len() >= "ParseError: "@.len() && e.msg@.take(
                "ParseError: "@.len() as int,
            ) == "ParseError: "@),
    {
        let ghost run = spec_eval_source(
            source@,
            0,
            SpecState { frames: self@, log: out@ },
            fuel as nat,
        );
        match crate::parser::parse(source) {
            Ok(pr) => {
                let exps = pr.exps;
                let ghost evs = views_of(exps@);
                let mut result: Rc<Value> = Rc::new(Value::Void);
                let mut i: usize = 0;
                proof {
                    assert(forall|k: int|
                        0 <= k < exps@.len() ==> #[trigger] evs[k] == exps@[k]@);
                    assert(evs.skip(0) =~= evs);
                }
                while i < exps.len()
                    invariant
                        i <= exps@.len(),
                        run == spec_eval_program(
                            evs.skip(i as int),
                            0,
                            SpecState { frames: self@, log: out@ },
                            fuel as nat,
                            result@,
                        ),
                    decreases exps@.len() - i,
                {
                    proof {
                        assert(evs.skip(i as int).first() == exps@[i as int]@);
                        assert(evs.skip(i as int).drop_first() =~= evs.skip(i as int + 1));
                    }
                    match eval_helper(&exps[i], 0, self, out, fuel) {
                        Ok(v) => {
                            result = v;
                            i = i + 1;
                        },
                        Err(e) => {
                            return Err(e);
                        },
                    }
                }
                proof {
                    assert(evs.skip(exps@.len() as int) =~= Seq::<SpecValue>::empty());
                }
                Ok(result)
            },
            Err(pe) => {
                let mut msg = String::from_str("ParseError: ");
                msg.append(pe.msg.as_str());
                proof {
                    assert(msg@.take("ParseError: "@.len() as int) =~= "ParseError: "@);
                }
                Err(EvalError { msg })
            },
        }
    }

    /// A fresh interpreter environment: one global frame holding the
    /// primitives, with the prelude evaluated in it.
    pub fn new() -> (e: crate::env::Env)
        ensures
            e@ == spec_initial_env(),
    {
        let mut e = crate::env::Env::bare();
        e.set(0, "+", Rc::new(Value::BuiltInFun(BuiltInFunType::Add)));
        e.set(0, "-", Rc::new(Value::BuiltInFun(BuiltInFunType::Sub)));
        e.set(0, "*", Rc::new(Value::BuiltInFun(BuiltInFunType::Mul)));
        e.set(0, "eq?", Rc::new(Value::BuiltInFun(BuiltInFunType::Eq)));
        e.set(0, "cons", Rc::new(Value::BuiltInFun(BuiltInFunType::Cons)));
        e.set(0, "car", Rc::new(Value::BuiltInFun(BuiltInFunType::Car)));
        e.set(0, "cdr", Rc::new(Value::BuiltInFun(BuiltInFunType::Cdr)));
        e.set(0, "null?", Rc::new(Value::BuiltInFun(BuiltInFunType::IsNull)));
        e.set(0, "display", Rc::new(Value::BuiltInFun(BuiltInFunType::Display)));
        proof {
            assert(e@ =~~= spec_global_start());
        }
        let mut sink = String::new();
        match e.eval_source(prelude_source(), &mut sink, STEP_LIMIT) {
            Ok(v) => {},
            Err(err) => {},
        }
        proof {
            assert(e@ == spec_initial_env());
        }
        e
    }
}

/// Quote fixes evaluation: for any expression `e`, whatever the
/// environment and the state — in particular whatever is bound anywhere —
/// `(quote e)` evaluates to `e` itself, unchanged, leaving the state
/// alone, as long as one step of budget remains.
pub proof fn lemma_quote_fixes_evaluation(e: SpecValue, env: int, st: SpecState, fuel: nat)
    requires
        fuel >= 1,
    ensures
        spec_eval(
            spec_list(seq![SpecValue::Symbol("quote"@), e], SpecValue::Null),
            env,
            st,
            fuel,
        ) == run_val(e, st),
{
    reveal_with_fuel(spec_list, 3);
    reveal_with_fuel(spec_spine, 3);
    reveal_strlit("define");
    reveal_strlit("defmacro");
    reveal_strlit("lambda");
    reveal_strlit("if");
    reveal_strlit("quote");
    let items = seq![SpecValue::Symbol("quote"@), e];
    assert(items.drop_first() =~= seq![e]);
    assert(items.drop_first().drop_first() =~= Seq::<SpecValue>::empty());
    let q = spec_list(items, SpecValue::Null);
    assert(q == SpecValue::Pair(
        Box::new(SpecValue::Symbol("quote"@)),
        Box::new(SpecValue::Pair(Box::new(e), Box::new(SpecValue::Null))),
    ));
    assert(spec_spine(q) == Some(seq![SpecValue::Symbol("quote"@)] + (seq![e] + Seq::<
        SpecValue,
    >::empty())));
    assert(seq![SpecValue::Symbol("quote"@)] + (seq![e] + Seq::<SpecValue>::empty()) =~= items);
    assert(items[0] == SpecValue::Symbol("quote"@));
    assert("quote"@.len() == 5 && "define"@.len() == 6 && "defmacro"@.len() == 8 && "lambda"@.len()
        == 6 && "if"@.len() == 2);
    assert("quote"@ != "define"@ && "quote"@ != "defmacro"@ && "quote"@ != "lambda"@ && "quote"@
        != "if"@);
    assert(spec_form_kind(items[0]) == FormKind::Quote);
    assert(spec_eval(q, env, st, fuel) == spec_eval_form(items, env, st, (fuel - 1) as nat));
}

/// Something that evaluates source text against its own state.
pub trait Interpreter {
    /// Evaluates `source`, appending any `display` output to `out`.
    fn eval(&mut self, source: &str, out: &mut String) -> Result<Rc<Value>, EvalError>;
}

/// Evaluation of a source text against an environment store: exactly what
/// the specification interpreter returns at the default step budget.
impl Interpreter for crate::env::Env {
    fn eval(&mut self, source: &str, out: &mut String) -> (r: Result<Rc<Value>, EvalError>)
        ensures
            ({
                let run = spec_eval_source(
                    source@,
                    0,
                    SpecState { frames: old(self)@, log: old(out)@ },
                    STEP_LIMIT as nat,
                );
                &&& final(self)@ == run.st.frames
                &&& final(out)@ == run.st.log
                &&& match r {
                    Ok(v) => run.out == SpecOut::Val(v@),
                    Err(e) => run.out is Fail || run.out is Spent,
                }
            }),
            crate::parser::spec_parse_all(crate::lex::spec_tokenize(source@)) is None ==> (r
                matches Err(e) && e.msg@.len() >= "ParseError: "@.len() && e.msg@.take(
                "ParseError: "@.len() as int,
            ) == "ParseError: "@),
    {
        self.eval_source(source, out, STEP_LIMIT)
    }
}

} // verus!

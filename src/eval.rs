//! The evaluator: reduces an S-expression to a value in an environment.
use vstd::prelude::*;
use std::rc::Rc;
use crate::sexp::{Sexp, SexpV, sexps_view, lemma_list_view};
use crate::value::{Env, LispFunction, LispValue, ValueV, copy_bytes, share, value_view, names_view};
use crate::semantics::{ErrV, sem, sem_args, param_map, list_of, decimal, arity_error};
use crate::intrinsics::call_builtin;
use vstd::string::StringExecFns;

verus! {

broadcast use vstd::std_specs::vec::group_vec_axioms;

/// How deep evaluations may nest before `eval` gives up with an error.
pub const MAX_DEPTH: u64 = 1000;

/// Why evaluation failed: a message, or a chain of errors that puts context
/// in front of the underlying cause.
#[derive(PartialEq, Eq, Debug)]
pub enum EvalError {
    Msg(String),
    Chain(Vec<EvalError>),
}

pub open spec fn err_view(e: EvalError) -> ErrV
    decreases e,
{
    match e {
        EvalError::Msg(s) => ErrV::Msg(s@),
        EvalError::Chain(v) => ErrV::Chain(
            Seq::new(v.len() as nat, |i: int| if 0 <= i < v.len() { err_view(v[i]) } else { ErrV::Msg(Seq::empty()) }),
        ),
    }
}

impl View for EvalError {
    type V = ErrV;

    open spec fn view(&self) -> ErrV {
        err_view(*self)
    }
}

/// An evaluation result seen through the views.
pub open spec fn outcome(r: Result<Rc<LispValue>, EvalError>) -> Result<ValueV, ErrV> {
    match r {
        Ok(v) => Ok(value_view(*v)),
        Err(e) => Err(err_view(e)),
    }
}

/// The views of a sequence of values.
pub open spec fn values_view(v: Seq<Rc<LispValue>>) -> Seq<ValueV> {
    v.map_values(|x: Rc<LispValue>| value_view(*x))
}

/// `acc` put in front of the values that evaluating the rest found.
pub open spec fn values_prefixed(acc: Seq<ValueV>, r: Result<Seq<ValueV>, ErrV>) -> Result<Seq<ValueV>, ErrV> {
    match r {
        Ok(rest) => Ok(acc + rest),
        Err(e) => Err(e),
    }
}

/// `a` followed by `b`.
pub fn concat(a: &str, b: &str) -> (r: String)
    ensures
        r@ == a@ + b@,
{
    let mut s = String::from_str(a);
    s.append(b);
    s
}

/// An error chain: `context` in front of the cause.
pub fn chain(context: String, cause: EvalError) -> (r: EvalError)
    ensures
        err_view(r) == ErrV::Chain(seq![ErrV::Msg(context@), err_view(cause)]),
{
    let mut v: Vec<EvalError> = Vec::new();
    v.push(EvalError::Msg(context));
    v.push(cause);
    let r = EvalError::Chain(v);
    assert(err_view(r)->Chain_0 =~= seq![err_view(v[0]), err_view(v[1])]);
    r
}

/// Appends the decimal spelling of `n`.
pub fn push_decimal(s: &mut String, n: u64)
    ensures
        final(s)@ == old(s)@ + decimal(n as nat),
    decreases n,
{
    if n >= 10 {
        push_decimal(s, n / 10);
    }
    let d = n % 10;
    let c = if d == 0 {
        '0'
    } else if d == 1 {
        '1'
    } else if d == 2 {
        '2'
    } else if d == 3 {
        '3'
    } else if d == 4 {
        '4'
    } else if d == 5 {
        '5'
    } else if d == 6 {
        '6'
    } else if d == 7 {
        '7'
    } else if d == 8 {
        '8'
    } else {
        '9'
    };
    s.push(c);
    assert(s@ =~= old(s)@ + decimal(n as nat));
}

fn arity_message(expected: usize, got: usize) -> (r: EvalError)
    ensures
        err_view(r) == arity_error(expected as nat, got as nat),
{
    let mut m = String::from_str("function expected ");
    push_decimal(&mut m, expected as u64);
    m.append(" arguments, got ");
    push_decimal(&mut m, got as u64);
    EvalError::Msg(m)
}

/// The argument expressions of a call: all items but the first.
pub fn call_arguments(items: &Vec<Sexp>) -> (r: Vec<Sexp>)
    requires
        items.len() >= 1,
    ensures
        sexps_view(r@) == sexps_view(items@).subrange(1, items.len() as int),
{
    let mut r: Vec<Sexp> = Vec::new();
    for i in 1..items.len()
        invariant
            1 <= items.len(),
            sexps_view(r@) == sexps_view(items@).subrange(1, i as int),
    {
        let e = items[i].clone();
        assert(e@ == items@[i as int]@);
        let ghost before = r@;
        r.push(e);
        assert(sexps_view(r@) =~= sexps_view(before).push(e@));
        assert(sexps_view(r@) =~= sexps_view(items@).subrange(1, i + 1));
    }
    r
}

/// Evaluates the argument expressions `items[1..]`, left to right, each in its own
/// copy of `env`.
fn eval_args(items: &Vec<Sexp>, env: &Env, depth: u64) -> (r: Result<Vec<Rc<LispValue>>, EvalError>)
    requires
        items.len() >= 1,
    ensures
        match sem_args(sexps_view(items@).subrange(1, items.len() as int), env@, depth as nat) {
            Ok(vs) => r is Ok && values_view(r->Ok_0@) == vs,
            Err(e) => r is Err && err_view(r->Err_0) == e,
        },
    decreases depth, 1int,
{
    let ghost es = sexps_view(items@);
    let ghost all = es.subrange(1, items.len() as int);
    let mut vals: Vec<Rc<LispValue>> = Vec::new();
    let mut i: usize = 1;
    assert(values_prefixed(values_view(vals@), sem_args(all, env@, depth as nat)) == sem_args(all, env@, depth as nat)) by {
        if let Ok(rest) = sem_args(all, env@, depth as nat) {
            assert(values_view(vals@) + rest =~= rest);
        }
    }
    while i < items.len()
        invariant
            1 <= i <= items.len(),
            es == sexps_view(items@),
            all == es.subrange(1, items.len() as int),
            sem_args(all, env@, depth as nat) == values_prefixed(
                values_view(vals@),
                sem_args(es.subrange(i as int, items.len() as int), env@, depth as nat),
            ),
        decreases items.len() - i,
    {
        let ghost rest = es.subrange(i as int, items.len() as int);
        assert(rest.subrange(1, rest.len() as int) =~= es.subrange(i + 1, items.len() as int));
        assert(rest[0] == items@[i as int]@);
        let mut copy = env.clone();
        match eval_with_depth(&items[i], &mut copy, depth) {
            Err(e) => {
                return Err(e);
            },
            Ok(v) => {
                let ghost before = vals@;
                vals.push(v);
                proof {
                    assert(values_view(vals@) =~= values_view(before).push(value_view(*v)));
                    if let Ok(tail) = sem_args(es.subrange(i + 1, items.len() as int), env@, depth as nat) {
                        assert(values_view(before) + (seq![value_view(*v)] + tail) =~= values_view(vals@) + tail);
                    }
                }
                i = i + 1;
            },
        }
    }
    proof {
        assert(es.subrange(items.len() as int, items.len() as int) =~= Seq::<SexpV>::empty());
        assert(values_view(vals@) + Seq::<ValueV>::empty() =~= values_view(vals@));
    }
    Ok(vals)
}

/// Evaluates `sexp` in `env` with at most `depth` nested evaluations.
pub fn eval_with_depth(sexp: &Sexp, env: &mut Env, depth: u64) -> (r: Result<Rc<LispValue>, EvalError>)
    ensures
        (outcome(r), final(env)@) == sem(sexp@, old(env)@, depth as nat),
    decreases depth, 0int,
{
    if depth == 0 {
        return Err(EvalError::Msg(String::from_str("evaluation depth exceeded")));
    }
    let d = depth - 1;
    match sexp {
        Sexp::Null => Ok(Rc::new(LispValue::Null)),
        Sexp::Integer(i) => Ok(Rc::new(LispValue::Integer(*i))),
        Sexp::ByteArray(a) => Ok(Rc::new(LispValue::ByteArray(copy_bytes(a)))),
        Sexp::Str(s) => Ok(Rc::new(LispValue::Str(s.clone()))),
        Sexp::Boolean(b) => Ok(Rc::new(LispValue::Boolean(*b))),
        Sexp::Symbol(s) => match env.resolve(s) {
            Some(v) => Ok(v),
            None => Err(EvalError::Msg(concat("unbound name ", s.as_str()))),
        },
        Sexp::List(items) => {
            proof {
                lemma_list_view(*items);
            }
            if items.len() == 0 {
                return Err(EvalError::Msg(String::from_str("unevaluatable S-expression")));
            }
            let mut callee_env = env.clone();
            let callee = match eval_with_depth(&items[0], &mut callee_env, d) {
                Ok(v) => v,
                Err(e) => {
                    return Err(e);
                },
            };
            match &*callee {
                LispValue::Func(f) => match &**f {
                    LispFunction::Lambda(body, clos, names) => {
                        let vals = match eval_args(items, env, d) {
                            Ok(v) => v,
                            Err(e) => {
                                return Err(e);
                            },
                        };
                        if vals.len() != names.len() {
                            return Err(arity_message(names.len(), vals.len()));
                        }
                        let ghost pv = names_view(names@);
                        let ghost vv = values_view(vals@);
                        let mut fresh = Env::new();
                        for i in 0..vals.len()
                            invariant
                                vals.len() == names.len(),
                                pv == names_view(names@),
                                vv == values_view(vals@),
                                fresh@ == param_map(pv.take(i as int), vv.take(i as int)),
                        {
                            proof {
                                assert(pv.take(i + 1).drop_last() =~= pv.take(i as int));
                                assert(vv.take(i + 1).drop_last() =~= vv.take(i as int));
                            }
                            fresh.add_binding(names[i].clone(), share(&vals[i]));
                        }
                        proof {
                            assert(pv.take(vals.len() as int) =~= pv);
                            assert(vv.take(vals.len() as int) =~= vv);
                        }
                        let mut body_env = clos.compose(&fresh);
                        eval_with_depth(&**body, &mut body_env, d)
                    },
                    LispFunction::VariadicLambda(body, clos) => {
                        let vals = match eval_args(items, env, d) {
                            Ok(v) => v,
                            Err(e) => {
                                return Err(e);
                            },
                        };
                        let list = list_value(&vals);
                        let mut body_env = clos.clone();
                        body_env.add_binding(String::from_str("args"), list);
                        eval_with_depth(&**body, &mut body_env, d)
                    },
                    LispFunction::Intrinsic(idat) => {
                        let args = call_arguments(items);
                        match call_builtin(idat.func, &args, env, d) {
                            Ok(v) => Ok(v),
                            Err(e) => Err(chain(concat("error in intrinsic ", idat.name.as_str()), e)),
                        }
                    },
                },
                _ => Err(EvalError::Msg(String::from_str("tried to call a non-function"))),
            }
        },
    }
}

/// A proper list of the values, in order.
pub fn list_value(vals: &Vec<Rc<LispValue>>) -> (r: Rc<LispValue>)
    ensures
        value_view(*r) == list_of(values_view(vals@)),
{
    let ghost vv = values_view(vals@);
    let mut acc = Rc::new(LispValue::Null);
    let mut i: usize = vals.len();
    assert(vv.subrange(i as int, vv.len() as int) =~= Seq::<ValueV>::empty());
    while i > 0
        invariant
            i <= vals.len(),
            vv == values_view(vals@),
            value_view(*acc) == list_of(vv.subrange(i as int, vv.len() as int)),
        decreases i,
    {
        let ghost tail = vv.subrange(i as int, vv.len() as int);
        assert(vv.subrange(i - 1, vv.len() as int).subrange(1, vv.len() - i + 1) =~= tail);
        acc = Rc::new(LispValue::Cons(share(&vals[i - 1]), acc));
        i = i - 1;
    }
    assert(vv.subrange(0, vv.len() as int) =~= vv);
    acc
}

/// Evaluates `sexp` in `env`, nesting at most `MAX_DEPTH` evaluations.
pub fn eval(sexp: &Sexp, env: &mut Env) -> (r: Result<Rc<LispValue>, EvalError>)
    ensures
        (outcome(r), final(env)@) == sem(sexp@, old(env)@, MAX_DEPTH as nat),
{
    eval_with_depth(sexp, env, MAX_DEPTH)
}

} // verus!

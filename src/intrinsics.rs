//! The native functions that evaluated code can call.
//!
//! Each receives the argument expressions, unevaluated and without the
//! callee, together with the caller's environment, and decides itself what
//! to evaluate and when.
use vstd::prelude::*;
use std::rc::Rc;
use crate::sexp::{Sexp, SexpV, sexps_view, lemma_list_view};
use crate::value::{Builtin, Env, LispFunction, LispValue, ValueV, share, value_view, names_view, copy_bytes};
use crate::semantics::{
    builtin_sem, sem, sem_begin, all_symbols, symbol_names, quote_value, quote_list,
    op_name, arith, intrinsic_err, utf8_len, ErrV,
};
use crate::eval::{EvalError, outcome, concat, eval_with_depth, err_view};
use vstd::string::StringExecFns;
use crate::text::chars_of;

verus! {

broadcast use vstd::std_specs::vec::group_vec_axioms;

/// The error that an intrinsic raises for itself.
pub fn intrinsic_error(err: &str) -> (r: Result<Rc<LispValue>, EvalError>)
    ensures
        outcome(r) == Err::<ValueV, ErrV>(intrinsic_err(err@)),
{
    Err(EvalError::Msg(concat("error: ", err)))
}

/// Evaluates `e` in a copy of `env`, so that nothing it defines escapes.
fn eval_copy(e: &Sexp, env: &Env, depth: u64) -> (r: Result<Rc<LispValue>, EvalError>)
    ensures
        outcome(r) == sem(e@, env@, depth as nat).0,
    decreases depth, 1int,
{
    let mut copy = env.clone();
    eval_with_depth(e, &mut copy, depth)
}

/// An expression taken literally as a value: symbols stay symbols, and lists
/// become chains of pairs that end in `Null`.
pub fn quote_literal(e: &Sexp) -> (r: Rc<LispValue>)
    ensures
        value_view(*r) == quote_value(e@),
    decreases e,
{
    match e {
        Sexp::Null => Rc::new(LispValue::Null),
        Sexp::Integer(i) => Rc::new(LispValue::Integer(*i)),
        Sexp::ByteArray(a) => Rc::new(LispValue::ByteArray(copy_bytes(a))),
        Sexp::Str(s) => Rc::new(LispValue::Str(s.clone())),
        Sexp::Boolean(b) => Rc::new(LispValue::Boolean(*b)),
        Sexp::Symbol(s) => Rc::new(LispValue::Symbol(s.clone())),
        Sexp::List(v) => {
            proof {
                lemma_list_view(*v);
            }
            let ghost items = sexps_view(v@);
            let mut acc = Rc::new(LispValue::Null);
            let mut i: usize = v.len();
            assert(items.subrange(i as int, items.len() as int) =~= Seq::<SexpV>::empty());
            while i > 0
                invariant
                    i <= v.len(),
                    *e == Sexp::List(*v),
                    items == sexps_view(v@),
                    value_view(*acc) == quote_list(items.subrange(i as int, items.len() as int)),
                decreases i,
            {
                proof {
                    assert(decreases_to!(*e => (*e)->List_0));
                    assert(decreases_to!(*v => v@));
                    assert(decreases_to!(v@ => v@[i - 1]));
                    let s = items.subrange(i - 1, items.len() as int);
                    assert(s.subrange(1, s.len() as int) =~= items.subrange(i as int, items.len() as int));
                }
                let head = quote_literal(&v[i - 1]);
                acc = Rc::new(LispValue::Cons(head, acc));
                i = i - 1;
            }
            assert(items.subrange(0, items.len() as int) =~= items);
            acc
        },
    }
}

/// `lambda`: a function of the named parameters whose body is the second
/// argument, closing over a copy of the current environment.
pub fn mgi_lambda(args: &Vec<Sexp>, env: &mut Env, depth: u64) -> (r: Result<Rc<LispValue>, EvalError>)
    ensures
        (outcome(r), final(env)@) == builtin_sem(Builtin::Lambda, sexps_view(args@), old(env)@, depth as nat),
    decreases depth, 3int,
{
    if args.len() != 2 {
        return intrinsic_error("invalid form for lambda, needs 2 expressions");
    }
    let mut names: Vec<String> = Vec::new();
    match &args[0] {
        Sexp::List(list) => {
            proof {
                lemma_list_view(*list);
            }
            let ghost ps = sexps_view(list@);
            for i in 0..list.len()
                invariant
                    ps == sexps_view(list@),
                    args.len() == 2,
                    args@[0] == Sexp::List(*list),
                    Sexp::List(*list)@ == SexpV::List(ps),
                    all_symbols(ps.take(i as int)),
                    names_view(names@) == symbol_names(ps.take(i as int)),
            {
                match &list[i] {
                    Sexp::Symbol(s) => {
                        assert(ps[i as int] == SexpV::Symbol(s@));
                        let ghost before = names@;
                        names.push(s.clone());
                        proof {
                            assert(names_view(names@) =~= names_view(before).push(s@));
                            assert(ps.take(i + 1) =~= ps.take(i as int).push(ps[i as int]));
                            assert(names_view(names@) =~= symbol_names(ps.take(i + 1)));
                        }
                    },
                    _ => {
                        proof {
                            assert(!(ps[i as int] is Symbol));
                            assert(!all_symbols(ps));
                            assert(sexps_view(args@)[0] == SexpV::List(ps));
                        }
                        return intrinsic_error("invalid form for lambda, malformed argument names");
                    },
                }
            }
            assert(ps.take(list.len() as int) =~= ps);
        },
        _ => {
            return intrinsic_error("invalid form for lambda, first argument not list");
        },
    }
    let body = Rc::new(args[1].clone());
    Ok(Rc::new(LispValue::Func(Box::new(LispFunction::Lambda(body, env.clone(), names)))))
}

/// `vlambda`: a function of any number of arguments, which its body sees as the
/// list `args`, in the order of the call (first argument first), on purpose.
pub fn mgi_variadic_lambda(args: &Vec<Sexp>, env: &mut Env, depth: u64) -> (r: Result<Rc<LispValue>, EvalError>)
    ensures
        (outcome(r), final(env)@) == builtin_sem(Builtin::VariadicLambda, sexps_view(args@), old(env)@, depth as nat),
    decreases depth, 3int,
{
    if args.len() != 1 {
        return intrinsic_error("invalid form for vlambda, needs 1 expression");
    }
    let body = Rc::new(args[0].clone());
    Ok(Rc::new(LispValue::Func(Box::new(LispFunction::VariadicLambda(body, env.clone())))))
}

/// `define`: evaluates the second argument in a copy of the environment and
/// binds the symbol to it in the caller's own environment.
pub fn mgi_define(args: &Vec<Sexp>, env: &mut Env, depth: u64) -> (r: Result<Rc<LispValue>, EvalError>)
    ensures
        (outcome(r), final(env)@) == builtin_sem(Builtin::Define, sexps_view(args@), old(env)@, depth as nat),
    decreases depth, 3int,
{
    if args.len() != 2 {
        return intrinsic_error("invalid form for define, needs 2 expressions");
    }
    match &args[0] {
        Sexp::Symbol(name) => {
            let value = match eval_copy(&args[1], env, depth) {
                Ok(v) => v,
                Err(e) => {
                    return Err(e);
                },
            };
            env.add_binding(name.clone(), value);
            Ok(Rc::new(LispValue::Null))
        },
        _ => intrinsic_error("invalid form for define, first argument is not symbol"),
    }
}

/// `if`: evaluates the condition, then exactly one of the two branches.
pub fn mgi_if(args: &Vec<Sexp>, env: &mut Env, depth: u64) -> (r: Result<Rc<LispValue>, EvalError>)
    ensures
        (outcome(r), final(env)@) == builtin_sem(Builtin::If, sexps_view(args@), old(env)@, depth as nat),
    decreases depth, 3int,
{
    if args.len() != 3 {
        return intrinsic_error("invalid form for if, needs 3 expressions");
    }
    let cond = match eval_with_depth(&args[0], env, depth) {
        Ok(v) => v,
        Err(e) => {
            return Err(e);
        },
    };
    match &*cond {
        LispValue::Boolean(true) => eval_with_depth(&args[1], env, depth),
        LispValue::Boolean(false) => eval_with_depth(&args[2], env, depth),
        _ => intrinsic_error("conditional expression in if is non-boolean"),
    }
}

/// `typeof`: the symbol that names the kind of the argument's value.
pub fn mgi_typeof(args: &Vec<Sexp>, env: &mut Env, depth: u64) -> (r: Result<Rc<LispValue>, EvalError>)
    ensures
        (outcome(r), final(env)@) == builtin_sem(Builtin::TypeOf, sexps_view(args@), old(env)@, depth as nat),
    decreases depth, 3int,
{
    if args.len() != 1 {
        return intrinsic_error("typeof takes 1 argument");
    }
    let v = match eval_copy(&args[0], env, depth) {
        Ok(v) => v,
        Err(e) => {
            return Err(e);
        },
    };
    let name = match &*v {
        LispValue::Null => "null",
        LispValue::Integer(_) => "integer",
        LispValue::ByteArray(_) => "bytearray",
        LispValue::Str(_) => "str",
        LispValue::Boolean(_) => "bool",
        LispValue::Symbol(_) => "symbol",
        LispValue::Cons(_, _) => "cons",
        LispValue::Func(_) => "function",
    };
    Ok(Rc::new(LispValue::Symbol(String::from_str(name))))
}

/// `begin`: evaluates each argument in turn in the same environment and returns
/// the last value, or `Null` where there is none.
pub fn mgi_begin(args: &Vec<Sexp>, env: &mut Env, depth: u64) -> (r: Result<Rc<LispValue>, EvalError>)
    ensures
        (outcome(r), final(env)@) == builtin_sem(Builtin::Begin, sexps_view(args@), old(env)@, depth as nat),
    decreases depth, 3int,
{
    let ghost all = sexps_view(args@);
    let ghost start = env@;
    let ghost n = args.len() as int;
    let mut last = Rc::new(LispValue::Null);
    assert(all.subrange(0, n) =~= all);
    assert(builtin_sem(Builtin::Begin, all, start, depth as nat) == sem_begin(all, start, depth as nat));
    for i in 0..args.len()
        invariant
            all == sexps_view(args@),
            n == args.len(),
            start == old(env)@,
            builtin_sem(Builtin::Begin, all, start, depth as nat) == sem_begin(all, start, depth as nat),
            sem_begin(all, start, depth as nat) == (if i == n {
                (Ok::<ValueV, ErrV>(value_view(*last)), env@)
            } else {
                sem_begin(all.subrange(i as int, n), env@, depth as nat)
            }),
    {
        let ghost rest = all.subrange(i as int, n);
        proof {
            assert(rest[0] == args@[i as int]@);
            assert(rest.subrange(1, rest.len() as int) =~= all.subrange(i + 1, n));
        }
        let ghost env_i = env@;
        match eval_with_depth(&args[i], env, depth) {
            Ok(v) => {
                last = v;
            },
            Err(e) => {
                assert(sem(rest[0], env_i, depth as nat) == (Err::<ValueV, ErrV>(err_view(e)), env@));
                assert(sem_begin(rest, env_i, depth as nat) == (Err::<ValueV, ErrV>(err_view(e)), env@));
                assert(sem_begin(all, start, depth as nat) == (Err::<ValueV, ErrV>(err_view(e)), env@));
                return Err(e);
            },
        }
    }
    Ok(last)
}

/// `deepcopy`: a copy of the argument's value that shares no pair with it.
pub fn mgi_hard_clone(args: &Vec<Sexp>, env: &mut Env, depth: u64) -> (r: Result<Rc<LispValue>, EvalError>)
    ensures
        (outcome(r), final(env)@) == builtin_sem(Builtin::DeepCopy, sexps_view(args@), old(env)@, depth as nat),
    decreases depth, 3int,
{
    if args.len() != 1 {
        return intrinsic_error("invalid form for deepcopy, needs 1 expression");
    }
    match eval_with_depth(&args[0], env, depth) {
        Ok(v) => Ok(v.hard_clone()),
        Err(e) => Err(e),
    }
}

/// `quote`: the argument taken literally.
pub fn mgi_quote(args: &Vec<Sexp>, env: &mut Env, depth: u64) -> (r: Result<Rc<LispValue>, EvalError>)
    ensures
        (outcome(r), final(env)@) == builtin_sem(Builtin::Quote, sexps_view(args@), old(env)@, depth as nat),
    decreases depth, 3int,
{
    if args.len() != 1 {
        return intrinsic_error("invalid form for quote, needs 1 expression");
    }
    Ok(quote_literal(&args[0]))
}

/// `cons`: the pair of the two arguments' values.
pub fn mgi_cons(args: &Vec<Sexp>, env: &mut Env, depth: u64) -> (r: Result<Rc<LispValue>, EvalError>)
    ensures
        (outcome(r), final(env)@) == builtin_sem(Builtin::Cons, sexps_view(args@), old(env)@, depth as nat),
    decreases depth, 3int,
{
    if args.len() != 2 {
        return intrinsic_error("invalid form for cons, needs 2 expressions");
    }
    let first = match eval_copy(&args[0], env, depth) {
        Ok(v) => v,
        Err(e) => {
            return Err(e);
        },
    };
    let rest = match eval_copy(&args[1], env, depth) {
        Ok(v) => v,
        Err(e) => {
            return Err(e);
        },
    };
    Ok(Rc::new(LispValue::Cons(first, rest)))
}

/// `first`: the left element of a pair.
pub fn mgi_first(args: &Vec<Sexp>, env: &mut Env, depth: u64) -> (r: Result<Rc<LispValue>, EvalError>)
    ensures
        (outcome(r), final(env)@) == builtin_sem(Builtin::First, sexps_view(args@), old(env)@, depth as nat),
    decreases depth, 3int,
{
    if args.len() != 1 {
        return intrinsic_error("first expects 1 argument");
    }
    let v = match eval_copy(&args[0], env, depth) {
        Ok(v) => v,
        Err(e) => {
            return Err(e);
        },
    };
    match &*v {
        LispValue::Cons(f, _) => Ok(share(f)),
        _ => intrinsic_error("first expects a cons"),
    }
}

/// `rest`: the right element of a pair.
pub fn mgi_rest(args: &Vec<Sexp>, env: &mut Env, depth: u64) -> (r: Result<Rc<LispValue>, EvalError>)
    ensures
        (outcome(r), final(env)@) == builtin_sem(Builtin::Rest, sexps_view(args@), old(env)@, depth as nat),
    decreases depth, 3int,
{
    if args.len() != 1 {
        return intrinsic_error("rest expects 1 argument");
    }
    let v = match eval_copy(&args[0], env, depth) {
        Ok(v) => v,
        Err(e) => {
            return Err(e);
        },
    };
    match &*v {
        LispValue::Cons(_, r) => Ok(share(r)),
        _ => intrinsic_error("rest expects a cons"),
    }
}

/// An intrinsic's error with a message built at run time.
fn fail(msg: String) -> (r: Result<Rc<LispValue>, EvalError>)
    ensures
        outcome(r) == Err::<ValueV, ErrV>(intrinsic_err(msg@)),
{
    intrinsic_error(msg.as_str())
}

/// How an arithmetic intrinsic is written in messages.
fn op_str(k: Builtin) -> (r: &'static str)
    ensures
        r@ == op_name(k),
{
    match k {
        Builtin::Plus => "'+'",
        Builtin::Subtract => "'-'",
        Builtin::Multiply => "'*'",
        _ => "'/'",
    }
}

/// The arithmetic operation `k` on two integers, checked for overflow and for
/// division by zero; division rounds toward zero.
pub fn apply_arith(k: Builtin, a: i64, b: i64) -> (r: Result<Rc<LispValue>, EvalError>)
    requires
        k == Builtin::Plus || k == Builtin::Subtract || k == Builtin::Multiply || k == Builtin::Divide,
    ensures
        outcome(r) == arith(k, a, b),
{
    if k == Builtin::Divide && b == 0 {
        return fail(concat("division by zero in ", op_str(k)));
    }
    let x: i128 = match k {
        Builtin::Plus => a as i128 + b as i128,
        Builtin::Subtract => a as i128 - b as i128,
        Builtin::Multiply => {
            proof {
                let (x, y) = (a as int, b as int);
                assert(-0x8000_0000_0000_0000 <= x <= 0x7fff_ffff_ffff_ffff);
                assert(-0x8000_0000_0000_0000 <= y <= 0x7fff_ffff_ffff_ffff);
                assert(x * y <= 0x4000_0000_0000_0000_0000_0000_0000_0000) by (nonlinear_arith)
                    requires
                        -0x8000_0000_0000_0000 <= x <= 0x7fff_ffff_ffff_ffff,
                        -0x8000_0000_0000_0000 <= y <= 0x7fff_ffff_ffff_ffff,
                ;
                assert(x * y >= -0x4000_0000_0000_0000_0000_0000_0000_0000) by (nonlinear_arith)
                    requires
                        -0x8000_0000_0000_0000 <= x <= 0x7fff_ffff_ffff_ffff,
                        -0x8000_0000_0000_0000 <= y <= 0x7fff_ffff_ffff_ffff,
                ;
            }
            a as i128 * b as i128
        },
        _ => {
            let ua: u128 = if a < 0 { (-(a as i128)) as u128 } else { a as u128 };
            let ub: u128 = if b < 0 { (-(b as i128)) as u128 } else { b as u128 };
            let q: u128 = ua / ub;
            proof {
                assert(q <= ua) by (nonlinear_arith)
                    requires
                        ub >= 1,
                        q == ua / ub,
                ;
            }
            if (a < 0) != (b < 0) {
                -(q as i128)
            } else {
                q as i128
            }
        },
    };
    if x < i64::MIN as i128 || x > i64::MAX as i128 {
        return fail(concat("integer overflow in ", op_str(k)));
    }
    Ok(Rc::new(LispValue::Integer(x as i64)))
}

/// The shared body of the four arithmetic intrinsics.
fn arith_intrinsic(k: Builtin, args: &Vec<Sexp>, env: &mut Env, depth: u64) -> (r: Result<Rc<LispValue>, EvalError>)
    requires
        k == Builtin::Plus || k == Builtin::Subtract || k == Builtin::Multiply || k == Builtin::Divide,
    ensures
        (outcome(r), final(env)@) == builtin_sem(k, sexps_view(args@), old(env)@, depth as nat),
    decreases depth, 2int,
{
    if args.len() != 2 {
        let m = concat("invalid form for ", op_str(k));
        return fail(concat(m.as_str(), ", needs 2 expressions"));
    }
    let av = match eval_copy(&args[0], env, depth) {
        Ok(v) => v,
        Err(e) => {
            return Err(e);
        },
    };
    let bv = match eval_copy(&args[1], env, depth) {
        Ok(v) => v,
        Err(e) => {
            return Err(e);
        },
    };
    match (&*av, &*bv) {
        (LispValue::Integer(a), LispValue::Integer(b)) => apply_arith(k, *a, *b),
        (LispValue::Integer(_), _) => {
            let m = concat("argument 2 for ", op_str(k));
            fail(concat(m.as_str(), " is not an integer"))
        },
        (_, LispValue::Integer(_)) => {
            let m = concat("argument 1 for ", op_str(k));
            fail(concat(m.as_str(), " is not an integer"))
        },
        _ => {
            let m = concat("arguments 1 and 2 for ", op_str(k));
            fail(concat(m.as_str(), " are not integers"))
        },
    }
}

/// `+`: the sum of two integers.
pub fn mgi_plus(args: &Vec<Sexp>, env: &mut Env, depth: u64) -> (r: Result<Rc<LispValue>, EvalError>)
    ensures
        (outcome(r), final(env)@) == builtin_sem(Builtin::Plus, sexps_view(args@), old(env)@, depth as nat),
    decreases depth, 3int,
{
    arith_intrinsic(Builtin::Plus, args, env, depth)
}

/// `-`: the difference of two integers.
pub fn mgi_subtract(args: &Vec<Sexp>, env: &mut Env, depth: u64) -> (r: Result<Rc<LispValue>, EvalError>)
    ensures
        (outcome(r), final(env)@) == builtin_sem(Builtin::Subtract, sexps_view(args@), old(env)@, depth as nat),
    decreases depth, 3int,
{
    arith_intrinsic(Builtin::Subtract, args, env, depth)
}

/// `*`: the product of two integers.
pub fn mgi_multiply(args: &Vec<Sexp>, env: &mut Env, depth: u64) -> (r: Result<Rc<LispValue>, EvalError>)
    ensures
        (outcome(r), final(env)@) == builtin_sem(Builtin::Multiply, sexps_view(args@), old(env)@, depth as nat),
    decreases depth, 3int,
{
    arith_intrinsic(Builtin::Multiply, args, env, depth)
}

/// `/`: the quotient of two integers, rounded toward zero.
pub fn mgi_divide(args: &Vec<Sexp>, env: &mut Env, depth: u64) -> (r: Result<Rc<LispValue>, EvalError>)
    ensures
        (outcome(r), final(env)@) == builtin_sem(Builtin::Divide, sexps_view(args@), old(env)@, depth as nat),
    decreases depth, 3int,
{
    arith_intrinsic(Builtin::Divide, args, env, depth)
}

/// The number of bytes in the UTF-8 encoding of `s`.
pub fn utf8_length(s: &String) -> (n: u128)
    ensures
        n == utf8_len(s@),
{
    let cs = chars_of(s.as_str());
    let mut n: u128 = 0;
    for i in 0..cs.len()
        invariant
            n == utf8_len(cs@.take(i as int)),
            n <= 4 * i,
    {
        let c = cs[i];
        let w: u128 = if (c as u32) < 0x80 {
            1
        } else if (c as u32) < 0x800 {
            2
        } else if (c as u32) < 0x10000 {
            3
        } else {
            4
        };
        assert(cs@.take(i + 1).drop_last() =~= cs@.take(i as int));
        n = n + w;
    }
    assert(cs@.take(cs.len() as int) =~= s@);
    n
}

/// `str-len`: the length of a string in bytes of its UTF-8 encoding.
pub fn mgi_str_len(args: &Vec<Sexp>, env: &mut Env, depth: u64) -> (r: Result<Rc<LispValue>, EvalError>)
    ensures
        (outcome(r), final(env)@) == builtin_sem(Builtin::StrLen, sexps_view(args@), old(env)@, depth as nat),
    decreases depth, 3int,
{
    if args.len() != 1 {
        return intrinsic_error("str-len takes 1 argument");
    }
    let v = match eval_copy(&args[0], env, depth) {
        Ok(v) => v,
        Err(e) => {
            return Err(e);
        },
    };
    match &*v {
        LispValue::Str(s) => {
            let n = utf8_length(s);
            Ok(Rc::new(LispValue::Integer(n as i64)))
        },
        _ => intrinsic_error("argument to str-len must be str"),
    }
}

/// `str-app`: two strings joined.
pub fn mgi_str_app(args: &Vec<Sexp>, env: &mut Env, depth: u64) -> (r: Result<Rc<LispValue>, EvalError>)
    ensures
        (outcome(r), final(env)@) == builtin_sem(Builtin::StrApp, sexps_view(args@), old(env)@, depth as nat),
    decreases depth, 3int,
{
    if args.len() != 2 {
        return intrinsic_error("str-app takes 2 arguments");
    }
    let av = match eval_copy(&args[0], env, depth) {
        Ok(v) => v,
        Err(e) => {
            return Err(e);
        },
    };
    let bv = match eval_copy(&args[1], env, depth) {
        Ok(v) => v,
        Err(e) => {
            return Err(e);
        },
    };
    match (&*av, &*bv) {
        (LispValue::Str(a), LispValue::Str(b)) => Ok(Rc::new(LispValue::Str(concat(a.as_str(), b.as_str())))),
        (LispValue::Str(_), _) => intrinsic_error("argument 2 for str-app is not a str"),
        (_, LispValue::Str(_)) => intrinsic_error("argument 1 for str-app is not a str"),
        _ => intrinsic_error("arguments 1 and 2 for str-app are not str"),
    }
}

/// Runs the intrinsic `k` on the argument expressions `args`.
pub fn call_builtin(k: Builtin, args: &Vec<Sexp>, env: &mut Env, depth: u64) -> (r: Result<Rc<LispValue>, EvalError>)
    ensures
        (outcome(r), final(env)@) == builtin_sem(k, sexps_view(args@), old(env)@, depth as nat),
    decreases depth, 4int,
{
    match k {
        Builtin::Lambda => mgi_lambda(args, env, depth),
        Builtin::VariadicLambda => mgi_variadic_lambda(args, env, depth),
        Builtin::Define => mgi_define(args, env, depth),
        Builtin::If => mgi_if(args, env, depth),
        Builtin::TypeOf => mgi_typeof(args, env, depth),
        Builtin::Begin => mgi_begin(args, env, depth),
        Builtin::DeepCopy => mgi_hard_clone(args, env, depth),
        Builtin::Quote => mgi_quote(args, env, depth),
        Builtin::Cons => mgi_cons(args, env, depth),
        Builtin::First => mgi_first(args, env, depth),
        Builtin::Rest => mgi_rest(args, env, depth),
        Builtin::Plus => mgi_plus(args, env, depth),
        Builtin::Subtract => mgi_subtract(args, env, depth),
        Builtin::Multiply => mgi_multiply(args, env, depth),
        Builtin::Divide => mgi_divide(args, env, depth),
        Builtin::StrLen => mgi_str_len(args, env, depth),
        Builtin::StrApp => mgi_str_app(args, env, depth),
    }
}

} // verus!

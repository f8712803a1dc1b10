//! What evaluation means, stated over the mathematical values.
//!
//! `fuel` bounds the depth of nested evaluations: each evaluation of an
//! expression uses one unit, and running out is an error, not a crash.
//! Intrinsics receive the argument expressions only, without the callee.
use vstd::prelude::*;
use crate::sexp::SexpV;
use crate::value::{Builtin, EnvV, ValueV};

verus! {

/// The mathematical value of an evaluation error.
pub enum ErrV {
    Msg(Seq<char>),
    Chain(Seq<ErrV>),
}

pub open spec fn depth_error() -> ErrV {
    ErrV::Msg("evaluation depth exceeded"@)
}

/// An error raised by an intrinsic itself.
pub open spec fn intrinsic_err(s: Seq<char>) -> ErrV {
    ErrV::Msg("error: "@ + s)
}

/// The character of a decimal digit.
pub open spec fn digit_char(d: nat) -> char {
    if d == 0 {
        '0'
    } else if d == 1 {
        '1'
    } else if d == 2 {
        '2'
    } else if d == 3 {
        '3'
    } else if d == 4 {
        '4'
    } else if d == 5 {
        '5'
    } else if d == 6 {
        '6'
    } else if d == 7 {
        '7'
    } else if d == 8 {
        '8'
    } else {
        '9'
    }
}

/// The decimal spelling of `n`.
pub open spec fn decimal(n: nat) -> Seq<char>
    decreases n,
{
    if n < 10 {
        seq![digit_char(n)]
    } else {
        decimal(n / 10).push(digit_char(n % 10))
    }
}

pub open spec fn arity_error(expected: nat, got: nat) -> ErrV {
    ErrV::Msg("function expected "@ + decimal(expected) + " arguments, got "@ + decimal(got))
}

/// Parameter names bound to argument values; a later duplicate name wins.
pub open spec fn param_map(params: Seq<Seq<char>>, vals: Seq<ValueV>) -> EnvV
    decreases params.len(),
{
    if params.len() == 0 || vals.len() == 0 {
        Map::empty()
    } else {
        param_map(params.drop_last(), vals.drop_last()).insert(params.last(), vals.last())
    }
}

/// A proper list: a chain of pairs ending in `Null`.
pub open spec fn list_of(vals: Seq<ValueV>) -> ValueV
    decreases vals.len(),
{
    if vals.len() == 0 {
        ValueV::Null
    } else {
        ValueV::Cons(Box::new(vals[0]), Box::new(list_of(vals.subrange(1, vals.len() as int))))
    }
}

/// An expression taken literally as a value; lists become chains of pairs.
pub open spec fn quote_value(e: SexpV) -> ValueV
    decreases e, 1int,
{
    match e {
        SexpV::Null => ValueV::Null,
        SexpV::Integer(i) => ValueV::Integer(i),
        SexpV::ByteArray(a) => ValueV::ByteArray(a),
        SexpV::Str(s) => ValueV::Str(s),
        SexpV::Boolean(b) => ValueV::Boolean(b),
        SexpV::Symbol(s) => ValueV::Symbol(s),
        SexpV::List(items) => quote_list(items),
    }
}

pub open spec fn quote_list(items: Seq<SexpV>) -> ValueV
    decreases items, 0int,
{
    if items.len() == 0 {
        ValueV::Null
    } else {
        ValueV::Cons(
            Box::new(quote_value(items[0])),
            Box::new(quote_list(items.subrange(1, items.len() as int))),
        )
    }
}

/// How many bytes the UTF-8 encoding of `c` takes.
pub open spec fn utf8_width(c: char) -> nat {
    if (c as u32) < 0x80 {
        1
    } else if (c as u32) < 0x800 {
        2
    } else if (c as u32) < 0x10000 {
        3
    } else {
        4
    }
}

/// How many bytes the UTF-8 encoding of `s` takes.
pub open spec fn utf8_len(s: Seq<char>) -> nat
    decreases s.len(),
{
    if s.len() == 0 {
        0
    } else {
        utf8_len(s.drop_last()) + utf8_width(s.last())
    }
}

/// The name of a value's runtime kind.
pub open spec fn kind_name(v: ValueV) -> Seq<char> {
    match v {
        ValueV::Null => "null"@,
        ValueV::Integer(_) => "integer"@,
        ValueV::ByteArray(_) => "bytearray"@,
        ValueV::Str(_) => "str"@,
        ValueV::Boolean(_) => "bool"@,
        ValueV::Symbol(_) => "symbol"@,
        ValueV::Cons(_, _) => "cons"@,
        _ => "function"@,
    }
}

/// How an arithmetic intrinsic is written in messages.
pub open spec fn op_name(k: Builtin) -> Seq<char> {
    match k {
        Builtin::Plus => "'+'"@,
        Builtin::Subtract => "'-'"@,
        Builtin::Multiply => "'*'"@,
        _ => "'/'"@,
    }
}

/// Integer division that rounds toward zero.
pub open spec fn trunc_div(a: int, b: int) -> int {
    let q = (if a < 0 { -a } else { a }) / (if b < 0 { -b } else { b });
    if (a < 0) != (b < 0) {
        -q
    } else {
        q
    }
}

pub open spec fn fits_i64(x: int) -> bool {
    i64::MIN <= x <= i64::MAX
}

/// The result of an arithmetic intrinsic on two integers.
pub open spec fn arith(k: Builtin, a: i64, b: i64) -> Result<ValueV, ErrV> {
    if k == Builtin::Divide && b == 0 {
        Err(intrinsic_err("division by zero in "@ + op_name(k)))
    } else {
        let x: int = match k {
            Builtin::Plus => a + b,
            Builtin::Subtract => a - b,
            Builtin::Multiply => a * b,
            _ => trunc_div(a as int, b as int),
        };
        if fits_i64(x) {
            Ok(ValueV::Integer(x as i64))
        } else {
            Err(intrinsic_err("integer overflow in "@ + op_name(k)))
        }
    }
}

/// The result of an arithmetic intrinsic on two evaluated operands.
pub open spec fn arith_values(k: Builtin, a: ValueV, b: ValueV) -> Result<ValueV, ErrV> {
    match (a, b) {
        (ValueV::Integer(x), ValueV::Integer(y)) => arith(k, x, y),
        (ValueV::Integer(_), _) => Err(intrinsic_err("argument 2 for "@ + op_name(k) + " is not an integer"@)),
        (_, ValueV::Integer(_)) => Err(intrinsic_err("argument 1 for "@ + op_name(k) + " is not an integer"@)),
        _ => Err(intrinsic_err("arguments 1 and 2 for "@ + op_name(k) + " are not integers"@)),
    }
}

pub open spec fn str_app_values(a: ValueV, b: ValueV) -> Result<ValueV, ErrV> {
    match (a, b) {
        (ValueV::Str(x), ValueV::Str(y)) => Ok(ValueV::Str(x + y)),
        (ValueV::Str(_), _) => Err(intrinsic_err("argument 2 for str-app is not a str"@)),
        (_, ValueV::Str(_)) => Err(intrinsic_err("argument 1 for str-app is not a str"@)),
        _ => Err(intrinsic_err("arguments 1 and 2 for str-app are not str"@)),
    }
}

/// Whether every item is a symbol.
pub open spec fn all_symbols(items: Seq<SexpV>) -> bool {
    forall|i: int| 0 <= i < items.len() ==> (#[trigger] items[i]) is Symbol
}

pub open spec fn symbol_names(items: Seq<SexpV>) -> Seq<Seq<char>> {
    items.map_values(|e: SexpV| e->Symbol_0)
}

/// Evaluates `e` in `env`: the result, and the environment afterwards
/// (only `define` changes it).
pub open spec fn sem(e: SexpV, env: EnvV, fuel: nat) -> (Result<ValueV, ErrV>, EnvV)
    decreases fuel, 0int,
{
    if fuel == 0 {
        (Err(depth_error()), env)
    } else {
        let f = (fuel - 1) as nat;
        match e {
            SexpV::Null => (Ok(ValueV::Null), env),
            SexpV::Integer(i) => (Ok(ValueV::Integer(i)), env),
            SexpV::ByteArray(a) => (Ok(ValueV::ByteArray(a)), env),
            SexpV::Str(s) => (Ok(ValueV::Str(s)), env),
            SexpV::Boolean(b) => (Ok(ValueV::Boolean(b)), env),
            SexpV::Symbol(s) => if env.contains_key(s) {
                (Ok(env[s]), env)
            } else {
                (Err(ErrV::Msg("unbound name "@ + s)), env)
            },
            SexpV::List(items) => if items.len() == 0 {
                (Err(ErrV::Msg("unevaluatable S-expression"@)), env)
            } else {
                let args = items.subrange(1, items.len() as int);
                match sem(items[0], env, f).0 {
                    Err(err) => (Err(err), env),
                    Ok(ValueV::Lambda(body, clos, params)) => match sem_args(args, env, f) {
                        Err(err) => (Err(err), env),
                        Ok(vals) => if vals.len() != params.len() {
                            (Err(arity_error(params.len(), vals.len())), env)
                        } else {
                            (sem(body, clos.union_prefer_right(param_map(params, vals)), f).0, env)
                        },
                    },
                    Ok(ValueV::VariadicLambda(body, clos)) => match sem_args(args, env, f) {
                        Err(err) => (Err(err), env),
                        Ok(vals) => (sem(body, clos.insert("args"@, list_of(vals)), f).0, env),
                    },
                    Ok(ValueV::Intrinsic(name, kind)) => {
                        let (r, env2) = builtin_sem(kind, args, env, f);
                        match r {
                            Ok(v) => (Ok(v), env2),
                            Err(err) => (
                                Err(ErrV::Chain(seq![ErrV::Msg("error in intrinsic "@ + name), err])),
                                env2,
                            ),
                        }
                    },
                    Ok(_) => (Err(ErrV::Msg("tried to call a non-function"@)), env),
                }
            },
        }
    }
}

/// Evaluates each expression, left to right, each in its own copy of `env`.
pub open spec fn sem_args(es: Seq<SexpV>, env: EnvV, fuel: nat) -> Result<Seq<ValueV>, ErrV>
    decreases fuel, es.len() + 1,
{
    if es.len() == 0 {
        Ok(Seq::empty())
    } else {
        match sem(es[0], env, fuel).0 {
            Err(err) => Err(err),
            Ok(v) => match sem_args(es.subrange(1, es.len() as int), env, fuel) {
                Ok(vs) => Ok(seq![v] + vs),
                Err(err) => Err(err),
            },
        }
    }
}

/// Evaluates each expression in turn in the same environment; the value of the last,
/// or `Null` where there is none.
pub open spec fn sem_begin(es: Seq<SexpV>, env: EnvV, fuel: nat) -> (Result<ValueV, ErrV>, EnvV)
    decreases fuel, es.len() + 1,
{
    if es.len() == 0 {
        (Ok(ValueV::Null), env)
    } else {
        let (r, env1) = sem(es[0], env, fuel);
        match r {
            Err(err) => (Err(err), env1),
            Ok(v) => if es.len() == 1 {
                (Ok(v), env1)
            } else {
                sem_begin(es.subrange(1, es.len() as int), env1, fuel)
            },
        }
    }
}

/// What an intrinsic does with its argument expressions.
pub open spec fn builtin_sem(k: Builtin, args: Seq<SexpV>, env: EnvV, fuel: nat) -> (Result<ValueV, ErrV>, EnvV)
    decreases fuel, args.len() + 2,
{
    match k {
        Builtin::Lambda => if args.len() != 2 {
            (Err(intrinsic_err("invalid form for lambda, needs 2 expressions"@)), env)
        } else {
            match args[0] {
                SexpV::List(ps) => if all_symbols(ps) {
                    (Ok(ValueV::Lambda(args[1], env, symbol_names(ps))), env)
                } else {
                    (Err(intrinsic_err("invalid form for lambda, malformed argument names"@)), env)
                },
                _ => (Err(intrinsic_err("invalid form for lambda, first argument not list"@)), env),
            }
        },
        Builtin::VariadicLambda => if args.len() != 1 {
            (Err(intrinsic_err("invalid form for vlambda, needs 1 expression"@)), env)
        } else {
            (Ok(ValueV::VariadicLambda(args[0], env)), env)
        },
        Builtin::Define => if args.len() != 2 {
            (Err(intrinsic_err("invalid form for define, needs 2 expressions"@)), env)
        } else {
            match args[0] {
                SexpV::Symbol(name) => match sem(args[1], env, fuel).0 {
                    Err(err) => (Err(err), env),
                    Ok(v) => (Ok(ValueV::Null), env.insert(name, v)),
                },
                _ => (Err(intrinsic_err("invalid form for define, first argument is not symbol"@)), env),
            }
        },
        Builtin::If => if args.len() != 3 {
            (Err(intrinsic_err("invalid form for if, needs 3 expressions"@)), env)
        } else {
            let (c, env1) = sem(args[0], env, fuel);
            match c {
                Err(err) => (Err(err), env1),
                Ok(ValueV::Boolean(true)) => sem(args[1], env1, fuel),
                Ok(ValueV::Boolean(false)) => sem(args[2], env1, fuel),
                Ok(_) => (Err(intrinsic_err("conditional expression in if is non-boolean"@)), env1),
            }
        },
        Builtin::TypeOf => if args.len() != 1 {
            (Err(intrinsic_err("typeof takes 1 argument"@)), env)
        } else {
            match sem(args[0], env, fuel).0 {
                Err(err) => (Err(err), env),
                Ok(v) => (Ok(ValueV::Symbol(kind_name(v))), env),
            }
        },
        Builtin::Begin => sem_begin(args, env, fuel),
        Builtin::DeepCopy => if args.len() != 1 {
            (Err(intrinsic_err("invalid form for deepcopy, needs 1 expression"@)), env)
        } else {
            sem(args[0], env, fuel)
        },
        Builtin::Quote => if args.len() != 1 {
            (Err(intrinsic_err("invalid form for quote, needs 1 expression"@)), env)
        } else {
            (Ok(quote_value(args[0])), env)
        },
        Builtin::Cons => if args.len() != 2 {
            (Err(intrinsic_err("invalid form for cons, needs 2 expressions"@)), env)
        } else {
            match sem(args[0], env, fuel).0 {
                Err(err) => (Err(err), env),
                Ok(a) => match sem(args[1], env, fuel).0 {
                    Err(err) => (Err(err), env),
                    Ok(b) => (Ok(ValueV::Cons(Box::new(a), Box::new(b))), env),
                },
            }
        },
        Builtin::First => if args.len() != 1 {
            (Err(intrinsic_err("first expects 1 argument"@)), env)
        } else {
            match sem(args[0], env, fuel).0 {
                Err(err) => (Err(err), env),
                Ok(ValueV::Cons(a, _)) => (Ok(*a), env),
                Ok(_) => (Err(intrinsic_err("first expects a cons"@)), env),
            }
        },
        Builtin::Rest => if args.len() != 1 {
            (Err(intrinsic_err("rest expects 1 argument"@)), env)
        } else {
            match sem(args[0], env, fuel).0 {
                Err(err) => (Err(err), env),
                Ok(ValueV::Cons(_, b)) => (Ok(*b), env),
                Ok(_) => (Err(intrinsic_err("rest expects a cons"@)), env),
            }
        },
        Builtin::Plus | Builtin::Subtract | Builtin::Multiply | Builtin::Divide => if args.len() != 2 {
            (Err(intrinsic_err("invalid form for "@ + op_name(k) + ", needs 2 expressions"@)), env)
        } else {
            match sem(args[0], env, fuel).0 {
                Err(err) => (Err(err), env),
                Ok(a) => match sem(args[1], env, fuel).0 {
                    Err(err) => (Err(err), env),
                    Ok(b) => (arith_values(k, a, b), env),
                },
            }
        },
        Builtin::StrLen => if args.len() != 1 {
            (Err(intrinsic_err("str-len takes 1 argument"@)), env)
        } else {
            match sem(args[0], env, fuel).0 {
                Err(err) => (Err(err), env),
                Ok(ValueV::Str(s)) => (Ok(ValueV::Integer(utf8_len(s) as i64)), env),
                Ok(_) => (Err(intrinsic_err("argument to str-len must be str"@)), env),
            }
        },
        Builtin::StrApp => if args.len() != 2 {
            (Err(intrinsic_err("str-app takes 2 arguments"@)), env)
        } else {
            match sem(args[0], env, fuel).0 {
                Err(err) => (Err(err), env),
                Ok(a) => match sem(args[1], env, fuel).0 {
                    Err(err) => (Err(err), env),
                    Ok(b) => (str_app_values(a, b), env),
                },
            }
        },
    }
}

/// `if` evaluates only the branch that the condition picks: unless the condition
/// comes out false, the else-branch may be anything at all, and unless it comes
/// out true, so may the then-branch.
pub proof fn lemma_if_short_circuit(c: SexpV, a: SexpV, b: SexpV, other: SexpV, env: EnvV, fuel: nat)
    ensures
        sem(c, env, fuel).0 != Ok::<ValueV, ErrV>(ValueV::Boolean(false)) ==> builtin_sem(
            Builtin::If,
            seq![c, a, b],
            env,
            fuel,
        ) == builtin_sem(Builtin::If, seq![c, a, other], env, fuel),
        sem(c, env, fuel).0 != Ok::<ValueV, ErrV>(ValueV::Boolean(true)) ==> builtin_sem(
            Builtin::If,
            seq![c, a, b],
            env,
            fuel,
        ) == builtin_sem(Builtin::If, seq![c, other, b], env, fuel),
{
}

/// After `define` binds a name in an environment, looking the name up there gives
/// the defined value.
pub proof fn lemma_define_then_resolve(name: Seq<char>, e: SexpV, env: EnvV, fuel: nat, later: nat)
    requires
        sem(e, env, fuel).0 is Ok,
        later >= 1,
    ensures
        builtin_sem(Builtin::Define, seq![SexpV::Symbol(name), e], env, fuel) == (
            Ok::<ValueV, ErrV>(ValueV::Null),
            env.insert(name, sem(e, env, fuel).0->Ok_0),
        ),
        sem(SexpV::Symbol(name), env.insert(name, sem(e, env, fuel).0->Ok_0), later).0 == Ok::<ValueV, ErrV>(
            sem(e, env, fuel).0->Ok_0,
        ),
{
}

/// A closure holds the environment as it was when `lambda` ran: a `define` that
/// runs afterwards in that environment changes the environment, not the closure.
pub proof fn lemma_closure_snapshot(
    params: SexpV,
    body: SexpV,
    name: Seq<char>,
    e: SexpV,
    env: EnvV,
    fuel: nat,
)
    requires
        builtin_sem(Builtin::Lambda, seq![params, body], env, fuel).0 is Ok,
    ensures
        ({
            let f = builtin_sem(Builtin::Lambda, seq![params, body], env, fuel).0->Ok_0;
            let after = builtin_sem(Builtin::Define, seq![SexpV::Symbol(name), e], env, fuel).1;
            &&& f is Lambda
            &&& f->Lambda_1 == env
            &&& !env.contains_key(name) ==> !f->Lambda_1.contains_key(name)
            &&& sem(e, env, fuel).0 is Ok ==> after.contains_key(name)
        }),
{
}

/// Evaluating arguments neither drops nor adds any: on success there is one value
/// per expression.
pub proof fn lemma_sem_args_len(es: Seq<SexpV>, env: EnvV, fuel: nat)
    ensures
        sem_args(es, env, fuel) is Ok ==> sem_args(es, env, fuel)->Ok_0.len() == es.len(),
    decreases es.len(),
{
    if es.len() > 0 {
        lemma_sem_args_len(es.subrange(1, es.len() as int), env, fuel);
    }
}

/// Calling a lambda with a number of arguments other than its number of parameters
/// fails with the error that names both counts, and nothing else happens.
pub proof fn lemma_arity_mismatch(items: Seq<SexpV>, env: EnvV, fuel: nat)
    requires
        items.len() >= 1,
        fuel >= 1,
        sem(items[0], env, (fuel - 1) as nat).0 is Ok,
        sem(items[0], env, (fuel - 1) as nat).0->Ok_0 is Lambda,
        sem_args(items.subrange(1, items.len() as int), env, (fuel - 1) as nat) is Ok,
        items.len() - 1 != sem(items[0], env, (fuel - 1) as nat).0->Ok_0->Lambda_2.len(),
    ensures
        sem(SexpV::List(items), env, fuel) == (
            Err::<ValueV, ErrV>(arity_error(
                sem(items[0], env, (fuel - 1) as nat).0->Ok_0->Lambda_2.len(),
                (items.len() - 1) as nat,
            )),
            env,
        ),
{
    lemma_sem_args_len(items.subrange(1, items.len() as int), env, (fuel - 1) as nat);
}

/// Quoting a list gives the chain of pairs of its quoted items, ending in `Null`.
pub proof fn lemma_quote_list(items: Seq<SexpV>)
    ensures
        quote_value(SexpV::List(items)) == list_of(items.map_values(|e: SexpV| quote_value(e))),
    decreases items.len(),
{
    let q = items.map_values(|e: SexpV| quote_value(e));
    if items.len() > 0 {
        let tail = items.subrange(1, items.len() as int);
        lemma_quote_list(tail);
        assert(q.subrange(1, q.len() as int) =~= tail.map_values(|e: SexpV| quote_value(e)));
    }
}

} // verus!

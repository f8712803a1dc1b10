//! A program: an environment that starts with intrinsics bound to their names.
use vstd::prelude::*;
use std::rc::Rc;
use crate::sexp::Sexp;
use crate::value::{Builtin, Env, EnvV, LispFunction, LispValue, MgIntrinsic, ValueV};
use crate::semantics::sem;
use crate::eval::{EvalError, MAX_DEPTH, eval, outcome};
use vstd::string::StringExecFns;

verus! {

/// The top-level environment of a program.
pub struct LispProgram {
    pub prelude: bool,
    pub env: Env,
}

/// The environment with the intrinsic `func` bound to `name`.
pub open spec fn with_intrinsic(env: EnvV, name: Seq<char>, func: Builtin) -> EnvV {
    env.insert(name, ValueV::Intrinsic(name, func))
}

/// The environment with every intrinsic bound to its usual name.
pub open spec fn with_core_names(env: EnvV) -> EnvV {
    let e = with_intrinsic(env, "lambda"@, Builtin::Lambda);
    let e = with_intrinsic(e, "vlambda"@, Builtin::VariadicLambda);
    let e = with_intrinsic(e, "define"@, Builtin::Define);
    let e = with_intrinsic(e, "if"@, Builtin::If);
    let e = with_intrinsic(e, "typeof"@, Builtin::TypeOf);
    let e = with_intrinsic(e, "begin"@, Builtin::Begin);
    let e = with_intrinsic(e, "deepcopy"@, Builtin::DeepCopy);
    let e = with_intrinsic(e, "quote"@, Builtin::Quote);
    let e = with_intrinsic(e, "cons"@, Builtin::Cons);
    let e = with_intrinsic(e, "first"@, Builtin::First);
    let e = with_intrinsic(e, "rest"@, Builtin::Rest);
    let e = with_intrinsic(e, "+"@, Builtin::Plus);
    let e = with_intrinsic(e, "-"@, Builtin::Subtract);
    let e = with_intrinsic(e, "*"@, Builtin::Multiply);
    let e = with_intrinsic(e, "/"@, Builtin::Divide);
    let e = with_intrinsic(e, "str-len"@, Builtin::StrLen);
    with_intrinsic(e, "str-app"@, Builtin::StrApp)
}

impl LispProgram {
    /// A program with an empty environment.
    pub fn new() -> (r: LispProgram)
        ensures
            r.prelude,
            r.env@ == Map::<Seq<char>, ValueV>::empty(),
    {
        LispProgram { prelude: true, env: Env::new() }
    }

    /// Binds the intrinsic `func` to `name`.
    pub fn with_function(self, name: &str, func: Builtin) -> (r: LispProgram)
        ensures
            r.prelude == self.prelude,
            r.env@ == with_intrinsic(self.env@, name@, func),
    {
        let mut p = self;
        let f = MgIntrinsic::new(String::from_str(name), func);
        let v = Rc::new(LispValue::Func(Box::new(LispFunction::Intrinsic(f))));
        p.env.add_binding(String::from_str(name), v);
        p
    }

    /// Binds every intrinsic to its usual name.
    pub fn with_core(self) -> (r: LispProgram)
        ensures
            r.prelude == self.prelude,
            r.env@ == with_core_names(self.env@),
    {
        self.with_function("lambda", Builtin::Lambda)
            .with_function("vlambda", Builtin::VariadicLambda)
            .with_function("define", Builtin::Define)
            .with_function("if", Builtin::If)
            .with_function("typeof", Builtin::TypeOf)
            .with_function("begin", Builtin::Begin)
            .with_function("deepcopy", Builtin::DeepCopy)
            .with_function("quote", Builtin::Quote)
            .with_function("cons", Builtin::Cons)
            .with_function("first", Builtin::First)
            .with_function("rest", Builtin::Rest)
            .with_function("+", Builtin::Plus)
            .with_function("-", Builtin::Subtract)
            .with_function("*", Builtin::Multiply)
            .with_function("/", Builtin::Divide)
            .with_function("str-len", Builtin::StrLen)
            .with_function("str-app", Builtin::StrApp)
    }

    /// Evaluates a top-level form in the program's environment, which keeps
    /// what the form defines.
    pub fn exec(&mut self, sexp: &Sexp) -> (r: Result<Rc<LispValue>, EvalError>)
        ensures
            final(self).prelude == old(self).prelude,
            (outcome(r), final(self).env@) == sem(sexp@, old(self).env@, MAX_DEPTH as nat),
    {
        eval(sexp, &mut self.env)
    }
}

} // verus!

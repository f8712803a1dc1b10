//! Runtime values, functions and environments.
//!
//! An environment is an association list: a binding added later shadows an
//! earlier one of the same name. `compose` copies both lists, so it costs
//! O(|base| + |extension|) and never aliases mutable state.
use vstd::prelude::*;
use std::rc::Rc;
use crate::sexp::{Sexp, SexpV};

verus! {

broadcast use vstd::std_specs::vec::group_vec_axioms;

/// Relies on `Rc::clone`: the new handle points at the same value.
#[verifier::external_body]
pub(crate) fn share<T>(r: &Rc<T>) -> (c: Rc<T>)
    ensures
        c == *r,
{
    Rc::clone(r)
}

/// The native operations that intrinsics stand for.
#[derive(Clone, Copy, PartialEq, Eq, Debug, Structural)]
pub enum Builtin {
    Lambda,
    VariadicLambda,
    Define,
    If,
    TypeOf,
    Begin,
    DeepCopy,
    Quote,
    Cons,
    First,
    Rest,
    Plus,
    Subtract,
    Multiply,
    Divide,
    StrLen,
    StrApp,
}

/// A named native function.
#[derive(PartialEq, Eq, Debug)]
pub struct MgIntrinsic {
    pub name: String,
    pub func: Builtin,
}

impl MgIntrinsic {
    pub fn new(name: String, func: Builtin) -> (r: MgIntrinsic)
        ensures
            r.name@ == name@,
            r.func == func,
    {
        MgIntrinsic { name, func }
    }
}

impl Clone for MgIntrinsic {
    fn clone(&self) -> (r: MgIntrinsic)
        ensures
            r.name@ == self.name@,
            r.func == self.func,
    {
        MgIntrinsic { name: self.name.clone(), func: self.func }
    }
}

/// A callable value.
#[derive(PartialEq, Eq, Debug)]
pub enum LispFunction {
    /// Body, the environment captured at creation, and parameter names.
    Lambda(Rc<Sexp>, Env, Vec<String>),
    /// Body and captured environment; the arguments are bound, as a list in call
    /// order (first argument first, on purpose), to `args`.
    VariadicLambda(Rc<Sexp>, Env),
    Intrinsic(MgIntrinsic),
}

/// A runtime value.
#[derive(PartialEq, Eq, Debug)]
pub enum LispValue {
    Null,
    Integer(i64),
    ByteArray(Vec<i8>),
    Str(String),
    Boolean(bool),
    Symbol(String),
    /// A pair; lists are chains of pairs that end in `Null`.
    Cons(Rc<LispValue>, Rc<LispValue>),
    Func(Box<LispFunction>),
}

/// Another name for a runtime value.
pub type Atom = LispValue;

/// A lexical scope: names bound to values.
#[derive(PartialEq, Eq, Debug)]
pub struct Env {
    bindings: Vec<(String, Rc<LispValue>)>,
}

/// The mathematical value of a runtime value.
pub enum ValueV {
    Null,
    Integer(i64),
    ByteArray(Seq<i8>),
    Str(Seq<char>),
    Boolean(bool),
    Symbol(Seq<char>),
    Cons(Box<ValueV>, Box<ValueV>),
    Lambda(SexpV, Map<Seq<char>, ValueV>, Seq<Seq<char>>),
    VariadicLambda(SexpV, Map<Seq<char>, ValueV>),
    Intrinsic(Seq<char>, Builtin),
}

/// The mathematical value of an environment.
pub type EnvV = Map<Seq<char>, ValueV>;

pub open spec fn names_view(v: Seq<String>) -> Seq<Seq<char>> {
    v.map_values(|s: String| s@)
}

pub open spec fn value_view(v: LispValue) -> ValueV
    decreases v,
{
    match v {
        LispValue::Null => ValueV::Null,
        LispValue::Integer(i) => ValueV::Integer(i),
        LispValue::ByteArray(a) => ValueV::ByteArray(a@),
        LispValue::Str(s) => ValueV::Str(s@),
        LispValue::Boolean(b) => ValueV::Boolean(b),
        LispValue::Symbol(s) => ValueV::Symbol(s@),
        LispValue::Cons(a, b) => ValueV::Cons(Box::new(value_view(*a)), Box::new(value_view(*b))),
        LispValue::Func(f) => match *f {
            LispFunction::Lambda(body, env, params) => ValueV::Lambda(
                (*body)@,
                env_map(env),
                names_view(params@),
            ),
            LispFunction::VariadicLambda(body, env) => ValueV::VariadicLambda(
                (*body)@,
                env_map(env),
            ),
            LispFunction::Intrinsic(i) => ValueV::Intrinsic(i.name@, i.func),
        },
    }
}

/// The map that an association list stands for; later entries shadow earlier ones.
pub open spec fn bindings_view(s: Seq<(String, Rc<LispValue>)>) -> EnvV
    decreases s,
{
    if s.len() == 0 {
        Map::empty()
    } else {
        bindings_view(s.subrange(0, s.len() - 1)).insert(s[s.len() - 1].0@, value_view(*s[s.len() - 1].1))
    }
}

/// The map that an environment stands for.
pub closed spec fn env_map(e: Env) -> EnvV
    decreases e,
{
    bindings_view(e.bindings@)
}

impl View for LispValue {
    type V = ValueV;

    open spec fn view(&self) -> ValueV {
        value_view(*self)
    }
}

impl View for Env {
    type V = EnvV;

    open spec fn view(&self) -> EnvV {
        env_map(*self)
    }
}

pub proof fn lemma_bindings_push(s: Seq<(String, Rc<LispValue>)>, x: (String, Rc<LispValue>))
    ensures
        bindings_view(s.push(x)) == bindings_view(s).insert(x.0@, value_view(*x.1)),
{
    assert(s.push(x).subrange(0, s.len() as int) =~= s);
}

pub proof fn lemma_bindings_append(a: Seq<(String, Rc<LispValue>)>, b: Seq<(String, Rc<LispValue>)>)
    ensures
        bindings_view(a + b) == bindings_view(a).union_prefer_right(bindings_view(b)),
    decreases b.len(),
{
    if b.len() == 0 {
        assert(a + b =~= a);
        assert(bindings_view(a).union_prefer_right(bindings_view(b)) =~= bindings_view(a));
    } else {
        let b1 = b.subrange(0, b.len() - 1);
        let x = b[b.len() - 1];
        assert(a + b =~= (a + b1).push(x));
        assert(b =~= b1.push(x));
        lemma_bindings_push(a + b1, x);
        lemma_bindings_push(b1, x);
        lemma_bindings_append(a, b1);
        assert(bindings_view(a + b) =~= bindings_view(a).union_prefer_right(bindings_view(b)));
    }
}

/// A copy of a byte vector.
pub fn copy_bytes(a: &Vec<i8>) -> (b: Vec<i8>)
    ensures
        b@ == a@,
{
    let mut b: Vec<i8> = Vec::new();
    for i in 0..a.len()
        invariant
            b@ == a@.take(i as int),
    {
        b.push(a[i]);
        assert(b@ =~= a@.take(i + 1));
    }
    assert(b@ =~= a@);
    b
}

/// A copy of a list of names.
pub fn copy_names(a: &Vec<String>) -> (b: Vec<String>)
    ensures
        b@ == a@,
{
    let mut b: Vec<String> = Vec::new();
    for i in 0..a.len()
        invariant
            b@ == a@.take(i as int),
    {
        b.push(a[i].clone());
        assert(b@ =~= a@.take(i + 1));
    }
    assert(b@ =~= a@);
    b
}

fn copy_bindings(a: &Vec<(String, Rc<LispValue>)>) -> (b: Vec<(String, Rc<LispValue>)>)
    ensures
        b@ == a@,
{
    let mut b: Vec<(String, Rc<LispValue>)> = Vec::new();
    for i in 0..a.len()
        invariant
            b@ == a@.take(i as int),
    {
        let name = a[i].0.clone();
        let value = share(&a[i].1);
        b.push((name, value));
        assert(b@ =~= a@.take(i + 1));
    }
    assert(b@ =~= a@);
    b
}

impl Env {
    /// The empty environment.
    pub fn new() -> (r: Env)
        ensures
            r@ == Map::<Seq<char>, ValueV>::empty(),
    {
        proof {
            reveal(env_map);
        }
        Env { bindings: Vec::new() }
    }

    /// Binds `name` to `value` in this environment, shadowing an earlier binding.
    pub fn add_binding(&mut self, name: String, value: Rc<LispValue>)
        ensures
            final(self)@ == old(self)@.insert(name@, value_view(*value)),
    {
        proof {
            reveal(env_map);
            lemma_bindings_push(self.bindings@, (name, value));
        }
        self.bindings.push((name, value));
    }

    /// A new environment: this one overlaid by `top`, whose bindings win.
    /// Neither input changes.
    pub fn compose(&self, top: &Env) -> (r: Env)
        ensures
            r@ == self@.union_prefer_right(top@),
    {
        proof {
            reveal(env_map);
        }
        let mut dup = Env { bindings: copy_bindings(&self.bindings) };
        for i in 0..top.bindings.len()
            invariant
                dup.bindings@ == self.bindings@ + top.bindings@.take(i as int),
        {
            let name = top.bindings[i].0.clone();
            let value = share(&top.bindings[i].1);
            dup.bindings.push((name, value));
            assert(dup.bindings@ =~= self.bindings@ + top.bindings@.take(i + 1));
        }
        proof {
            assert(top.bindings@.take(top.bindings.len() as int) =~= top.bindings@);
            lemma_bindings_append(self.bindings@, top.bindings@);
        }
        dup
    }

    /// The value bound to `name`, if any.
    pub fn resolve(&self, name: &String) -> (r: Option<Rc<LispValue>>)
        ensures
            r is Some <==> self@.contains_key(name@),
            r is Some ==> value_view(*r->Some_0) == self@[name@],
    {
        proof {
            reveal(env_map);
        }
        let ghost s = self.bindings@;
        let mut i: usize = self.bindings.len();
        assert(s.subrange(0, i as int) =~= s);
        while i > 0
            invariant
                i <= s.len(),
                s == self.bindings@,
                bindings_view(s).contains_key(name@) == bindings_view(s.subrange(0, i as int)).contains_key(name@),
                bindings_view(s).contains_key(name@) ==> bindings_view(s)[name@] == bindings_view(s.subrange(0, i as int))[name@],
            decreases i,
        {
            let ghost sub = s.subrange(0, i as int);
            assert(sub.subrange(0, i - 1) =~= s.subrange(0, i - 1));
            if self.bindings[i - 1].0 == *name {
                return Some(share(&self.bindings[i - 1].1));
            }
            i = i - 1;
        }
        None
    }
}

impl Clone for Env {
    /// A copy of the bindings; the values themselves are shared.
    fn clone(&self) -> (r: Env)
        ensures
            r@ == self@,
    {
        proof {
            reveal(env_map);
        }
        Env { bindings: copy_bindings(&self.bindings) }
    }
}

/// The view of a function as a value.
pub open spec fn function_view(f: LispFunction) -> ValueV {
    value_view(LispValue::Func(Box::new(f)))
}

impl Clone for LispFunction {
    fn clone(&self) -> (r: LispFunction)
        ensures
            function_view(r) == function_view(*self),
    {
        match self {
            LispFunction::Lambda(body, env, params) => LispFunction::Lambda(
                share(body),
                env.clone(),
                copy_names(params),
            ),
            LispFunction::VariadicLambda(body, env) => LispFunction::VariadicLambda(share(body), env.clone()),
            LispFunction::Intrinsic(i) => LispFunction::Intrinsic(i.clone()),
        }
    }
}

impl LispValue {
    /// A new, exact, but separate copy: no pair is shared with this value.
    pub fn hard_clone(&self) -> (r: Rc<LispValue>)
        ensures
            value_view(*r) == value_view(*self),
        decreases self,
    {
        match self {
            LispValue::Null => Rc::new(LispValue::Null),
            LispValue::Integer(i) => Rc::new(LispValue::Integer(*i)),
            LispValue::ByteArray(a) => Rc::new(LispValue::ByteArray(copy_bytes(a))),
            LispValue::Str(s) => Rc::new(LispValue::Str(s.clone())),
            LispValue::Boolean(b) => Rc::new(LispValue::Boolean(*b)),
            LispValue::Symbol(s) => Rc::new(LispValue::Symbol(s.clone())),
            LispValue::Cons(l, r) => {
                proof {
                    assert(decreases_to!(*self => (*self)->Cons_0));
                    assert(decreases_to!(*self => (*self)->Cons_1));
                }
                let a = l.hard_clone();
                let b = r.hard_clone();
                Rc::new(LispValue::Cons(a, b))
            },
            LispValue::Func(f) => Rc::new(LispValue::Func(Box::new((**f).clone()))),
        }
    }
}

} // verus!

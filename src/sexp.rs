//! The literal syntax tree.
use vstd::prelude::*;

verus! {

broadcast use vstd::std_specs::vec::group_vec_axioms;

/// An S-expression: the tree that parsing builds.
#[derive(PartialEq, Eq, Debug)]
pub enum Sexp {
    /// Nothing.
    Null,
    /// A 64-bit integer.
    Integer(i64),
    /// A byte array.
    ByteArray(Vec<i8>),
    /// A UTF-8 string.
    Str(String),
    /// A boolean.
    Boolean(bool),
    /// A symbol, which names a binding.
    Symbol(String),
    /// A list of S-expressions.
    List(Vec<Sexp>),
}

/// The mathematical value of an S-expression.
pub enum SexpV {
    Null,
    Integer(i64),
    ByteArray(Seq<i8>),
    Str(Seq<char>),
    Boolean(bool),
    Symbol(Seq<char>),
    List(Seq<SexpV>),
}

pub open spec fn sexp_view(e: Sexp) -> SexpV
    decreases e,
{
    match e {
        Sexp::Null => SexpV::Null,
        Sexp::Integer(i) => SexpV::Integer(i),
        Sexp::ByteArray(a) => SexpV::ByteArray(a@),
        Sexp::Str(s) => SexpV::Str(s@),
        Sexp::Boolean(b) => SexpV::Boolean(b),
        Sexp::Symbol(s) => SexpV::Symbol(s@),
        Sexp::List(v) => SexpV::List(
            Seq::new(v.len() as nat, |i: int| if 0 <= i < v.len() { sexp_view(v[i]) } else { SexpV::Null }),
        ),
    }
}

impl View for Sexp {
    type V = SexpV;

    open spec fn view(&self) -> SexpV {
        sexp_view(*self)
    }
}

/// The views of a sequence of S-expressions.
pub open spec fn sexps_view(v: Seq<Sexp>) -> Seq<SexpV> {
    Seq::new(v.len(), |i: int| v[i]@)
}

pub proof fn lemma_list_view(v: Vec<Sexp>)
    ensures
        Sexp::List(v)@ == SexpV::List(sexps_view(v@)),
{
    assert(Sexp::List(v)@->List_0 =~= sexps_view(v@));
}

/// A deep copy of an S-expression.
fn copy_sexp(e: &Sexp) -> (r: Sexp)
    ensures
        r@ == e@,
    decreases e,
{
        match e {
            Sexp::Null => Sexp::Null,
            Sexp::Integer(i) => Sexp::Integer(*i),
            Sexp::ByteArray(a) => Sexp::ByteArray(crate::value::copy_bytes(a)),
            Sexp::Str(s) => Sexp::Str(s.clone()),
            Sexp::Boolean(b) => Sexp::Boolean(*b),
            Sexp::Symbol(s) => Sexp::Symbol(s.clone()),
            Sexp::List(v) => {
                let mut out: Vec<Sexp> = Vec::new();
                for i in 0..v.len()
                    invariant
                        out.len() == i,
                        *e == Sexp::List(*v),
                        forall|j: int| 0 <= j < i ==> #[trigger] out[j]@ == v[j]@,
                {
                    proof {
                        assert(decreases_to!(*e => (*e)->List_0));
                        assert(decreases_to!(*v => v@));
                        assert(decreases_to!(v@ => v@[i as int]));
                    }
                    let c = copy_sexp(&v[i]);
                    out.push(c);
                }
                proof {
                    lemma_list_view(out);
                    lemma_list_view(*v);
                    assert(sexps_view(out@) =~= sexps_view(v@));
                }
                Sexp::List(out)
            },
        }
}

impl Clone for Sexp {
    /// A deep copy.
    fn clone(&self) -> (r: Sexp)
        ensures
            r@ == self@,
    {
        copy_sexp(self)
    }
}

impl Sexp {
    /// The symbol named `s`.
    pub fn symb_str(s: &str) -> (r: Sexp)
        ensures
            r@ == SexpV::Symbol(s@),
    {
        Sexp::Symbol(s.to_owned())
    }

    /// The string `s`.
    pub fn str_str(s: &str) -> (r: Sexp)
        ensures
            r@ == SexpV::Str(s@),
    {
        Sexp::Str(s.to_owned())
    }
}

} // verus!

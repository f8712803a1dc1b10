//! Builds S-expressions out of tokens, by recursive descent.
use vstd::prelude::*;
use crate::lexer::{Token, TokenV, tokens_view};
use crate::sexp::{Sexp, SexpV, sexps_view, lemma_list_view};

verus! {

broadcast use vstd::std_specs::vec::group_vec_axioms;

/// Why parsing failed.
#[derive(Clone, PartialEq, Eq, Debug)]
pub enum ParseError {
    UnexpectedToken(Token),
    UnexpectedTermination,
}

/// The expression that starts at `pos`, and the position after its last token.
pub open spec fn parse_at(t: Seq<TokenV>, pos: int) -> Result<(SexpV, int), ParseError>
    decreases t.len() - pos, 0int,
{
    if pos < 0 || pos >= t.len() {
        Err(ParseError::UnexpectedTermination)
    } else {
        match t[pos] {
            TokenV::OpenParen => match parse_items(t, pos + 1) {
                Ok((items, end)) => Ok((SexpV::List(items), end)),
                Err(e) => Err(e),
            },
            TokenV::Quote => match parse_at(t, pos + 1) {
                Ok((e, end)) => Ok((SexpV::List(seq![SexpV::Symbol("quote"@), e]), end)),
                Err(e) => Err(e),
            },
            TokenV::Number(n) => Ok((SexpV::Integer(n), pos + 1)),
            TokenV::Name(s) => Ok((SexpV::Symbol(s), pos + 1)),
            TokenV::Str(s) => Ok((SexpV::Str(s), pos + 1)),
            TokenV::Bool(b) => Ok((SexpV::Boolean(b), pos + 1)),
            TokenV::CloseParen => Err(ParseError::UnexpectedToken(Token::CloseParen)),
        }
    }
}

/// The items of a list from `pos` up to its closing parenthesis, and the
/// position after that parenthesis.
pub open spec fn parse_items(t: Seq<TokenV>, pos: int) -> Result<(Seq<SexpV>, int), ParseError>
    decreases t.len() - pos, 1int,
{
    if pos < 0 || pos >= t.len() {
        Err(ParseError::UnexpectedTermination)
    } else if t[pos] is CloseParen {
        Ok((Seq::empty(), pos + 1))
    } else {
        match parse_at(t, pos) {
            Err(e) => Err(e),
            Ok((e, j)) => if j <= pos || j > t.len() {
                Err(ParseError::UnexpectedTermination)
            } else {
                match parse_items(t, j) {
                    Ok((rest, end)) => Ok((seq![e] + rest, end)),
                    Err(err) => Err(err),
                }
            },
        }
    }
}

/// `acc` put in front of the items that parsing the rest of a list found.
pub open spec fn items_prefixed(acc: Seq<SexpV>, r: Result<(Seq<SexpV>, int), ParseError>) -> Result<(Seq<SexpV>, int), ParseError> {
    match r {
        Ok((rest, end)) => Ok((acc + rest, end)),
        Err(e) => Err(e),
    }
}

pub proof fn lemma_parse_advances(t: Seq<TokenV>, pos: int)
    ensures
        parse_at(t, pos) is Ok ==> pos < parse_at(t, pos)->Ok_0.1 <= t.len(),
    decreases t.len() - pos, 0int,
{
    if 0 <= pos < t.len() {
        if t[pos] is OpenParen {
            lemma_items_advance(t, pos + 1);
        } else if t[pos] is Quote {
            lemma_parse_advances(t, pos + 1);
        }
    }
}

pub proof fn lemma_items_advance(t: Seq<TokenV>, pos: int)
    ensures
        parse_items(t, pos) is Ok ==> pos < parse_items(t, pos)->Ok_0.1 <= t.len(),
    decreases t.len() - pos, 1int,
{
    if 0 <= pos < t.len() && !(t[pos] is CloseParen) {
        lemma_parse_advances(t, pos);
        if let Ok((e, j)) = parse_at(t, pos) {
            if pos < j <= t.len() {
                lemma_items_advance(t, j);
            }
        }
    }
}

fn parse_from(tokens: &Vec<Token>, pos: usize) -> (r: Result<(Sexp, usize), ParseError>)
    requires
        pos <= tokens.len(),
    ensures
        match parse_at(tokens_view(tokens@), pos as int) {
            Ok((e, end)) => r is Ok && r->Ok_0.0@ == e && r->Ok_0.1 == end,
            Err(err) => r == Err::<(Sexp, usize), ParseError>(err),
        },
    decreases tokens.len() - pos,
{
    let ghost t = tokens_view(tokens@);
    if pos >= tokens.len() {
        return Err(ParseError::UnexpectedTermination);
    }
    assert(t[pos as int] == tokens@[pos as int]@);
    match &tokens[pos] {
        Token::OpenParen => {
            let mut items: Vec<Sexp> = Vec::new();
            let mut k: usize = pos + 1;
            assert(items_prefixed(sexps_view(items@), parse_items(t, k as int)) == parse_items(t, k as int)) by {
                if let Ok((rest, end)) = parse_items(t, k as int) {
                    assert(sexps_view(items@) + rest =~= rest);
                }
            }
            loop
                invariant
                    pos < k <= tokens.len(),
                    pos < tokens.len(),
                    t == tokens_view(tokens@),
                    t[pos as int] is OpenParen,
                    parse_items(t, pos + 1) == items_prefixed(sexps_view(items@), parse_items(t, k as int)),
                decreases tokens.len() - k,
            {
                if k >= tokens.len() {
                    return Err(ParseError::UnexpectedTermination);
                }
                assert(t[k as int] == tokens@[k as int]@);
                if let Token::CloseParen = &tokens[k] {
                    proof {
                        lemma_list_view(items);
                        assert(sexps_view(items@) + Seq::<SexpV>::empty() =~= sexps_view(items@));
                    }
                    return Ok((Sexp::List(items), k + 1));
                }
                proof {
                    lemma_parse_advances(t, k as int);
                }
                match parse_from(tokens, k) {
                    Err(e) => {
                        return Err(e);
                    },
                    Ok((e, j)) => {
                        let ghost before = items@;
                        items.push(e);
                        proof {
                            assert(sexps_view(items@) =~= sexps_view(before).push(e@));
                            if let Ok((rest, end)) = parse_items(t, j as int) {
                                assert(sexps_view(before) + (seq![e@] + rest) =~= sexps_view(items@) + rest);
                            }
                        }
                        k = j;
                    },
                }
            }
        },
        Token::Quote => {
            match parse_from(tokens, pos + 1) {
                Ok((e, end)) => {
                    let q = Sexp::symb_str("quote");
                    let mut v: Vec<Sexp> = Vec::new();
                    v.push(q);
                    v.push(e);
                    proof {
                        lemma_list_view(v);
                        assert(sexps_view(v@) =~= seq![SexpV::Symbol("quote"@), e@]);
                    }
                    Ok((Sexp::List(v), end))
                },
                Err(e) => Err(e),
            }
        },
        Token::Number(n) => Ok((Sexp::Integer(*n), pos + 1)),
        Token::Name(s) => Ok((Sexp::Symbol(s.clone()), pos + 1)),
        Token::Str(s) => Ok((Sexp::Str(s.clone()), pos + 1)),
        Token::Bool(b) => Ok((Sexp::Boolean(*b), pos + 1)),
        Token::CloseParen => Err(ParseError::UnexpectedToken(Token::CloseParen)),
    }
}

/// Parses the expression that starts at `*pos` and moves `*pos` past it.
/// Tokens after the expression are left for the caller.
pub fn parse(tokens: &Vec<Token>, pos: &mut usize) -> (r: Result<Sexp, ParseError>)
    requires
        *old(pos) <= tokens.len(),
    ensures
        match parse_at(tokens_view(tokens@), *old(pos) as int) {
            Ok((e, end)) => r is Ok && r->Ok_0@ == e && *final(pos) == end,
            Err(err) => r == Err::<Sexp, ParseError>(err) && *final(pos) == *old(pos),
        },
{
    match parse_from(tokens, *pos) {
        Ok((e, end)) => {
            *pos = end;
            Ok(e)
        },
        Err(err) => Err(err),
    }
}

/// Whether an expression can be written as tokens: it holds no `Null` and no byte array.
pub open spec fn printable(e: SexpV) -> bool
    decreases e,
{
    match e {
        SexpV::Null | SexpV::ByteArray(_) => false,
        SexpV::List(items) => forall|i: int| 0 <= i < items.len() ==> printable(#[trigger] items[i]),
        _ => true,
    }
}

/// The tokens that spell an expression.
pub open spec fn sexp_tokens(e: SexpV) -> Seq<TokenV>
    decreases e, 1int,
{
    match e {
        SexpV::Integer(n) => seq![TokenV::Number(n)],
        SexpV::Str(s) => seq![TokenV::Str(s)],
        SexpV::Boolean(b) => seq![TokenV::Bool(b)],
        SexpV::Symbol(s) => seq![TokenV::Name(s)],
        SexpV::List(items) => seq![TokenV::OpenParen] + items_tokens(items) + seq![TokenV::CloseParen],
        _ => Seq::empty(),
    }
}

/// The tokens that spell a sequence of expressions, one after another.
pub open spec fn items_tokens(items: Seq<SexpV>) -> Seq<TokenV>
    decreases items, 0int,
{
    if items.len() == 0 {
        Seq::empty()
    } else {
        sexp_tokens(items[0]) + items_tokens(items.subrange(1, items.len() as int))
    }
}

proof fn lemma_tokens_shape(e: SexpV)
    requires
        printable(e),
    ensures
        sexp_tokens(e).len() >= 1,
        !(sexp_tokens(e)[0] is CloseParen),
{
}

proof fn lemma_parse_printed(pre: Seq<TokenV>, e: SexpV, rest: Seq<TokenV>)
    requires
        printable(e),
    ensures
        parse_at(pre + sexp_tokens(e) + rest, pre.len() as int) == Ok::<(SexpV, int), ParseError>(
            (e, (pre.len() + sexp_tokens(e).len()) as int),
        ),
    decreases e, 1int,
{
    let t = pre + sexp_tokens(e) + rest;
    assert(t[pre.len() as int] == sexp_tokens(e)[0]);
    if let SexpV::List(items) = e {
        let pre2 = pre + seq![TokenV::OpenParen];
        let rest2 = seq![TokenV::CloseParen] + rest;
        assert(t =~= pre2 + items_tokens(items) + rest2);
        lemma_parse_printed_items(pre2, items, rest2);
    }
}

proof fn lemma_parse_printed_items(pre: Seq<TokenV>, items: Seq<SexpV>, rest: Seq<TokenV>)
    requires
        forall|i: int| 0 <= i < items.len() ==> printable(#[trigger] items[i]),
        rest.len() >= 1,
        rest[0] is CloseParen,
    ensures
        parse_items(pre + items_tokens(items) + rest, pre.len() as int) == Ok::<(Seq<SexpV>, int), ParseError>(
            (items, (pre.len() + items_tokens(items).len() + 1) as int),
        ),
    decreases items, 0int,
{
    let t = pre + items_tokens(items) + rest;
    if items.len() == 0 {
        assert(t[pre.len() as int] == rest[0]);
        assert(items =~= Seq::<SexpV>::empty());
    } else {
        let e = items[0];
        let tail = items.subrange(1, items.len() as int);
        let rest1 = items_tokens(tail) + rest;
        assert(t =~= pre + sexp_tokens(e) + rest1);
        lemma_tokens_shape(e);
        assert(t[pre.len() as int] == sexp_tokens(e)[0]);
        lemma_parse_printed(pre, e, rest1);
        let pre2 = pre + sexp_tokens(e);
        assert(t =~= pre2 + items_tokens(tail) + rest);
        lemma_parse_printed_items(pre2, tail, rest);
        assert(seq![e] + tail =~= items);
    }
}

pub proof fn lemma_parsed_printable(t: Seq<TokenV>, pos: int)
    ensures
        parse_at(t, pos) is Ok ==> printable(parse_at(t, pos)->Ok_0.0),
    decreases t.len() - pos, 0int,
{
    if 0 <= pos < t.len() {
        if t[pos] is OpenParen {
            lemma_parsed_items_printable(t, pos + 1);
        } else if t[pos] is Quote {
            lemma_parsed_printable(t, pos + 1);
            if let Ok((e, end)) = parse_at(t, pos + 1) {
                let items = seq![SexpV::Symbol("quote"@), e];
                assert(forall|i: int| 0 <= i < items.len() ==> printable(#[trigger] items[i]));
            }
        }
    }
}

proof fn lemma_parsed_items_printable(t: Seq<TokenV>, pos: int)
    ensures
        parse_items(t, pos) is Ok ==> forall|i: int|
            0 <= i < parse_items(t, pos)->Ok_0.0.len() ==> printable(
                #[trigger] parse_items(t, pos)->Ok_0.0[i],
            ),
    decreases t.len() - pos, 1int,
{
    if 0 <= pos < t.len() && !(t[pos] is CloseParen) {
        lemma_parsed_printable(t, pos);
        if let Ok((e, j)) = parse_at(t, pos) {
            if pos < j <= t.len() {
                lemma_parsed_items_printable(t, j);
                if let Ok((rest, end)) = parse_items(t, j) {
                    let items = seq![e] + rest;
                    assert forall|i: int| 0 <= i < items.len() implies printable(#[trigger] items[i]) by {
                        if i > 0 {
                            assert(items[i] == rest[i - 1]);
                        }
                    }
                }
            }
        }
    }
}

/// Round trip: an expression parsed out of any tokens, written back as tokens,
/// parses again to the same expression and uses up exactly those tokens.
pub proof fn lemma_reparse(t: Seq<TokenV>, pos: int)
    requires
        parse_at(t, pos) is Ok,
    ensures
        parse_at(sexp_tokens(parse_at(t, pos)->Ok_0.0), 0) == Ok::<(SexpV, int), ParseError>(
            (parse_at(t, pos)->Ok_0.0, sexp_tokens(parse_at(t, pos)->Ok_0.0).len() as int),
        ),
{
    let e = parse_at(t, pos)->Ok_0.0;
    lemma_parsed_printable(t, pos);
    lemma_parse_printed(Seq::empty(), e, Seq::empty());
    assert(Seq::<TokenV>::empty() + sexp_tokens(e) + Seq::<TokenV>::empty() =~= sexp_tokens(e));
}

proof fn lemma_items_tokens_push(items: Seq<SexpV>, x: SexpV)
    ensures
        items_tokens(items.push(x)) == items_tokens(items) + sexp_tokens(x),
    decreases items.len(),
{
    let p = items.push(x);
    if items.len() == 0 {
        assert(p.subrange(1, p.len() as int) =~= Seq::<SexpV>::empty());
        assert(items_tokens(p.subrange(1, p.len() as int)) == Seq::<TokenV>::empty());
        assert(items_tokens(items) == Seq::<TokenV>::empty());
        assert(items_tokens(p) =~= items_tokens(items) + sexp_tokens(x));
    } else {
        let tail = items.subrange(1, items.len() as int);
        assert(p.subrange(1, p.len() as int) =~= tail.push(x));
        lemma_items_tokens_push(tail, x);
        assert(items_tokens(p) =~= items_tokens(items) + sexp_tokens(x));
    }
}

proof fn lemma_printable_list(items: Seq<SexpV>, i: int)
    requires
        0 <= i < items.len(),
        !printable(items[i]),
    ensures
        !printable(SexpV::List(items)),
{
    let e = SexpV::List(items);
    assert(decreases_to!(e => e->List_0));
    assert(decreases_to!(items => items[i]));
    assert(!printable(e->List_0[i]));
}

fn write_tokens(e: &Sexp, out: &mut Vec<Token>) -> (ok: bool)
    ensures
        ok == printable(e@),
        ok ==> tokens_view(final(out)@) == tokens_view(old(out)@) + sexp_tokens(e@),
    decreases e,
{
    let ghost start = tokens_view(out@);
    match e {
        Sexp::Null => false,
        Sexp::ByteArray(_) => false,
        Sexp::Integer(n) => {
            out.push(Token::Number(*n));
            assert(tokens_view(out@) =~= start + sexp_tokens(e@));
            true
        },
        Sexp::Str(s) => {
            out.push(Token::Str(s.clone()));
            assert(tokens_view(out@) =~= start + sexp_tokens(e@));
            true
        },
        Sexp::Boolean(b) => {
            out.push(Token::Bool(*b));
            assert(tokens_view(out@) =~= start + sexp_tokens(e@));
            true
        },
        Sexp::Symbol(s) => {
            out.push(Token::Name(s.clone()));
            assert(tokens_view(out@) =~= start + sexp_tokens(e@));
            true
        },
        Sexp::List(v) => {
            proof {
                lemma_list_view(*v);
            }
            let ghost items = sexps_view(v@);
            out.push(Token::OpenParen);
            assert(tokens_view(out@) =~= start + seq![TokenV::OpenParen] + items_tokens(items.take(0)));
            for i in 0..v.len()
                invariant
                    *e == Sexp::List(*v),
                    items == sexps_view(v@),
                    e@ == SexpV::List(items),
                    forall|j: int| 0 <= j < i ==> printable(#[trigger] items[j]),
                    tokens_view(out@) == start + seq![TokenV::OpenParen] + items_tokens(items.take(i as int)),
            {
                proof {
                    assert(decreases_to!(*e => (*e)->List_0));
                    assert(decreases_to!(*v => v@));
                    assert(decreases_to!(v@ => v@[i as int]));
                }
                let ghost before = tokens_view(out@);
                if !write_tokens(&v[i], out) {
                    proof {
                        assert(0 <= i < items.len());
                        assert(!printable(items[i as int]));
                        lemma_printable_list(items, i as int);
                    }
                    return false;
                }
                proof {
                    assert(items.take(i + 1) =~= items.take(i as int).push(items[i as int]));
                    lemma_items_tokens_push(items.take(i as int), items[i as int]);
                    assert(tokens_view(out@) =~= start + seq![TokenV::OpenParen] + items_tokens(items.take(i + 1)));
                }
            }
            let ghost mid = tokens_view(out@);
            out.push(Token::CloseParen);
            assert(items.take(v.len() as int) =~= items);
            assert(tokens_view(out@) =~= mid.push(TokenV::CloseParen));
            assert(tokens_view(out@) =~= start + sexp_tokens(e@));
            true
        },
    }
}

/// Writes an expression back as the tokens that spell it; `None` where it holds
/// a `Null` or a byte array, which have no spelling.
pub fn to_tokens(e: &Sexp) -> (r: Option<Vec<Token>>)
    ensures
        r is Some <==> printable(e@),
        r is Some ==> tokens_view(r->Some_0@) == sexp_tokens(e@),
{
    let mut out: Vec<Token> = Vec::new();
    if write_tokens(e, &mut out) {
        assert(tokens_view(out@) =~= Seq::<TokenV>::empty() + sexp_tokens(e@));
        Some(out)
    } else {
        None
    }
}

} // verus!

//! Writes tokens back as source text that lexes to the same tokens.
use vstd::prelude::*;
use crate::lexer::{
    Token, tokens_view, TokenV, LexError, is_digit, digit_value, digits_value, is_name_start, is_name_char_spec, is_space,
    run_end, string_body, step_at, lex_from, lex_spec, escaped,
};
use crate::semantics::{decimal, digit_char};
use crate::sexp::SexpV;
use crate::eval::push_decimal;
use crate::sexp::Sexp;
use crate::text::chars_of;
use vstd::string::StringExecFns;
use crate::parser::{to_tokens, parse_at, parse_items, printable, sexp_tokens, items_tokens, lemma_reparse};

verus! {

/// How a character is written inside a string literal.
pub open spec fn escape_char(c: char) -> Seq<char> {
    if c == '\n' {
        seq!['\\', 'n']
    } else if c == '\r' {
        seq!['\\', 'r']
    } else if c == '\\' {
        seq!['\\', '\\']
    } else if c == '"' {
        seq!['\\', '"']
    } else {
        seq![c]
    }
}

/// The body of a string literal that stands for `s`.
pub open spec fn escape(s: Seq<char>) -> Seq<char>
    decreases s.len(),
{
    if s.len() == 0 {
        Seq::empty()
    } else {
        escape_char(s[0]) + escape(s.subrange(1, s.len() as int))
    }
}

/// The text of one token.
pub open spec fn token_text(t: TokenV) -> Seq<char> {
    match t {
        TokenV::Name(s) => s,
        TokenV::Str(s) => seq!['"'] + escape(s) + seq!['"'],
        TokenV::Number(n) => if n < 0 {
            seq!['-'] + decimal((-(n as int)) as nat)
        } else {
            decimal(n as nat)
        },
        TokenV::Bool(b) => if b {
            seq!['#', 't']
        } else {
            seq!['#', 'f']
        },
        TokenV::Quote => seq!['\''],
        TokenV::OpenParen => seq!['('],
        TokenV::CloseParen => seq![')'],
    }
}

/// The text of a token sequence: each token followed by a space.
pub open spec fn tokens_text(ts: Seq<TokenV>) -> Seq<char>
    decreases ts.len(),
{
    if ts.len() == 0 {
        Seq::empty()
    } else {
        token_text(ts[0]) + seq![' '] + tokens_text(ts.subrange(1, ts.len() as int))
    }
}

/// Whether `s` can be read back as a name.
pub open spec fn valid_name(s: Seq<char>) -> bool {
    s == seq!['-'] || (s.len() >= 1 && is_name_start(s[0]) && forall|i: int|
        1 <= i < s.len() ==> is_name_char_spec(#[trigger] s[i], false))
}

/// Whether a token's text lexes back to it.
pub open spec fn lexable(t: TokenV) -> bool {
    t is Name ==> valid_name(t->Name_0)
}

proof fn lemma_digit_char(d: nat)
    requires
        d < 10,
    ensures
        is_digit(digit_char(d)),
        digit_value(digit_char(d)) == d,
{
}

proof fn lemma_decimal(n: nat)
    ensures
        decimal(n).len() >= 1,
        forall|i: int| 0 <= i < decimal(n).len() ==> is_digit(#[trigger] decimal(n)[i]),
        digits_value(decimal(n)) == n,
    decreases n,
{
    if n < 10 {
        lemma_digit_char(n);
        assert(decimal(n).drop_last() =~= Seq::<char>::empty());
        assert(digits_value(decimal(n)) == digits_value(Seq::<char>::empty()) * 10 + digit_value(digit_char(n)));
    } else {
        lemma_decimal(n / 10);
        lemma_digit_char(n % 10);
        assert(decimal(n).drop_last() =~= decimal(n / 10));
        assert(decimal(n).last() == digit_char(n % 10));
        assert(n == (n / 10) * 10 + n % 10) by (nonlinear_arith);
        assert(digits_value(decimal(n)) == digits_value(decimal(n / 10)) * 10 + digit_value(digit_char(n % 10)));
    }
}

/// A run of characters with a property, followed by one without it, ends there.
proof fn lemma_run_end_at(s: Seq<char>, k: int, end: int, name: bool)
    requires
        0 <= k <= end < s.len(),
        forall|j: int| k <= j < end ==> (if name { is_name_char_spec(s[j], false) } else { is_digit(s[j]) }),
        !(if name { is_name_char_spec(s[end], false) } else { is_digit(s[end]) }),
    ensures
        run_end(s, k, name) == end,
    decreases end - k,
{
    if k < end {
        lemma_run_end_at(s, k + 1, end, name);
    }
}

/// Where the text of a token stands at `i`, followed by a space, lexing reads that token.
proof fn lemma_step_token(s: Seq<char>, i: int, t: TokenV)
    requires
        lexable(t),
        0 <= i,
        i + token_text(t).len() < s.len(),
        s.subrange(i, i + token_text(t).len()) == token_text(t),
        s[i + token_text(t).len()] == ' ',
    ensures
        step_at(s, i) == Ok::<(Option<TokenV>, int), LexError>((Some(t), i + token_text(t).len())),
{
    let tt = token_text(t);
    let end = i + tt.len();
    assert(forall|j: int| 0 <= j < tt.len() ==> s[i + j] == #[trigger] tt[j]) by {
        assert forall|j: int| 0 <= j < tt.len() implies s[i + j] == #[trigger] tt[j] by {
            assert(s.subrange(i, end)[j] == s[i + j]);
        }
    }
    match t {
        TokenV::Number(n) => {
            let neg = n < 0;
            let m: nat = if neg { (-(n as int)) as nat } else { n as nat };
            lemma_decimal(m);
            let start = if neg { i + 1 } else { i };
            assert(forall|j: int| start <= j < end ==> is_digit(s[j])) by {
                assert forall|j: int| start <= j < end implies is_digit(s[j]) by {
                    if neg {
                        assert(tt[j - i] == decimal(m)[j - i - 1]);
                    }
                    assert(s[i + (j - i)] == tt[j - i]);
                }
            }
            assert(s[i] == tt[0]);
            if neg {
                assert(s[i + 1] == tt[1]);
                assert(tt[1] == decimal(m)[0]);
            }
            lemma_run_end_at(s, start, end, false);
            assert forall|j: int| 0 <= j < decimal(m).len() implies s.subrange(start, end)[j] == decimal(m)[j] by {
                if neg {
                    assert(tt[1 + j] == decimal(m)[j]);
                    assert(s[i + (1 + j)] == tt[1 + j]);
                } else {
                    assert(s[i + j] == tt[j]);
                }
            }
            assert(s.subrange(start, end) =~= decimal(m));
        },
        TokenV::Name(nm) => {
            assert(s[i] == tt[0]);
            if nm == seq!['-'] {
                assert(!is_digit(s[i + 1]));
            } else {
                assert(forall|j: int| i + 1 <= j < end ==> is_name_char_spec(s[j], false)) by {
                    assert forall|j: int| i + 1 <= j < end implies is_name_char_spec(s[j], false) by {
                        assert(s[i + (j - i)] == tt[j - i]);
                    }
                }
                lemma_run_end_at(s, i + 1, end, true);
                assert(s.subrange(i, end) =~= nm);
            }
        },
        TokenV::Str(body) => {
            assert(s[i] == tt[0]);
            let eb = escape(body);
            assert forall|j: int| 0 <= j < eb.len() implies s.subrange(i + 1, i + 1 + eb.len())[j] == eb[j] by {
                assert(tt[1 + j] == eb[j]);
                assert(s[i + (1 + j)] == tt[1 + j]);
            }
            assert(s.subrange(i + 1, i + 1 + eb.len()) =~= eb);
            assert(tt[tt.len() - 1] == '"');
            assert(s[i + (tt.len() - 1)] == tt[tt.len() - 1]);
            lemma_string_scan(s, i + 1, body);
        },
        TokenV::Bool(b) => {
            assert(s[i] == tt[0]);
            assert(s[i + 1] == tt[1]);
        },
        _ => {
            assert(s[i] == tt[0]);
        },
    }
}

/// The escaped body of `body` followed by a closing quote scans back to `body`.
proof fn lemma_string_scan(s: Seq<char>, k: int, body: Seq<char>)
    requires
        0 <= k,
        k + escape(body).len() < s.len(),
        s.subrange(k, k + escape(body).len()) == escape(body),
        s[k + escape(body).len()] == '"',
    ensures
        string_body(s, k) == Ok::<(Seq<char>, int), LexError>((body, k + escape(body).len() + 1)),
    decreases body.len(),
{
    let eb = escape(body);
    if body.len() == 0 {
        assert(eb.len() == 0);
        assert(body =~= Seq::<char>::empty());
    } else {
        let c = body[0];
        let ec = escape_char(c);
        let tail = body.subrange(1, body.len() as int);
        assert(eb == ec + escape(tail));
        assert forall|j: int| 0 <= j < eb.len() implies s[k + j] == #[trigger] eb[j] by {
            assert(s.subrange(k, k + eb.len())[j] == s[k + j]);
        }
        assert(s[k] == eb[0]);
        assert(s[k + 0] == eb[0]);
        let k2 = k + ec.len();
        assert(s.subrange(k2, k2 + escape(tail).len()) =~= escape(tail)) by {
            assert forall|j: int| 0 <= j < escape(tail).len() implies s.subrange(k2, k2 + escape(tail).len())[j]
                == escape(tail)[j] by {
                assert(s[k + (ec.len() + j)] == s.subrange(k, k + eb.len())[ec.len() + j]);
            }
        }
        if ec.len() == 2 {
            assert(s[k + 1] == eb[1]);
        }
        lemma_string_scan(s, k2, tail);
        assert(seq![c] + tail =~= body);
        if c == '\n' {
            assert(s[k] == '\\' && s[k + 1] == 'n');
            assert(escaped(s[k + 1]) == Some('\n'));
        } else if c == '\r' {
            assert(s[k] == '\\' && s[k + 1] == 'r');
        } else if c == '\\' {
            assert(s[k] == '\\' && s[k + 1] == '\\');
        } else if c == '"' {
            assert(s[k] == '\\' && s[k + 1] == '"');
        } else {
            assert(s[k] == c);
            assert(ec.len() == 1);
        }
        assert(string_body(s, k2) == Ok::<(Seq<char>, int), LexError>((tail, k + eb.len() + 1)));
    }
}

proof fn lemma_token_text_nonempty(t: TokenV)
    requires
        lexable(t),
    ensures
        token_text(t).len() >= 1,
{
    if let TokenV::Number(n) = t {
        lemma_decimal(if n < 0 { (-(n as int)) as nat } else { n as nat });
    }
}

/// Text made of token texts, each followed by a space, lexes back to the tokens.
proof fn lemma_lex_text(s: Seq<char>, i: int, ts: Seq<TokenV>)
    requires
        0 <= i <= s.len(),
        s.subrange(i, s.len() as int) == tokens_text(ts),
        forall|k: int| 0 <= k < ts.len() ==> lexable(#[trigger] ts[k]),
    ensures
        lex_from(s, i) == Ok::<Seq<TokenV>, LexError>(ts),
    decreases ts.len(),
{
    if ts.len() == 0 {
        assert(s.subrange(i, s.len() as int).len() == 0);
        assert(ts =~= Seq::<TokenV>::empty());
    } else {
        let t = ts[0];
        let tt = token_text(t);
        let tail = ts.subrange(1, ts.len() as int);
        let j = i + tt.len();
        let rest = s.subrange(i, s.len() as int);
        assert(rest == tt + seq![' '] + tokens_text(tail));
        assert(lexable(ts[0]));
        lemma_token_text_nonempty(t);
        assert(s.subrange(i, j) =~= tt) by {
            assert forall|k: int| 0 <= k < tt.len() implies s.subrange(i, j)[k] == tt[k] by {
                assert(rest[k] == s[i + k]);
            }
        }
        assert(rest[tt.len() as int] == ' ');
        assert(s[j] == ' ');
        lemma_step_token(s, i, t);
        assert(s.subrange(j + 1, s.len() as int) =~= tokens_text(tail)) by {
            assert forall|k: int| 0 <= k < tokens_text(tail).len() implies s.subrange(j + 1, s.len() as int)[k]
                == tokens_text(tail)[k] by {
                assert(rest[tt.len() + 1 + k] == s[j + 1 + k]);
            }
        }
        assert forall|k: int| 0 <= k < tail.len() implies lexable(#[trigger] tail[k]) by {
            assert(tail[k] == ts[k + 1]);
        }
        lemma_lex_text(s, j + 1, tail);
        assert(is_space(s[j]));
        assert(step_at(s, j) == Ok::<(Option<TokenV>, int), LexError>((None, j + 1)));
        assert(lex_from(s, j) == Ok::<Seq<TokenV>, LexError>(tail));
        assert(i < j < s.len());
        assert(lex_from(s, i) == Ok::<Seq<TokenV>, LexError>(seq![t] + tail));
        assert(seq![t] + tail =~= ts);
    }
}

/// Lexing the text of lexable tokens gives those tokens back.
pub proof fn lemma_lex_tokens_text(ts: Seq<TokenV>)
    requires
        forall|k: int| 0 <= k < ts.len() ==> lexable(#[trigger] ts[k]),
    ensures
        lex_spec(tokens_text(ts)) == Ok::<Seq<TokenV>, LexError>(ts),
{
    let s = tokens_text(ts);
    assert(s.subrange(0, s.len() as int) =~= s);
    lemma_lex_text(s, 0, ts);
}

/// Characters between `k` and the end of their run have the run's property.
proof fn lemma_run_chars(s: Seq<char>, k: int, name: bool)
    requires
        0 <= k,
    ensures
        forall|j: int| k <= j < run_end(s, k, name) ==> (if name { is_name_char_spec(s[j], false) } else { is_digit(s[j]) }),
    decreases s.len() - k,
{
    if 0 <= k < s.len() && (if name { is_name_char_spec(s[k], false) } else { is_digit(s[k]) }) {
        lemma_run_chars(s, k + 1, name);
    }
}

/// Every token that lexing yields is lexable.
pub proof fn lemma_lexed_lexable(s: Seq<char>, i: int)
    ensures
        lex_from(s, i) is Ok ==> forall|k: int|
            0 <= k < lex_from(s, i)->Ok_0.len() ==> lexable(#[trigger] lex_from(s, i)->Ok_0[k]),
    decreases s.len() - i,
{
    if 0 <= i < s.len() {
        if let Ok((t, j)) = step_at(s, i) {
            if i < j <= s.len() {
                lemma_lexed_lexable(s, j);
                if let Some(tok) = t {
                    if is_name_start(s[i]) && !(s[i] == '-' || is_digit(s[i])) {
                        lemma_run_chars(s, i + 1, true);
                        let nm = s.subrange(i, j);
                        assert forall|q: int| 1 <= q < nm.len() implies is_name_char_spec(#[trigger] nm[q], false) by {
                            assert(nm[q] == s[i + q]);
                        }
                    }
                    assert(lexable(tok));
                    if let Ok(rest) = lex_from(s, j) {
                        let all = seq![tok] + rest;
                        assert forall|k: int| 0 <= k < all.len() implies lexable(#[trigger] all[k]) by {
                            if k > 0 {
                                assert(all[k] == rest[k - 1]);
                            }
                        }
                    }
                }
            }
        }
    }
}

/// Whether every symbol in an expression can be written as a name.
pub open spec fn names_valid(e: SexpV) -> bool
    decreases e,
{
    match e {
        SexpV::Symbol(s) => valid_name(s),
        SexpV::List(items) => forall|i: int| 0 <= i < items.len() ==> names_valid(#[trigger] items[i]),
        _ => true,
    }
}

proof fn lemma_names_valid_list(items: Seq<SexpV>)
    ensures
        names_valid(SexpV::List(items)) <==> forall|i: int| 0 <= i < items.len() ==> names_valid(#[trigger] items[i]),
{
    let e = SexpV::List(items);
    assert(decreases_to!(e => e->List_0));
    assert forall|i: int| 0 <= i < items.len() implies names_valid(#[trigger] items[i]) == names_valid(e->List_0[i]) by {
    }
}

proof fn lemma_printable_list(items: Seq<SexpV>)
    ensures
        printable(SexpV::List(items)) <==> forall|i: int| 0 <= i < items.len() ==> printable(#[trigger] items[i]),
{
    let e = SexpV::List(items);
    assert(decreases_to!(e => e->List_0));
    assert forall|i: int| 0 <= i < items.len() implies printable(#[trigger] items[i]) == printable(e->List_0[i]) by {
    }
}

proof fn lemma_parsed_names(t: Seq<TokenV>, pos: int)
    requires
        forall|k: int| 0 <= k < t.len() ==> lexable(#[trigger] t[k]),
    ensures
        parse_at(t, pos) is Ok ==> names_valid(parse_at(t, pos)->Ok_0.0),
    decreases t.len() - pos, 0int,
{
    if 0 <= pos < t.len() {
        assert(lexable(t[pos]));
        if t[pos] is OpenParen {
            lemma_parsed_items_names(t, pos + 1);
            if let Ok((items, end)) = parse_items(t, pos + 1) {
                lemma_names_valid_list(items);
            }
        } else if t[pos] is Quote {
            lemma_parsed_names(t, pos + 1);
            if let Ok((e, end)) = parse_at(t, pos + 1) {
                reveal_strlit("quote");
                let items = seq![SexpV::Symbol("quote"@), e];
                assert(valid_name("quote"@));
                assert(forall|i: int| 0 <= i < items.len() ==> names_valid(#[trigger] items[i]));
                lemma_names_valid_list(items);
            }
        }
    }
}

proof fn lemma_parsed_items_names(t: Seq<TokenV>, pos: int)
    requires
        forall|k: int| 0 <= k < t.len() ==> lexable(#[trigger] t[k]),
    ensures
        parse_items(t, pos) is Ok ==> forall|i: int|
            0 <= i < parse_items(t, pos)->Ok_0.0.len() ==> names_valid(#[trigger] parse_items(t, pos)->Ok_0.0[i]),
    decreases t.len() - pos, 1int,
{
    if 0 <= pos < t.len() && !(t[pos] is CloseParen) {
        lemma_parsed_names(t, pos);
        if let Ok((e, j)) = parse_at(t, pos) {
            if pos < j <= t.len() {
                lemma_parsed_items_names(t, j);
                if let Ok((rest, end)) = parse_items(t, j) {
                    let items = seq![e] + rest;
                    assert forall|i: int| 0 <= i < items.len() implies names_valid(#[trigger] items[i]) by {
                        if i > 0 {
                            assert(items[i] == rest[i - 1]);
                        }
                    }
                }
            }
        }
    }
}

proof fn lemma_sexp_tokens_lexable(e: SexpV)
    requires
        printable(e),
        names_valid(e),
    ensures
        forall|k: int| 0 <= k < sexp_tokens(e).len() ==> lexable(#[trigger] sexp_tokens(e)[k]),
    decreases e, 1int,
{
    if let SexpV::List(items) = e {
        lemma_printable_list(items);
        lemma_names_valid_list(items);
        lemma_items_tokens_lexable(items);
        let ts = sexp_tokens(e);
        let inner = items_tokens(items);
        assert forall|k: int| 0 <= k < ts.len() implies lexable(#[trigger] ts[k]) by {
            if 1 <= k < 1 + inner.len() {
                assert(ts[k] == inner[k - 1]);
            }
        }
    }
}

proof fn lemma_items_tokens_lexable(items: Seq<SexpV>)
    requires
        forall|i: int| 0 <= i < items.len() ==> printable(#[trigger] items[i]),
        forall|i: int| 0 <= i < items.len() ==> names_valid(#[trigger] items[i]),
    ensures
        forall|k: int| 0 <= k < items_tokens(items).len() ==> lexable(#[trigger] items_tokens(items)[k]),
    decreases items, 0int,
{
    if items.len() > 0 {
        let tail = items.subrange(1, items.len() as int);
        assert(printable(items[0]) && names_valid(items[0]));
        lemma_sexp_tokens_lexable(items[0]);
        assert forall|i: int| 0 <= i < tail.len() implies printable(#[trigger] tail[i]) && names_valid(tail[i]) by {
            assert(tail[i] == items[i + 1]);
        }
        lemma_items_tokens_lexable(tail);
        let a = sexp_tokens(items[0]);
        let b = items_tokens(tail);
        assert forall|k: int| 0 <= k < (a + b).len() implies lexable(#[trigger] (a + b)[k]) by {
            if k >= a.len() {
                assert((a + b)[k] == b[k - a.len()]);
            }
        }
    }
}

/// Round trip through text: an expression read from source text, written back as
/// text, lexes to the tokens that spell it, and those parse to the same expression.
pub proof fn lemma_text_round_trip(src: Seq<char>, pos: int)
    requires
        lex_spec(src) is Ok,
        parse_at(lex_spec(src)->Ok_0, pos) is Ok,
    ensures
        ({
            let e = parse_at(lex_spec(src)->Ok_0, pos)->Ok_0.0;
            &&& lex_spec(tokens_text(sexp_tokens(e))) == Ok::<Seq<TokenV>, LexError>(sexp_tokens(e))
            &&& parse_at(sexp_tokens(e), 0) == Ok::<(SexpV, int), crate::parser::ParseError>(
                (e, sexp_tokens(e).len() as int),
            )
        }),
{
    let t = lex_spec(src)->Ok_0;
    let e = parse_at(t, pos)->Ok_0.0;
    lemma_lexed_lexable(src, 0);
    lemma_parsed_names(t, pos);
    crate::parser::lemma_parsed_printable(t, pos);
    lemma_sexp_tokens_lexable(e);
    lemma_lex_tokens_text(sexp_tokens(e));
    lemma_reparse(t, pos);
}

proof fn lemma_escape_push(s: Seq<char>, c: char)
    ensures
        escape(s.push(c)) == escape(s) + escape_char(c),
    decreases s.len(),
{
    let p = s.push(c);
    if s.len() == 0 {
        assert(p.subrange(1, p.len() as int) =~= Seq::<char>::empty());
        assert(escape(p.subrange(1, p.len() as int)) == Seq::<char>::empty());
        assert(escape(s) == Seq::<char>::empty());
        assert(escape(p) =~= escape(s) + escape_char(c));
    } else {
        let tail = s.subrange(1, s.len() as int);
        assert(p.subrange(1, p.len() as int) =~= tail.push(c));
        lemma_escape_push(tail, c);
        assert(escape(p) =~= escape(s) + escape_char(c));
    }
}

proof fn lemma_tokens_text_push(ts: Seq<TokenV>, t: TokenV)
    ensures
        tokens_text(ts.push(t)) == tokens_text(ts) + token_text(t) + seq![' '],
    decreases ts.len(),
{
    let p = ts.push(t);
    if ts.len() == 0 {
        assert(p.subrange(1, p.len() as int) =~= Seq::<TokenV>::empty());
        assert(tokens_text(p.subrange(1, p.len() as int)) == Seq::<char>::empty());
        assert(tokens_text(ts) == Seq::<char>::empty());
        assert(tokens_text(p) =~= tokens_text(ts) + token_text(t) + seq![' ']);
    } else {
        let tail = ts.subrange(1, ts.len() as int);
        assert(p.subrange(1, p.len() as int) =~= tail.push(t));
        lemma_tokens_text_push(tail, t);
        assert(tokens_text(p) =~= tokens_text(ts) + token_text(t) + seq![' ']);
    }
}

/// Appends the text of a string literal that stands for `s`.
fn write_string_literal(out: &mut String, s: &String)
    ensures
        final(out)@ == old(out)@ + seq!['"'] + escape(s@) + seq!['"'],
{
    let cs = chars_of(s.as_str());
    out.push('"');
    let ghost start = out@;
    assert(escape(cs@.take(0)) == Seq::<char>::empty()) by {
        assert(cs@.take(0) =~= Seq::<char>::empty());
    }
    assert(out@ =~= start + escape(cs@.take(0)));
    for i in 0..cs.len()
        invariant
            out@ == start + escape(cs@.take(i as int)),
    {
        let c = cs[i];
        if c == '\n' {
            out.push('\\');
            out.push('n');
        } else if c == '\r' {
            out.push('\\');
            out.push('r');
        } else if c == '\\' {
            out.push('\\');
            out.push('\\');
        } else if c == '"' {
            out.push('\\');
            out.push('"');
        } else {
            out.push(c);
        }
        proof {
            assert(cs@.take(i + 1) =~= cs@.take(i as int).push(c));
            lemma_escape_push(cs@.take(i as int), c);
            assert(out@ =~= start + escape(cs@.take(i + 1)));
        }
    }
    out.push('"');
    assert(cs@.take(cs.len() as int) =~= s@);
    assert(out@ =~= old(out)@ + seq!['"'] + escape(s@) + seq!['"']);
}

/// Appends the text of one token.
pub fn write_token(out: &mut String, t: &Token)
    ensures
        final(out)@ == old(out)@ + token_text(t@),
{
    match t {
        Token::Name(s) => {
            out.append(s.as_str());
        },
        Token::Str(s) => {
            write_string_literal(out, s);
        },
        Token::Number(n) => {
            if *n < 0 {
                out.push('-');
                let m: u64 = (-(*n as i128)) as u64;
                push_decimal(out, m);
            } else {
                push_decimal(out, *n as u64);
            }
            assert(out@ =~= old(out)@ + token_text(t@));
        },
        Token::Bool(b) => {
            out.push('#');
            out.push(if *b { 't' } else { 'f' });
            assert(out@ =~= old(out)@ + token_text(t@));
        },
        Token::Quote => {
            out.push('\'');
            assert(out@ =~= old(out)@ + token_text(t@));
        },
        Token::OpenParen => {
            out.push('(');
            assert(out@ =~= old(out)@ + token_text(t@));
        },
        Token::CloseParen => {
            out.push(')');
            assert(out@ =~= old(out)@ + token_text(t@));
        },
    }
}

/// Source text for tokens: each token's text followed by a space.
pub fn render(tokens: &Vec<Token>) -> (r: String)
    ensures
        r@ == tokens_text(tokens_view(tokens@)),
{
    let ghost tv = tokens_view(tokens@);
    let mut out = String::new();
    assert(tv.take(0) =~= Seq::<TokenV>::empty());
    for i in 0..tokens.len()
        invariant
            tv == tokens_view(tokens@),
            out@ == tokens_text(tv.take(i as int)),
    {
        write_token(&mut out, &tokens[i]);
        out.push(' ');
        proof {
            assert(tv.take(i + 1) =~= tv.take(i as int).push(tv[i as int]));
            lemma_tokens_text_push(tv.take(i as int), tv[i as int]);
            assert(out@ =~= tokens_text(tv.take(i + 1)));
        }
    }
    assert(tv.take(tokens.len() as int) =~= tv);
    out
}

/// Source text for an expression; `None` where it holds a `Null` or a byte array,
/// which have no spelling.
pub fn to_text(e: &Sexp) -> (r: Option<String>)
    ensures
        r is Some <==> printable(e@),
        r is Some ==> r->Some_0@ == tokens_text(sexp_tokens(e@)),
{
    match to_tokens(e) {
        Some(ts) => Some(render(&ts)),
        None => None,
    }
}

} // verus!

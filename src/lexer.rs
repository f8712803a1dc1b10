//! Turns source text into tokens.
//!
//! Numbers are read with checked accumulation: a literal whose value does not
//! fit in an `i64` is rejected with `LexError::NumberOverflow`.
use vstd::prelude::*;

verus! {

/// A lexical token.
#[derive(Clone, PartialEq, Eq, Debug)]
pub enum Token {
    Name(String),
    Str(String),
    Number(i64),
    Bool(bool),
    Quote,
    OpenParen,
    CloseParen,
}

/// The mathematical value of a token.
pub enum TokenV {
    Name(Seq<char>),
    Str(Seq<char>),
    Number(i64),
    Bool(bool),
    Quote,
    OpenParen,
    CloseParen,
}

impl View for Token {
    type V = TokenV;

    open spec fn view(&self) -> TokenV {
        match self {
            Token::Name(s) => TokenV::Name(s@),
            Token::Str(s) => TokenV::Str(s@),
            Token::Number(n) => TokenV::Number(*n),
            Token::Bool(b) => TokenV::Bool(*b),
            Token::Quote => TokenV::Quote,
            Token::OpenParen => TokenV::OpenParen,
            Token::CloseParen => TokenV::CloseParen,
        }
    }
}

/// Why lexing failed.
#[derive(Clone, Copy, PartialEq, Eq, Debug)]
pub enum LexError {
    UnknownChar(char),
    UnexpectedTermination,
    /// A number literal whose value lies outside the range of `i64`.
    NumberOverflow,
}

/// The views of a token vector.
pub open spec fn tokens_view(v: Seq<Token>) -> Seq<TokenV> {
    v.map_values(|t: Token| t@)
}

pub open spec fn is_digit(c: char) -> bool {
    '0' <= c && c <= '9'
}

pub open spec fn digit_value(c: char) -> int {
    c as int - '0' as int
}

pub open spec fn is_name_start(c: char) -> bool {
    ('a' <= c && c <= 'z') || ('A' <= c && c <= 'Z') || c == '*' || c == '+' || c == '/'
        || c == '=' || c == '_' || c == '$' || c == '%'
}

pub open spec fn is_name_char_spec(c: char, start: bool) -> bool {
    is_name_start(c) || (!start && is_digit(c))
}

pub open spec fn is_space(c: char) -> bool {
    c == ' ' || c == '\n' || c == '\r'
}

/// Characters that may end a name.
pub open spec fn is_delimiter(c: char) -> bool {
    is_space(c) || c == '(' || c == ')'
}

/// The value of a run of decimal digits.
pub open spec fn digits_value(d: Seq<char>) -> int
    decreases d.len(),
{
    if d.len() == 0 {
        0
    } else {
        digits_value(d.drop_last()) * 10 + digit_value(d.last())
    }
}

/// The end of the run that starts at `k` of name characters (`name`) or of digits.
pub open spec fn run_end(s: Seq<char>, k: int, name: bool) -> int
    decreases s.len() - k,
{
    if 0 <= k < s.len() && (if name { is_name_char_spec(s[k], false) } else { is_digit(s[k]) }) {
        run_end(s, k + 1, name)
    } else {
        k
    }
}

/// The number token at `i` (where `s[i]` is a digit or `-`), and the position after it.
pub open spec fn number_at(s: Seq<char>, i: int) -> Result<(TokenV, int), LexError> {
    if s[i] == '-' && !(i + 1 < s.len() && is_digit(s[i + 1])) {
        Ok((TokenV::Name(seq!['-']), i + 1))
    } else {
        let start = if s[i] == '-' { i + 1 } else { i };
        let end = run_end(s, start, false);
        let mag = digits_value(s.subrange(start, end));
        let v = if s[i] == '-' { -mag } else { mag };
        if i64::MIN <= v <= i64::MAX {
            Ok((TokenV::Number(v as i64), end))
        } else {
            Err(LexError::NumberOverflow)
        }
    }
}

/// The name token at `i` (where `s[i]` starts a name), and the position after it.
pub open spec fn name_at(s: Seq<char>, i: int) -> Result<(TokenV, int), LexError> {
    let end = run_end(s, i + 1, true);
    if end < s.len() && !is_delimiter(s[end]) {
        Err(LexError::UnknownChar(s[end]))
    } else {
        Ok((TokenV::Name(s.subrange(i, end)), end))
    }
}

/// What an escape sequence `\c` stands for.
pub open spec fn escaped(c: char) -> Option<char> {
    if c == 'n' {
        Some('\n')
    } else if c == 'r' {
        Some('\r')
    } else if c == '\\' {
        Some('\\')
    } else if c == '"' {
        Some('"')
    } else {
        None
    }
}

/// The contents of a string literal from position `k` up to its closing quote,
/// and the position after that quote.
pub open spec fn string_body(s: Seq<char>, k: int) -> Result<(Seq<char>, int), LexError>
    decreases s.len() - k,
{
    if k < 0 || k >= s.len() {
        Err(LexError::UnexpectedTermination)
    } else if s[k] == '"' {
        Ok((Seq::empty(), k + 1))
    } else if s[k] == '\\' {
        if k + 1 >= s.len() {
            Err(LexError::UnexpectedTermination)
        } else {
            match escaped(s[k + 1]) {
                None => Err(LexError::UnknownChar(s[k + 1])),
                Some(c) => match string_body(s, k + 2) {
                    Ok((rest, end)) => Ok((seq![c] + rest, end)),
                    Err(e) => Err(e),
                },
            }
        }
    } else if s[k] == '\n' || s[k] == '\r' {
        Err(LexError::UnknownChar(s[k]))
    } else {
        match string_body(s, k + 1) {
            Ok((rest, end)) => Ok((seq![s[k]] + rest, end)),
            Err(e) => Err(e),
        }
    }
}

/// The string token at `i` (where `s[i]` is `"`), and the position after it.
pub open spec fn string_at(s: Seq<char>, i: int) -> Result<(TokenV, int), LexError> {
    match string_body(s, i + 1) {
        Ok((body, end)) => Ok((TokenV::Str(body), end)),
        Err(e) => Err(e),
    }
}

/// A token result seen as a step that yields a token.
pub open spec fn token_step(r: Result<(TokenV, int), LexError>) -> Result<(Option<TokenV>, int), LexError> {
    match r {
        Ok((t, j)) => Ok((Some(t), j)),
        Err(e) => Err(e),
    }
}

/// What starts at position `i`: a token or nothing (white space), and the
/// position where lexing goes on.
pub open spec fn step_at(s: Seq<char>, i: int) -> Result<(Option<TokenV>, int), LexError> {
    let c = s[i];
    if c == '-' || is_digit(c) {
        token_step(number_at(s, i))
    } else if is_name_start(c) {
        token_step(name_at(s, i))
    } else if c == '"' {
        token_step(string_at(s, i))
    } else if c == '#' {
        if i + 1 >= s.len() {
            Err(LexError::UnexpectedTermination)
        } else if s[i + 1] == 't' {
            Ok((Some(TokenV::Bool(true)), i + 2))
        } else if s[i + 1] == 'f' {
            Ok((Some(TokenV::Bool(false)), i + 2))
        } else {
            Err(LexError::UnknownChar(s[i + 1]))
        }
    } else if c == '\'' {
        Ok((Some(TokenV::Quote), i + 1))
    } else if c == '(' {
        Ok((Some(TokenV::OpenParen), i + 1))
    } else if c == ')' {
        Ok((Some(TokenV::CloseParen), i + 1))
    } else if is_space(c) {
        Ok((None, i + 1))
    } else {
        Err(LexError::UnknownChar(c))
    }
}

/// The tokens of `s` from position `i` on.
pub open spec fn lex_from(s: Seq<char>, i: int) -> Result<Seq<TokenV>, LexError>
    decreases s.len() - i,
{
    if i < 0 || i >= s.len() {
        Ok(Seq::empty())
    } else {
        match step_at(s, i) {
            Err(e) => Err(e),
            Ok((t, j)) => if j <= i || j > s.len() {
                Ok(Seq::empty())
            } else {
                match lex_from(s, j) {
                    Err(e) => Err(e),
                    Ok(rest) => match t {
                        Some(t) => Ok(seq![t] + rest),
                        None => Ok(rest),
                    },
                }
            },
        }
    }
}

/// The tokens of a whole text.
pub open spec fn lex_spec(s: Seq<char>) -> Result<Seq<TokenV>, LexError> {
    lex_from(s, 0)
}

/// Whether an exec result agrees with a spec result of the same shape.
pub open spec fn agrees<T: View>(r: Result<(T, usize), LexError>, s: Result<(T::V, int), LexError>) -> bool {
    match s {
        Ok((t, j)) => r is Ok && r->Ok_0.0@ == t && r->Ok_0.1 == j,
        Err(e) => r == Err::<(T, usize), LexError>(e),
    }
}

/// Whether `c` may stand in a name; `start` asks whether it may begin one.
pub fn is_name_char(c: char, start: bool) -> (r: bool)
    ensures
        r == is_name_char_spec(c, start),
{
    if ('a' <= c && c <= 'z') || ('A' <= c && c <= 'Z') || c == '*' || c == '+' || c == '/'
        || c == '=' || c == '_' || c == '$' || c == '%' {
        true
    } else {
        !start && '0' <= c && c <= '9'
    }
}

fn is_digit_char(c: char) -> (r: bool)
    ensures
        r == is_digit(c),
{
    '0' <= c && c <= '9'
}

/// Reads a number at `pos`; a `-` that no digit follows is the name `-`.
pub fn read_number(s: &Vec<char>, pos: usize) -> (r: Result<(Token, usize), LexError>)
    requires
        pos < s.len(),
        s[pos as int] == '-' || is_digit(s[pos as int]),
    ensures
        agrees(r, number_at(s@, pos as int)),
{
    let neg = s[pos] == '-';
    if neg && !(pos + 1 < s.len() && is_digit_char(s[pos + 1])) {
        let mut name = String::new();
        name.push('-');
        assert(name@ =~= seq!['-']);
        return Ok((Token::Name(name), pos + 1));
    }
    let start: usize = if neg { pos + 1 } else { pos };
    let limit: u128 = if neg { 0x8000_0000_0000_0000u128 } else { 0x7fff_ffff_ffff_ffffu128 };
    let mut mag: u128 = 0;
    let mut fits: bool = true;
    let mut k: usize = start;
    while k < s.len() && is_digit_char(s[k])
        invariant
            start <= k <= s.len(),
            limit <= 0x8000_0000_0000_0000u128,
            limit == (if neg { 0x8000_0000_0000_0000u128 } else { 0x7fff_ffff_ffff_ffffu128 }),
            start == (if neg { pos + 1 } else { pos as int }),
            run_end(s@, start as int, false) == run_end(s@, k as int, false),
            fits ==> mag == digits_value(s@.subrange(start as int, k as int)) && mag <= limit,
            !fits ==> digits_value(s@.subrange(start as int, k as int)) > limit,
        decreases s.len() - k,
    {
        let ghost prev = s@.subrange(start as int, k as int);
        assert(s@.subrange(start as int, k + 1).drop_last() =~= prev);
        let d: u128 = (s[k] as u32 - '0' as u32) as u128;
        if fits {
            let next: u128 = mag * 10 + d;
            if next > limit {
                fits = false;
            } else {
                mag = next;
            }
        }
        k = k + 1;
    }
    if !fits {
        return Err(LexError::NumberOverflow);
    }
    let v: i64 = if neg {
        if mag == 0x8000_0000_0000_0000u128 {
            i64::MIN
        } else {
            -(mag as i64)
        }
    } else {
        mag as i64
    };
    Ok((Token::Number(v), k))
}

/// `acc` put in front of the contents that a string scan found.
pub open spec fn prefixed(acc: Seq<char>, r: Result<(Seq<char>, int), LexError>) -> Result<(Seq<char>, int), LexError> {
    match r {
        Ok((rest, end)) => Ok((acc + rest, end)),
        Err(e) => Err(e),
    }
}

proof fn lemma_prefixed_push(acc: Seq<char>, c: char, r: Result<(Seq<char>, int), LexError>)
    ensures
        prefixed(acc, prefixed(seq![c], r)) == prefixed(acc.push(c), r),
{
    if let Ok((rest, end)) = r {
        assert(acc + (seq![c] + rest) =~= acc.push(c) + rest);
    }
}

pub proof fn lemma_run_end_bounds(s: Seq<char>, k: int, name: bool)
    requires
        0 <= k <= s.len(),
    ensures
        k <= run_end(s, k, name) <= s.len(),
    decreases s.len() - k,
{
    if k < s.len() && (if name { is_name_char_spec(s[k], false) } else { is_digit(s[k]) }) {
        lemma_run_end_bounds(s, k + 1, name);
    }
}

pub proof fn lemma_string_body_end(s: Seq<char>, k: int)
    requires
        0 <= k,
    ensures
        string_body(s, k) is Ok ==> k < string_body(s, k)->Ok_0.1 <= s.len(),
    decreases s.len() - k,
{
    if 0 <= k < s.len() && s[k] != '"' {
        if s[k] == '\\' {
            if k + 1 < s.len() {
                lemma_string_body_end(s, k + 2);
            }
        } else {
            lemma_string_body_end(s, k + 1);
        }
    }
}

/// Reads a name at `pos`; the name must end at a delimiter or at the end of the input.
pub fn read_name(s: &Vec<char>, pos: usize) -> (r: Result<(Token, usize), LexError>)
    requires
        pos < s.len(),
        is_name_start(s[pos as int]),
    ensures
        agrees(r, name_at(s@, pos as int)),
{
    let mut name = String::new();
    name.push(s[pos]);
    let mut k: usize = pos + 1;
    assert(name@ =~= s@.subrange(pos as int, k as int));
    while k < s.len() && is_name_char(s[k], false)
        invariant
            pos < k <= s.len(),
            name@ == s@.subrange(pos as int, k as int),
            run_end(s@, pos + 1, true) == run_end(s@, k as int, true),
        decreases s.len() - k,
    {
        name.push(s[k]);
        k = k + 1;
        assert(name@ =~= s@.subrange(pos as int, k as int));
    }
    if k < s.len() && !(s[k] == ' ' || s[k] == '\n' || s[k] == '\r' || s[k] == '(' || s[k] == ')') {
        return Err(LexError::UnknownChar(s[k]));
    }
    Ok((Token::Name(name), k))
}

/// Reads a string literal whose opening quote is at `pos`.
pub fn read_string(s: &Vec<char>, pos: usize) -> (r: Result<(Token, usize), LexError>)
    requires
        pos < s.len(),
        s[pos as int] == '"',
    ensures
        agrees(r, string_at(s@, pos as int)),
{
    let mut acc = String::new();
    let mut k: usize = pos + 1;
    assert(prefixed(acc@, string_body(s@, k as int)) == string_body(s@, k as int)) by {
        if let Ok((rest, end)) = string_body(s@, k as int) {
            assert(acc@ + rest =~= rest);
        }
    }
    loop
        invariant
            pos < k <= s.len(),
            string_body(s@, pos + 1) == prefixed(acc@, string_body(s@, k as int)),
        decreases s.len() - k,
    {
        if k >= s.len() {
            return Err(LexError::UnexpectedTermination);
        }
        let c = s[k];
        if c == '"' {
            assert(acc@ + Seq::<char>::empty() =~= acc@);
            return Ok((Token::Str(acc), k + 1));
        } else if c == '\\' {
            if k + 1 >= s.len() {
                return Err(LexError::UnexpectedTermination);
            }
            let e = s[k + 1];
            let x: char = if e == 'n' {
                '\n'
            } else if e == 'r' {
                '\r'
            } else if e == '\\' {
                '\\'
            } else if e == '"' {
                '"'
            } else {
                return Err(LexError::UnknownChar(e));
            };
            proof {
                lemma_prefixed_push(acc@, x, string_body(s@, k + 2));
            }
            acc.push(x);
            k = k + 2;
        } else if c == '\n' || c == '\r' {
            return Err(LexError::UnknownChar(c));
        } else {
            proof {
                lemma_prefixed_push(acc@, c, string_body(s@, k + 1));
            }
            acc.push(c);
            k = k + 1;
        }
    }
}

/// The spec result of lexing, seen through the views of the tokens.
pub open spec fn lex_result_view(r: Result<Vec<Token>, LexError>) -> Result<Seq<TokenV>, LexError> {
    match r {
        Ok(v) => Ok(tokens_view(v@)),
        Err(e) => Err(e),
    }
}

/// `acc` put in front of the tokens that lexing the rest found.
pub open spec fn tokens_prefixed(acc: Seq<TokenV>, r: Result<Seq<TokenV>, LexError>) -> Result<Seq<TokenV>, LexError> {
    match r {
        Ok(rest) => Ok(acc + rest),
        Err(e) => Err(e),
    }
}

/// Splits source text into tokens; the first error ends lexing.
pub fn lex(input: &String) -> (r: Result<Vec<Token>, LexError>)
    ensures
        lex_result_view(r) == lex_spec(input@),
{
    let s = crate::text::chars_of(input.as_str());
    let mut out: Vec<Token> = Vec::new();
    let mut i: usize = 0;
    assert(tokens_prefixed(tokens_view(out@), lex_from(s@, 0)) == lex_from(s@, 0)) by {
        if let Ok(rest) = lex_from(s@, 0) {
            assert(tokens_view(out@) + rest =~= rest);
        }
    }
    while i < s.len()
        invariant
            i <= s.len(),
            s@ == input@,
            lex_from(s@, 0) == tokens_prefixed(tokens_view(out@), lex_from(s@, i as int)),
        decreases s.len() - i,
    {
        let c = s[i];
        let step: Result<(Option<Token>, usize), LexError> = if c == '-' || is_digit_char(c) {
            match read_number(&s, i) {
                Ok((t, j)) => Ok((Some(t), j)),
                Err(e) => Err(e),
            }
        } else if is_name_char(c, true) {
            match read_name(&s, i) {
                Ok((t, j)) => Ok((Some(t), j)),
                Err(e) => Err(e),
            }
        } else if c == '"' {
            match read_string(&s, i) {
                Ok((t, j)) => Ok((Some(t), j)),
                Err(e) => Err(e),
            }
        } else if c == '#' {
            if i + 1 >= s.len() {
                Err(LexError::UnexpectedTermination)
            } else if s[i + 1] == 't' {
                Ok((Some(Token::Bool(true)), i + 2))
            } else if s[i + 1] == 'f' {
                Ok((Some(Token::Bool(false)), i + 2))
            } else {
                Err(LexError::UnknownChar(s[i + 1]))
            }
        } else if c == '\'' {
            Ok((Some(Token::Quote), i + 1))
        } else if c == '(' {
            Ok((Some(Token::OpenParen), i + 1))
        } else if c == ')' {
            Ok((Some(Token::CloseParen), i + 1))
        } else if c == ' ' || c == '\n' || c == '\r' {
            Ok((None, i + 1))
        } else {
            Err(LexError::UnknownChar(c))
        };
        assert(match step_at(s@, i as int) {
            Ok((t, j)) => step is Ok && step->Ok_0.1 == j && match t {
                Some(t) => step->Ok_0.0 is Some && step->Ok_0.0->Some_0@ == t,
                None => step->Ok_0.0 is None,
            },
            Err(e) => step == Err::<(Option<Token>, usize), LexError>(e),
        });
        proof {
            let start = if s@[i as int] == '-' { i + 1 } else { i as int };
            if start <= s.len() {
                lemma_run_end_bounds(s@, start, false);
            }
            lemma_run_end_bounds(s@, i + 1, true);
            lemma_run_end_bounds(s@, i + 1, false);
            if i + 2 <= s.len() {
                lemma_run_end_bounds(s@, i + 2, false);
            }
            lemma_string_body_end(s@, i + 1);
            if step_at(s@, i as int) is Ok {
                assert(i < step_at(s@, i as int)->Ok_0.1 <= s.len());
            }
        }
        match step {
            Err(e) => {
                return Err(e);
            },
            Ok((t, j)) => {
                let ghost before = out@;
                match t {
                    Some(t) => {
                        out.push(t);
                        assert(tokens_view(out@) =~= tokens_view(before).push(t@));
                    },
                    None => {},
                }
                proof {
                    if let Ok(rest) = lex_from(s@, j as int) {
                        assert(tokens_view(out@) + rest =~= tokens_view(before) + (
                        match step_at(s@, i as int)->Ok_0.0 {
                            Some(t) => seq![t] + rest,
                            None => rest,
                        }));
                    }
                }
                i = j;
            },
        }
    }
    Ok(out)
}

} // verus!

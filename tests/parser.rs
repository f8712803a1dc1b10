use mglisp::lexer::{lex, Token};
use mglisp::parser::{parse, to_tokens, ParseError};
use mglisp::printer::{render, to_text};
use mglisp::sexp::Sexp;

fn read(src: &str) -> Result<Sexp, ParseError> {
    let tokens = lex(&String::from(src)).unwrap();
    let mut pos: usize = 0;
    parse(&tokens, &mut pos)
}

#[test]
fn parse_atoms() {
    assert_eq!(read("42"), Ok(Sexp::Integer(42)));
    assert_eq!(read("abc"), Ok(Sexp::symb_str("abc")));
    assert_eq!(read("\"hi\""), Ok(Sexp::str_str("hi")));
    assert_eq!(read("#f"), Ok(Sexp::Boolean(false)));
}

#[test]
fn parse_lists() {
    assert_eq!(read("()"), Ok(Sexp::List(vec![])));
    assert_eq!(
        read("(+ (+ 2 3) 2)"),
        Ok(Sexp::List(vec![
            Sexp::symb_str("+"),
            Sexp::List(vec![Sexp::symb_str("+"), Sexp::Integer(2), Sexp::Integer(3)]),
            Sexp::Integer(2),
        ]))
    );
}

#[test]
fn parse_quote_desugars() {
    assert_eq!(
        read("'(a b)"),
        Ok(Sexp::List(vec![
            Sexp::symb_str("quote"),
            Sexp::List(vec![Sexp::symb_str("a"), Sexp::symb_str("b")]),
        ]))
    );
}

#[test]
fn parse_errors() {
    assert_eq!(read(")"), Err(ParseError::UnexpectedToken(Token::CloseParen)));
    assert_eq!(read(""), Err(ParseError::UnexpectedTermination));
    assert_eq!(read("(1 2"), Err(ParseError::UnexpectedTermination));
    assert_eq!(read("'"), Err(ParseError::UnexpectedTermination));
}

#[test]
fn parse_moves_past_one_form() {
    let tokens = lex(&String::from("(a) 7")).unwrap();
    let mut pos: usize = 0;
    assert_eq!(parse(&tokens, &mut pos), Ok(Sexp::List(vec![Sexp::symb_str("a")])));
    assert_eq!(pos, 3);
    assert_eq!(parse(&tokens, &mut pos), Ok(Sexp::Integer(7)));
    assert_eq!(pos, 4);
}

#[test]
fn parse_write_reparse() {
    let src = "(define f (lambda (x y) (if #t \"s\" '(x -3))))";
    let tokens = lex(&String::from(src)).unwrap();
    let mut pos: usize = 0;
    let e = parse(&tokens, &mut pos).unwrap();
    let written = to_tokens(&e).unwrap();
    let mut again: usize = 0;
    assert_eq!(parse(&written, &mut again), Ok(e));
    assert_eq!(again, written.len());
}

#[test]
fn write_tokens_of_list() {
    let e = Sexp::List(vec![Sexp::symb_str("a"), Sexp::Integer(1)]);
    assert_eq!(
        to_tokens(&e),
        Some(vec![Token::OpenParen, Token::Name(String::from("a")), Token::Number(1), Token::CloseParen])
    );
    assert_eq!(to_tokens(&Sexp::Null), None);
    assert_eq!(to_tokens(&Sexp::List(vec![Sexp::ByteArray(vec![1])])), None);
}

#[test]
fn sexp_clone_is_equal() {
    let e = read("(a (b \"c\") 4)").unwrap();
    assert_eq!(e.clone(), e);
}

#[test]
fn render_tokens() {
    let tokens = vec![
        Token::OpenParen,
        Token::Name(String::from("f")),
        Token::Number(-12),
        Token::Str(String::from("a\"b\n")),
        Token::Bool(true),
        Token::Quote,
        Token::CloseParen,
    ];
    assert_eq!(render(&tokens), "( f -12 \"a\\\"b\\n\" #t ' ) ");
    assert_eq!(lex(&render(&tokens)), Ok(tokens));
}

#[test]
fn text_round_trip() {
    let src = "(define s (strapp \"x\\\\y\" '(a -9223372036854775808 #f)))";
    let e = read(src).unwrap();
    let text = to_text(&e).unwrap();
    assert_eq!(read(&text), Ok(e));
    assert_eq!(to_text(&Sexp::Null), None);
    assert_eq!(to_text(&Sexp::Integer(0)), Some(String::from("0 ")));
}

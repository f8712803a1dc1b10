use mglisp::lexer::{is_name_char, lex, read_name, read_number, read_string, LexError, Token};

fn chars(s: &str) -> Vec<char> {
    s.chars().collect()
}

fn name(s: &str) -> Token {
    Token::Name(String::from(s))
}

#[test]
fn test_read_numbers() {
    let n1 = read_number(&chars("12345"), 0).map(|(t, _)| t);
    assert_eq!(n1, Ok(Token::Number(12345)));
    let n2 = read_number(&chars("-1337"), 0).map(|(t, _)| t);
    assert_eq!(n2, Ok(Token::Number(-1337)));
}

#[test]
fn test_read_name() {
    let n1 = read_name(&chars("hello"), 0).map(|(t, _)| t);
    assert_eq!(n1, Ok(Token::Name(String::from("hello"))));
    let n2 = read_name(&chars("a"), 0).map(|(t, _)| t);
    assert_eq!(n2, Ok(Token::Name(String::from("a"))));
}

#[test]
fn test_read_string() {
    let s1 = read_string(&chars("\"\""), 0).map(|(t, _)| t);
    assert_eq!(s1, Ok(Token::Str(String::from(""))));
    let s2 = read_string(&chars("\"foo\""), 0).map(|(t, _)| t);
    assert_eq!(s2, Ok(Token::Str(String::from("foo"))));
    let s3 = read_string(&chars("\" t \\r e \\n s \\\" t \\\\ s \""), 0).map(|(t, _)| t);
    assert_eq!(s3, Ok(Token::Str(String::from(" t \r e \n s \" t \\ s "))));
}

#[test]
fn read_number_reports_end() {
    assert_eq!(read_number(&chars("42)"), 0), Ok((Token::Number(42), 2)));
    assert_eq!(read_number(&chars("-7 "), 0), Ok((Token::Number(-7), 2)));
}

#[test]
fn lex_numbers() {
    assert_eq!(lex(&String::from("12345")), Ok(vec![Token::Number(12345)]));
    assert_eq!(lex(&String::from("-1337")), Ok(vec![Token::Number(-1337)]));
    assert_eq!(lex(&String::from("0")), Ok(vec![Token::Number(0)]));
}

#[test]
fn lex_lone_minus_is_a_name() {
    assert_eq!(lex(&String::from("-")), Ok(vec![name("-")]));
    assert_eq!(lex(&String::from("(- 5 3)")), Ok(vec![
        Token::OpenParen,
        name("-"),
        Token::Number(5),
        Token::Number(3),
        Token::CloseParen,
    ]));
}

#[test]
fn lex_number_limits() {
    assert_eq!(lex(&String::from("9223372036854775807")), Ok(vec![Token::Number(i64::MAX)]));
    assert_eq!(lex(&String::from("-9223372036854775808")), Ok(vec![Token::Number(i64::MIN)]));
    assert_eq!(lex(&String::from("9223372036854775808")), Err(LexError::NumberOverflow));
    assert_eq!(lex(&String::from("-9223372036854775809")), Err(LexError::NumberOverflow));
}

#[test]
fn lex_strings() {
    assert_eq!(lex(&String::from("\"\"")), Ok(vec![Token::Str(String::new())]));
    assert_eq!(
        lex(&String::from("\" t \\r e \\n s \\\" t \\\\ s \"")),
        Ok(vec![Token::Str(String::from(" t \r e \n s \" t \\ s "))])
    );
}

#[test]
fn lex_string_errors() {
    assert_eq!(lex(&String::from("\"abc")), Err(LexError::UnexpectedTermination));
    assert_eq!(lex(&String::from("\"ab\\")), Err(LexError::UnexpectedTermination));
    assert_eq!(lex(&String::from("\"a\\qb\"")), Err(LexError::UnknownChar('q')));
    assert_eq!(lex(&String::from("\"a\nb\"")), Err(LexError::UnknownChar('\n')));
}

#[test]
fn lex_booleans() {
    assert_eq!(lex(&String::from("#t #f")), Ok(vec![Token::Bool(true), Token::Bool(false)]));
    assert_eq!(lex(&String::from("#x")), Err(LexError::UnknownChar('x')));
    assert_eq!(lex(&String::from("#")), Err(LexError::UnexpectedTermination));
}

#[test]
fn lex_form() {
    assert_eq!(lex(&String::from("'(define x \"s\")\n")), Ok(vec![
        Token::Quote,
        Token::OpenParen,
        name("define"),
        name("x"),
        Token::Str(String::from("s")),
        Token::CloseParen,
    ]));
}

#[test]
fn lex_names_must_end_at_a_delimiter() {
    assert_eq!(lex(&String::from("ab#")), Err(LexError::UnknownChar('#')));
    assert_eq!(lex(&String::from("x1 y")), Ok(vec![name("x1"), name("y")]));
    assert_eq!(lex(&String::from("@")), Err(LexError::UnknownChar('@')));
}

#[test]
fn lex_empty() {
    assert_eq!(lex(&String::new()), Ok(vec![]));
    assert_eq!(lex(&String::from(" \r\n")), Ok(vec![]));
}

#[test]
fn name_chars() {
    assert!(is_name_char('a', true));
    assert!(is_name_char('%', true));
    assert!(!is_name_char('1', true));
    assert!(is_name_char('1', false));
    assert!(!is_name_char('-', false));
}

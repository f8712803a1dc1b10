use std::rc::Rc;
use mglisp::eval::{eval, eval_with_depth, EvalError};
use mglisp::lexer::{lex, Token};
use mglisp::parser::parse;
use mglisp::program::LispProgram;
use mglisp::sexp::Sexp;
use mglisp::value::{Builtin, Env, LispFunction, LispValue, MgIntrinsic};

/// Evaluates every form of `src` in turn in a program with the intrinsics; the
/// result of the last form.
fn run(src: &str) -> Result<Rc<LispValue>, EvalError> {
    let mut program = LispProgram::new().with_core();
    let tokens = lex(&String::from(src)).unwrap();
    let mut pos: usize = 0;
    let mut last = Ok(Rc::new(LispValue::Null));
    while pos < tokens.len() {
        let form = parse(&tokens, &mut pos).unwrap();
        last = program.exec(&form);
    }
    last
}

fn integer(i: i64) -> Rc<LispValue> {
    Rc::new(LispValue::Integer(i))
}

fn sym(s: &str) -> Rc<LispValue> {
    Rc::new(LispValue::Symbol(String::from(s)))
}

fn message(e: &EvalError) -> String {
    match e {
        EvalError::Msg(m) => m.clone(),
        EvalError::Chain(v) => v.iter().map(message).collect::<Vec<String>>().join(" / "),
    }
}

#[test]
fn test_eval_nothing() {
    let r = eval(&Sexp::Null, &mut Env::new());
    assert_eq!(r.unwrap(), Rc::new(LispValue::Null));
}

#[test]
fn test_eval_math() {
    let tokens = vec![
        Token::OpenParen,
        Token::Name("+".into()),
        Token::OpenParen,
        Token::Name("+".into()),
        Token::Number(2),
        Token::Number(3),
        Token::CloseParen,
        Token::Number(2),
        Token::CloseParen,
    ];
    let mut pos: usize = 0;
    let expr: Sexp = parse(&tokens, &mut pos).unwrap();
    println!("{:?}", expr);
    let mut env = Env::new();
    env.add_binding(
        "+".into(),
        Rc::new(LispValue::Func(Box::new(LispFunction::Intrinsic(MgIntrinsic::new("+".into(), Builtin::Plus))))),
    );
    let r = eval(&expr, &mut env);
    assert_eq!(r.unwrap(), Rc::new(LispValue::Integer(7)));
}

#[test]
fn literals_evaluate_to_themselves() {
    assert_eq!(run("5"), Ok(integer(5)));
    assert_eq!(run("\"s\""), Ok(Rc::new(LispValue::Str(String::from("s")))));
    assert_eq!(run("#t"), Ok(Rc::new(LispValue::Boolean(true))));
}

#[test]
fn if_picks_a_branch() {
    assert_eq!(run("(if #t 1 2)"), Ok(integer(1)));
    assert_eq!(run("(if #f 1 2)"), Ok(integer(2)));
}

#[test]
fn if_does_not_evaluate_the_other_branch() {
    assert_eq!(run("(if #t 1 (/ 1 0))"), Ok(integer(1)));
    assert_eq!(run("(if #f unboundthing 2)"), Ok(integer(2)));
    assert!(run("(if 1 2 3)").is_err());
}

#[test]
fn define_then_lookup() {
    assert_eq!(run("(define x 5) x"), Ok(integer(5)));
    assert_eq!(run("(define x 5)"), Ok(Rc::new(LispValue::Null)));
}

#[test]
fn closure_does_not_see_later_define() {
    assert!(run("(define f (lambda () y)) (define y 1) (f)").is_err());
    assert_eq!(run("(define y 1) (define f (lambda () y)) (f)"), Ok(integer(1)));
    let e = run("(define f (lambda () y)) (define y 1) (f)").unwrap_err();
    assert!(message(&e).contains("unbound name y"));
}

#[test]
fn lambda_application() {
    assert_eq!(run("((lambda (a b) (- a b)) 10 3)"), Ok(integer(7)));
    assert_eq!(run("(define sq (lambda (n) (* n n))) (sq 9)"), Ok(integer(81)));
}

#[test]
fn lambda_arity_mismatch() {
    let e = run("((lambda (a b) a) 1)").unwrap_err();
    assert_eq!(message(&e), "function expected 2 arguments, got 1");
    let e = run("((lambda (a) a) 1 2 3)").unwrap_err();
    assert_eq!(message(&e), "function expected 1 arguments, got 3");
}

#[test]
fn quote_builds_pairs() {
    let expected = Rc::new(LispValue::Cons(sym("a"), Rc::new(LispValue::Cons(sym("b"), Rc::new(LispValue::Null)))));
    assert_eq!(run("(quote (a b))"), Ok(expected.clone()));
    assert_eq!(run("'(a b)"), Ok(expected));
    assert_eq!(run("'()"), Ok(Rc::new(LispValue::Null)));
}

#[test]
fn lists_and_pairs() {
    assert_eq!(run("(first (cons 1 2))"), Ok(integer(1)));
    assert_eq!(run("(rest (cons 1 2))"), Ok(integer(2)));
    assert_eq!(run("(first (rest '(1 2 3)))"), Ok(integer(2)));
    let e = run("(first 1)").unwrap_err();
    assert_eq!(message(&e), "error in intrinsic first / error: first expects a cons");
}

#[test]
fn arithmetic() {
    assert_eq!(run("(+ (+ 2 3) 2)"), Ok(integer(7)));
    assert_eq!(run("(- 2 5)"), Ok(integer(-3)));
    assert_eq!(run("(* -4 5)"), Ok(integer(-20)));
    assert_eq!(run("(/ 7 2)"), Ok(integer(3)));
    assert_eq!(run("(/ -7 2)"), Ok(integer(-3)));
    assert_eq!(run("(/ 7 -2)"), Ok(integer(-3)));
}

#[test]
fn arithmetic_errors() {
    let e = run("(/ 1 0)").unwrap_err();
    assert_eq!(message(&e), "error in intrinsic / / error: division by zero in '/'");
    let e = run("(+ 9223372036854775807 1)").unwrap_err();
    assert_eq!(message(&e), "error in intrinsic + / error: integer overflow in '+'");
    let e = run("(/ -9223372036854775808 -1)").unwrap_err();
    assert_eq!(message(&e), "error in intrinsic / / error: integer overflow in '/'");
    let e = run("(+ 1 \"a\")").unwrap_err();
    assert_eq!(message(&e), "error in intrinsic + / error: argument 2 for '+' is not an integer");
    let e = run("(+ 1)").unwrap_err();
    assert_eq!(message(&e), "error in intrinsic + / error: invalid form for '+', needs 2 expressions");
}

/// Evaluates a call of the intrinsic bound to `name` on the given arguments.
fn call(name: &str, args: Vec<Sexp>) -> Result<Rc<LispValue>, EvalError> {
    let mut program = LispProgram::new().with_core();
    let mut items = vec![Sexp::symb_str(name)];
    items.extend(args);
    program.exec(&Sexp::List(items))
}

#[test]
fn strings() {
    assert_eq!(call("str-len", vec![Sexp::str_str("hello")]), Ok(integer(5)));
    assert_eq!(
        call("str-app", vec![Sexp::str_str("ab"), Sexp::str_str("cd")]),
        Ok(Rc::new(LispValue::Str(String::from("abcd"))))
    );
    let e = call("str-len", vec![Sexp::Integer(3)]).unwrap_err();
    assert_eq!(message(&e), "error in intrinsic str-len / error: argument to str-len must be str");
}

#[test]
fn typeof_names_kinds() {
    assert_eq!(run("(typeof 1)"), Ok(sym("integer")));
    assert_eq!(run("(typeof \"s\")"), Ok(sym("str")));
    assert_eq!(run("(typeof #t)"), Ok(sym("bool")));
    assert_eq!(run("(typeof '(1))"), Ok(sym("cons")));
    assert_eq!(run("(typeof 'a)"), Ok(sym("symbol")));
    assert_eq!(run("(typeof '())"), Ok(sym("null")));
    assert_eq!(run("(typeof typeof)"), Ok(sym("function")));
}

#[test]
fn begin_runs_in_order() {
    assert_eq!(run("(begin (define z 3) (+ z 1))"), Ok(integer(4)));
    assert_eq!(run("(begin)"), Ok(Rc::new(LispValue::Null)));
}

#[test]
fn deepcopy_is_equal() {
    let expected = Rc::new(LispValue::Cons(integer(1), integer(2)));
    assert_eq!(run("(deepcopy (cons 1 2))"), Ok(expected));
}

#[test]
fn variadic_lambda_binds_args() {
    assert_eq!(run("((vlambda (first (rest args))) 1 2 3)"), Ok(integer(2)));
}

#[test]
fn evaluation_errors() {
    assert_eq!(message(&run("nothing").unwrap_err()), "unbound name nothing");
    assert_eq!(message(&run("(1 2)").unwrap_err()), "tried to call a non-function");
    assert_eq!(message(&run("()").unwrap_err()), "unevaluatable S-expression");
}

#[test]
fn depth_limit_is_an_error() {
    let mut env = Env::new();
    assert_eq!(
        eval_with_depth(&Sexp::Integer(1), &mut env, 0),
        Err(EvalError::Msg(String::from("evaluation depth exceeded")))
    );
    let e = run("((lambda (f) (f f)) (lambda (f) (f f)))").unwrap_err();
    assert!(message(&e).contains("evaluation depth exceeded"));
}

#[test]
fn env_compose_and_resolve() {
    let mut base = Env::new();
    base.add_binding(String::from("a"), integer(1));
    base.add_binding(String::from("b"), integer(2));
    let mut top = Env::new();
    top.add_binding(String::from("b"), integer(3));
    let c = base.compose(&top);
    assert_eq!(c.resolve(&String::from("a")), Some(integer(1)));
    assert_eq!(c.resolve(&String::from("b")), Some(integer(3)));
    assert_eq!(base.resolve(&String::from("b")), Some(integer(2)));
    assert_eq!(c.resolve(&String::from("z")), None);
}

#[test]
fn str_len_counts_utf8_bytes() {
    assert_eq!(call("str-len", vec![Sexp::str_str("é")]), Ok(integer(2)));
    assert_eq!(call("str-len", vec![Sexp::str_str("a€😀")]), Ok(integer(8)));
    assert_eq!(call("str-len", vec![Sexp::str_str("")]), Ok(integer(0)));
    assert_eq!(mglisp::intrinsics::utf8_length(&String::from("né€😀")), 10);
}

use mal_rust::builtins::env_core;
use mal_rust::env::{Env, EvalError, Malformation, SpecialForm};
use mal_rust::parser::{Closer, Expected, ParseError};
use mal_rust::repl::rep;
use mal_rust::types::{Builtin, Sexp};

fn turn(line: &str, env: &mut Env) -> Vec<String> {
    let mut out = Vec::new();
    rep(line.to_string(), env, &mut out);
    out
}

fn printed(line: &str) -> Vec<String> {
    turn(line, &mut env_core())
}

#[test]
fn prints_the_text_of_the_value() {
    assert_eq!(printed("(+ 1 2)"), vec!["3"]);
    assert_eq!(printed("(list 1 (list) nil true)"), vec!["(1 () nil true)"]);
    assert_eq!(printed("+"), vec!["<func>"]);
    assert_eq!(printed("(str 1 2)"), vec!["\"12\""]);
}

#[test]
fn an_integer_literal_is_printed_in_canonical_text() {
    for text in ["0", "7", "-17", "9223372036854775807", "-9223372036854775808"] {
        assert_eq!(printed(text), vec![text]);
    }
    assert_eq!(printed("0012"), vec!["12"]);
    assert_eq!(printed("-0"), vec!["0"]);
}

#[test]
fn prints_what_evaluation_prints_before_the_value() {
    assert_eq!(printed("(do (prn 1) (prn 2) 3)"), vec!["1", "2", "3"]);
    assert_eq!(printed("(prn 1)"), vec!["1", "nil"]);
}

#[test]
fn evaluates_every_expression_of_the_line() {
    assert_eq!(printed("1 (+ 1 1) (prn 3)"), vec!["1", "2", "3", "nil"]);
    let mut env = env_core();
    assert_eq!(turn("(def! a 5) (* a a)", &mut env), vec!["5", "25"]);
    assert_eq!(turn("a", &mut env), vec!["5"]);
}

#[test]
fn passes_over_comments() {
    assert_eq!(printed("(+ 1 2) ;; three"), vec!["3"]);
    assert_eq!(printed(";; nothing"), Vec::<String>::new());
    assert_eq!(printed(""), Vec::<String>::new());
    assert_eq!(printed("  ,, "), Vec::<String>::new());
}

#[test]
fn shows_an_error_and_goes_on() {
    assert_eq!(
        printed("(+ 1) 2"),
        vec!["[ERROR] + received unexpected inputs: [1]", "2"]
    );
    assert_eq!(
        printed("nothing"),
        vec!["[ERROR] Unknown symbol 'nothing' found"]
    );
}

#[test]
fn stops_reading_where_no_expression_can_be_read() {
    assert_eq!(printed("1 ) 2"), vec!["1", "[ERROR] Unexpected token ')'"]);
    assert_eq!(printed("(1 2"), vec!["[ERROR] Expected ), received EOF"]);
}

#[test]
fn an_error_leaves_the_environment_usable() {
    let mut env = env_core();
    assert_eq!(turn("(def! a 1)", &mut env), vec!["1"]);
    assert_eq!(turn("(def! b (+ a))", &mut env).len(), 1);
    assert_eq!(turn("(a", &mut env).len(), 1);
    assert_eq!(turn("(+ a 1)", &mut env), vec!["2"]);
    assert_eq!(turn("b", &mut env), vec!["[ERROR] Unknown symbol 'b' found"]);
}

#[test]
fn what_the_reading_errors_say() {
    assert_eq!(
        ParseError::UnexpectedToken("]".to_string()).message(),
        "Unexpected token ']'"
    );
    assert_eq!(
        ParseError::UnexpectedEndOfInput(Expected::Form).message(),
        "Unexpected EOF"
    );
    assert_eq!(
        ParseError::UnexpectedEndOfInput(Expected::Closer(Closer::Paren)).message(),
        "Expected ), received EOF"
    );
    assert_eq!(
        ParseError::UnexpectedEndOfInput(Expected::Closer(Closer::Bracket)).message(),
        "Expected ], received EOF"
    );
    assert_eq!(
        ParseError::UnexpectedEndOfInput(Expected::Closer(Closer::Brace)).message(),
        "Expected }, received EOF"
    );
    assert_eq!(
        ParseError::MalformedQuoteOrMeta.message(),
        "Malformed quote or meta"
    );
}

#[test]
fn what_the_evaluation_errors_say() {
    assert_eq!(
        EvalError::UnknownSymbol("x".to_string()).message(),
        "Unknown symbol 'x' found"
    );
    assert_eq!(
        EvalError::MalformedSpecialForm(SpecialForm::Def, Malformation::Length).message(),
        "Expected (def! symbol value): wrong number of elements"
    );
    assert_eq!(
        EvalError::MalformedSpecialForm(SpecialForm::Def, Malformation::Name).message(),
        "Expected (def! symbol value): a name is no symbol"
    );
    assert_eq!(
        EvalError::MalformedSpecialForm(SpecialForm::Let, Malformation::Bindings).message(),
        "Expected (let* (symbol value ...) body): the bindings are no list or vector"
    );
    assert_eq!(
        EvalError::MalformedSpecialForm(SpecialForm::Let, Malformation::Pairing).message(),
        "Expected (let* (symbol value ...) body): a name has no value"
    );
    assert_eq!(
        EvalError::NotAFunction(Sexp::List(vec![Sexp::Integer(1)])).message(),
        "Not a function: (1)"
    );
    assert_eq!(
        EvalError::ArityOrTypeMismatch(
            Builtin::Divide,
            vec![Sexp::Integer(1), Sexp::String("two".to_string())]
        )
        .message(),
        "/ received unexpected inputs: [1 \"two\"]"
    );
    assert_eq!(EvalError::DivisionByZero.message(), "Division by zero");
}

use mal_rust::builtins::env_core;
use mal_rust::env::{apply, evaluate, Env, EvalError, Malformation, SpecialForm};
use mal_rust::tokenizer::Tokenizer;
use mal_rust::types::{Builtin, Sexp};

fn parse(text: &str) -> Sexp {
    Sexp::read_from(&mut Tokenizer::new(text.to_string())).unwrap()
}

fn run(text: &str) -> Result<Sexp, EvalError> {
    let mut out = Vec::new();
    evaluate(parse(text), &mut env_core(), &mut out)
}

fn run_in(text: &str, env: &mut Env) -> Result<Sexp, EvalError> {
    let mut out = Vec::new();
    evaluate(parse(text), env, &mut out)
}

#[test]
fn an_integer_is_its_own_value() {
    for text in ["0", "10", "-17", "9223372036854775807", "-9223372036854775808"] {
        assert_eq!(run(text).unwrap().to_text(), text);
    }
    assert_eq!(run("007").unwrap().to_text(), "7");
    assert_eq!(run("-0").unwrap().to_text(), "0");
}

#[test]
fn arithmetic_on_two_integers() {
    assert_eq!(run("(+ 9 3)"), Ok(Sexp::Integer(12)));
    assert_eq!(run("(- 9 3)"), Ok(Sexp::Integer(6)));
    assert_eq!(run("(* 9 3)"), Ok(Sexp::Integer(27)));
    assert_eq!(run("(/ 9 3)"), Ok(Sexp::Integer(3)));
    assert_eq!(run("(/ (* -4 (- 3 9)) (+ 4 2))"), Ok(Sexp::Integer(4)));
}

#[test]
fn division_rounds_toward_zero() {
    assert_eq!(run("(/ 7 2)"), Ok(Sexp::Integer(3)));
    assert_eq!(run("(/ -7 2)"), Ok(Sexp::Integer(-3)));
    assert_eq!(run("(/ 7 -2)"), Ok(Sexp::Integer(-3)));
    assert_eq!(run("(/ -7 -2)"), Ok(Sexp::Integer(3)));
    assert_eq!(run("(/ 0 5)"), Ok(Sexp::Integer(0)));
    assert_eq!(run("(/ 1 9223372036854775807)"), Ok(Sexp::Integer(0)));
}

#[test]
fn division_by_zero_is_an_error() {
    assert_eq!(run("(/ 1 0)"), Err(EvalError::DivisionByZero));
    assert_eq!(run("(/ 0 0)"), Err(EvalError::DivisionByZero));
}

#[test]
fn arithmetic_wraps_around() {
    assert_eq!(
        run("(+ 9223372036854775807 1)"),
        Ok(Sexp::Integer(i64::MIN))
    );
    assert_eq!(
        run("(- -9223372036854775808 1)"),
        Ok(Sexp::Integer(i64::MAX))
    );
    assert_eq!(
        run("(* 9223372036854775807 2)"),
        Ok(Sexp::Integer(-2))
    );
    assert_eq!(
        run("(/ -9223372036854775808 -1)"),
        Ok(Sexp::Integer(i64::MIN))
    );
}

#[test]
fn the_empty_list_is_its_own_value() {
    assert_eq!(run("()"), Ok(Sexp::List(vec![])));
    assert_eq!(run("[]"), Ok(Sexp::Vec(vec![])));
}

#[test]
fn atoms_are_their_own_values() {
    assert_eq!(run("true"), Ok(Sexp::Bool(true)));
    assert_eq!(run("nil"), Ok(Sexp::Nil));
    assert_eq!(run(":k"), Ok(Sexp::Keyword("k".to_string())));
    assert_eq!(
        run("{:a 1}"),
        Ok(Sexp::MapLiteral(vec![
            Sexp::Keyword("a".to_string()),
            Sexp::Integer(1)
        ]))
    );
    let mut out = Vec::new();
    assert_eq!(
        evaluate(Sexp::String("s".to_string()), &mut env_core(), &mut out),
        Ok(Sexp::String("s".to_string()))
    );
    assert_eq!(
        evaluate(Sexp::Func(Builtin::Add), &mut env_core(), &mut out),
        Ok(Sexp::Func(Builtin::Add))
    );
}

#[test]
fn a_symbol_has_the_value_bound_to_it() {
    assert_eq!(run("+"), Ok(Sexp::Func(Builtin::Add)));
    assert_eq!(run("count"), Ok(Sexp::Func(Builtin::Count)));
    assert_eq!(
        run("nothing"),
        Err(EvalError::UnknownSymbol("nothing".to_string()))
    );
}

#[test]
fn arity_violations_are_errors() {
    assert_eq!(
        run("(+)"),
        Err(EvalError::ArityOrTypeMismatch(Builtin::Add, vec![]))
    );
    assert_eq!(
        run("(+ 1)"),
        Err(EvalError::ArityOrTypeMismatch(
            Builtin::Add,
            vec![Sexp::Integer(1)]
        ))
    );
    assert_eq!(
        run("(+ 1 2 3)"),
        Err(EvalError::ArityOrTypeMismatch(
            Builtin::Add,
            vec![Sexp::Integer(1), Sexp::Integer(2), Sexp::Integer(3)]
        ))
    );
    assert_eq!(
        run("(- 1 nil)"),
        Err(EvalError::ArityOrTypeMismatch(
            Builtin::Subtract,
            vec![Sexp::Integer(1), Sexp::Nil]
        ))
    );
    assert_eq!(
        run("(* + +)"),
        Err(EvalError::ArityOrTypeMismatch(
            Builtin::Multiply,
            vec![Sexp::Func(Builtin::Add), Sexp::Func(Builtin::Add)]
        ))
    );
    assert_eq!(
        run("(/ 1)"),
        Err(EvalError::ArityOrTypeMismatch(
            Builtin::Divide,
            vec![Sexp::Integer(1)]
        ))
    );
    assert_eq!(
        run("(< 1)"),
        Err(EvalError::ArityOrTypeMismatch(
            Builtin::Lt,
            vec![Sexp::Integer(1)]
        ))
    );
    assert_eq!(
        run("(count 1)"),
        Err(EvalError::ArityOrTypeMismatch(
            Builtin::Count,
            vec![Sexp::Integer(1)]
        ))
    );
}

#[test]
fn the_head_of_an_application_must_be_a_function() {
    assert_eq!(run("(1 2 3)"), Err(EvalError::NotAFunction(Sexp::Integer(1))));
    assert_eq!(run("(nil)"), Err(EvalError::NotAFunction(Sexp::Nil)));
    assert_eq!(
        run("((list 1) 2)"),
        Err(EvalError::NotAFunction(Sexp::List(vec![Sexp::Integer(1)])))
    );
}

#[test]
fn a_vector_is_applied_like_a_list() {
    assert_eq!(run("[+ 1 2]"), Ok(Sexp::Integer(3)));
    assert_eq!(run("[1 2]"), Err(EvalError::NotAFunction(Sexp::Integer(1))));
    assert_eq!(run("(+ [+ 1 2] [* 2 2])"), Ok(Sexp::Integer(7)));
}

#[test]
fn the_elements_are_evaluated_up_to_the_first_failure() {
    let mut out = Vec::new();
    let result = evaluate(
        parse("(+ (prn 1) nothing (prn 2))"),
        &mut env_core(),
        &mut out,
    );
    assert_eq!(result, Err(EvalError::UnknownSymbol("nothing".to_string())));
    assert_eq!(out, vec!["1".to_string()]);
}

#[test]
fn def_binds_a_name_to_a_value() {
    let mut env = env_core();
    assert_eq!(run_in("(def! a 10)", &mut env), Ok(Sexp::Integer(10)));
    assert_eq!(run_in("a", &mut env), Ok(Sexp::Integer(10)));
    assert_eq!(run_in("(def! a (+ a 1))", &mut env), Ok(Sexp::Integer(11)));
    assert_eq!(run_in("a", &mut env), Ok(Sexp::Integer(11)));
    assert_eq!(env.get(&"a".to_string()), Some(Sexp::Integer(11)));
}

#[test]
fn def_binds_nothing_where_the_value_fails() {
    let mut env = env_core();
    assert_eq!(
        run_in("(def! a nothing)", &mut env),
        Err(EvalError::UnknownSymbol("nothing".to_string()))
    );
    assert_eq!(
        run_in("a", &mut env),
        Err(EvalError::UnknownSymbol("a".to_string()))
    );
}

#[test]
fn def_asks_for_a_symbol_and_a_value() {
    let length = Err(EvalError::MalformedSpecialForm(
        SpecialForm::Def,
        Malformation::Length,
    ));
    let name = Err(EvalError::MalformedSpecialForm(
        SpecialForm::Def,
        Malformation::Name,
    ));
    assert_eq!(run("(def!)"), length);
    assert_eq!(run("(def! a)"), length);
    assert_eq!(run("(def! a 1 2)"), length);
    assert_eq!(run("(def! 1 2)"), name);
    assert_eq!(run("(def! :a 2)"), name);
}

#[test]
fn a_malformed_def_evaluates_nothing() {
    let mut out = Vec::new();
    let result = evaluate(parse("(def! 1 (prn 2))"), &mut env_core(), &mut out);
    assert_eq!(
        result,
        Err(EvalError::MalformedSpecialForm(
            SpecialForm::Def,
            Malformation::Name
        ))
    );
    assert!(out.is_empty());
}

#[test]
fn def_in_a_vector_is_no_special_form() {
    assert_eq!(
        run("[def! a 1]"),
        Err(EvalError::UnknownSymbol("def!".to_string()))
    );
    assert_eq!(
        run("[do 1 2]"),
        Err(EvalError::UnknownSymbol("do".to_string()))
    );
}

#[test]
fn later_bindings_see_earlier_ones() {
    assert_eq!(run("(let* (x 2 y (+ x 1)) (+ x y))"), Ok(Sexp::Integer(5)));
    assert_eq!(run("(let* [x 2 y (+ x 1)] (+ x y))"), Ok(Sexp::Integer(5)));
    assert_eq!(run("[let* (x 2 y (+ x 1)) (+ x y)]"), Ok(Sexp::Integer(5)));
    assert_eq!(run("(let* (x 1 x (+ x 1)) x)"), Ok(Sexp::Integer(2)));
}

#[test]
fn empty_bindings_are_accepted() {
    assert_eq!(run("(let* [] (+ 40 2))"), Ok(Sexp::Integer(42)));
    assert_eq!(run("(let* () (+ 40 2))"), Ok(Sexp::Integer(42)));
}

#[test]
fn what_is_bound_inside_let_is_gone_outside() {
    let mut env = env_core();
    assert_eq!(
        run_in("(let* (x 1) (def! y (+ x 1)))", &mut env),
        Ok(Sexp::Integer(2))
    );
    assert_eq!(
        run_in("y", &mut env),
        Err(EvalError::UnknownSymbol("y".to_string()))
    );
    assert_eq!(
        run_in("x", &mut env),
        Err(EvalError::UnknownSymbol("x".to_string()))
    );
    assert_eq!(run_in("(def! z 5)", &mut env), Ok(Sexp::Integer(5)));
    assert_eq!(
        run_in("(let* (z 6) (do (let* (w (def! z 7)) z) z))", &mut env),
        Ok(Sexp::Integer(6))
    );
    assert_eq!(
        run_in("(let* (z 6) (let* (w (def! z 7)) z))", &mut env),
        Ok(Sexp::Integer(7))
    );
    assert_eq!(run_in("z", &mut env), Ok(Sexp::Integer(5)));
}

#[test]
fn a_binding_shadows_an_outer_one() {
    let mut env = env_core();
    assert_eq!(run_in("(def! a 1)", &mut env), Ok(Sexp::Integer(1)));
    assert_eq!(
        run_in("(let* (a 2) (let* (b a a 3) (+ a b)))", &mut env),
        Ok(Sexp::Integer(5))
    );
    assert_eq!(run_in("(let* (+ -) (+ 5 3))", &mut env), Ok(Sexp::Integer(2)));
    assert_eq!(run_in("(+ a 3)", &mut env), Ok(Sexp::Integer(4)));
}

#[test]
fn let_asks_for_bindings_and_a_body() {
    let fails = |reason| Err(EvalError::MalformedSpecialForm(SpecialForm::Let, reason));
    assert_eq!(run("(let*)"), fails(Malformation::Length));
    assert_eq!(run("(let* (a 1))"), fails(Malformation::Length));
    assert_eq!(run("(let* (a 1) a a)"), fails(Malformation::Length));
    assert_eq!(run("(let* a 1)"), fails(Malformation::Bindings));
    assert_eq!(run("(let* {a 1} a)"), fails(Malformation::Bindings));
    assert_eq!(run("(let* (a) a)"), fails(Malformation::Pairing));
    assert_eq!(run("(let* (a 1 b) a)"), fails(Malformation::Pairing));
    assert_eq!(run("(let* (1 2) 3)"), fails(Malformation::Name));
    assert_eq!(run("(let* (a 1 :b 2) a)"), fails(Malformation::Name));
}

#[test]
fn a_malformed_let_evaluates_nothing() {
    let mut out = Vec::new();
    let result = evaluate(
        parse("(let* (a (prn 1) 2 (prn 2)) a)"),
        &mut env_core(),
        &mut out,
    );
    assert_eq!(
        result,
        Err(EvalError::MalformedSpecialForm(
            SpecialForm::Let,
            Malformation::Name
        ))
    );
    assert!(out.is_empty());
}

#[test]
fn do_has_the_value_of_its_last_expression() {
    let mut out = Vec::new();
    let result = evaluate(parse("(do (prn 1) (prn 2) 3)"), &mut env_core(), &mut out);
    assert_eq!(result, Ok(Sexp::Integer(3)));
    assert_eq!(out, vec!["1".to_string(), "2".to_string()]);
}

#[test]
fn do_without_an_expression_is_nil() {
    assert_eq!(run("(do)"), Ok(Sexp::Nil));
    assert_eq!(run("(do 1)"), Ok(Sexp::Integer(1)));
}

#[test]
fn do_stops_at_the_first_failure() {
    let mut env = env_core();
    let mut out = Vec::new();
    let result = evaluate(
        parse("(do (def! a 1) (prn a) (+) (prn 2) (def! b 2))"),
        &mut env,
        &mut out,
    );
    assert_eq!(
        result,
        Err(EvalError::ArityOrTypeMismatch(Builtin::Add, vec![]))
    );
    assert_eq!(out, vec!["1".to_string()]);
    assert_eq!(env.get(&"a".to_string()), Some(Sexp::Integer(1)));
    assert_eq!(env.get(&"b".to_string()), None);
}

#[test]
fn printing_keeps_the_lines_printed_before() {
    let mut out = vec!["before".to_string()];
    let result = evaluate(parse("(prn 1 2)"), &mut env_core(), &mut out);
    assert_eq!(result, Ok(Sexp::Nil));
    assert_eq!(out, vec!["before".to_string(), "1 2".to_string()]);
}

#[test]
fn apply_evaluates_the_elements() {
    let mut out = Vec::new();
    let mut env = env_core();
    assert_eq!(
        apply(parse("(+ 1 (+ 1 1))"), &mut env, &mut out),
        Ok(Sexp::List(vec![
            Sexp::Func(Builtin::Add),
            Sexp::Integer(1),
            Sexp::Integer(2)
        ]))
    );
    assert_eq!(
        apply(parse("[1 (+ 1 1)]"), &mut env, &mut out),
        Ok(Sexp::Vec(vec![Sexp::Integer(1), Sexp::Integer(2)]))
    );
    assert_eq!(
        apply(parse("list"), &mut env, &mut out),
        Ok(Sexp::Func(Builtin::List))
    );
    assert_eq!(apply(parse("7"), &mut env, &mut out), Ok(Sexp::Integer(7)));
    assert_eq!(
        apply(parse("nothing"), &mut env, &mut out),
        Err(EvalError::UnknownSymbol("nothing".to_string()))
    );
}

#[test]
fn the_default_environment_binds_arithmetic_only() {
    let mut env = Env::default();
    assert_eq!(run_in("(+ 1 (* 2 (- 4 (/ 4 2))))", &mut env), Ok(Sexp::Integer(5)));
    assert_eq!(
        run_in("(list 1)", &mut env),
        Err(EvalError::UnknownSymbol("list".to_string()))
    );
}

#[test]
fn a_scope_inside_another_sees_it_and_leaves_it_alone() {
    let mut outer = Env::new(None);
    outer.set("a".to_string(), &Sexp::Integer(1));
    outer.set("b".to_string(), &Sexp::Integer(2));
    let mut inner = Env::new(Some(outer.clone()));
    assert_eq!(inner.get(&"a".to_string()), Some(Sexp::Integer(1)));
    inner.set("a".to_string(), &Sexp::Integer(10));
    inner.set("c".to_string(), &Sexp::Integer(3));
    assert_eq!(inner.get(&"a".to_string()), Some(Sexp::Integer(10)));
    assert_eq!(inner.get(&"b".to_string()), Some(Sexp::Integer(2)));
    assert_eq!(inner.get(&"c".to_string()), Some(Sexp::Integer(3)));
    assert_eq!(inner.get(&"d".to_string()), None);
    assert_eq!(outer.get(&"a".to_string()), Some(Sexp::Integer(1)));
    assert_eq!(outer.get(&"c".to_string()), None);
}

#[test]
fn the_last_binding_of_a_name_wins() {
    let mut env = Env::new(None);
    env.set("a".to_string(), &Sexp::Integer(1));
    env.set("b".to_string(), &Sexp::Integer(2));
    env.set("a".to_string(), &Sexp::Integer(3));
    assert_eq!(env.get(&"a".to_string()), Some(Sexp::Integer(3)));
    assert_eq!(env.get(&"b".to_string()), Some(Sexp::Integer(2)));
}

use mal_rust::builtins::{
    add, count, divide, env_core, eq, ge, gt, is_empty, is_list, le, list, lt, multiply, pr_str,
    prn, str, subtract,
};
use mal_rust::env::{evaluate, EvalError};
use mal_rust::order::{compare, Order};
use mal_rust::tokenizer::Tokenizer;
use mal_rust::types::{Builtin, Sexp};

fn value(text: &str) -> Result<Sexp, EvalError> {
    let ast = Sexp::read_from(&mut Tokenizer::new(text.to_string())).unwrap();
    let mut out = Vec::new();
    evaluate(ast, &mut env_core(), &mut out)
}

fn text(s: &str) -> Sexp {
    Sexp::String(s.to_string())
}

#[test]
fn the_root_environment_binds_every_primitive() {
    let env = env_core();
    let all = [
        Builtin::Add,
        Builtin::Subtract,
        Builtin::Multiply,
        Builtin::Divide,
        Builtin::Prn,
        Builtin::Println,
        Builtin::PrStr,
        Builtin::Str,
        Builtin::List,
        Builtin::IsList,
        Builtin::IsEmpty,
        Builtin::Count,
        Builtin::Eq,
        Builtin::Lt,
        Builtin::Gt,
        Builtin::Le,
        Builtin::Ge,
    ];
    for b in all {
        assert_eq!(env.get(&b.name().to_string()), Some(Sexp::Func(b)));
    }
    let names = [
        "+", "-", "*", "/", "prn", "println", "pr-str", "str", "list", "list?", "empty?", "count",
        "=", "<", ">", "<=", ">=",
    ];
    for (b, name) in all.iter().zip(names) {
        assert_eq!(b.name(), name);
    }
    assert_eq!(env.get(&"def!".to_string()), None);
}

#[test]
fn the_arithmetic_primitives() {
    let args = [Sexp::Integer(9), Sexp::Integer(3)];
    assert_eq!(add(&args), Ok(Sexp::Integer(12)));
    assert_eq!(subtract(&args), Ok(Sexp::Integer(6)));
    assert_eq!(multiply(&args), Ok(Sexp::Integer(27)));
    assert_eq!(divide(&args), Ok(Sexp::Integer(3)));
    let wrong = [Sexp::Integer(9), Sexp::Bool(true)];
    assert_eq!(
        add(&wrong),
        Err(EvalError::ArityOrTypeMismatch(
            Builtin::Add,
            vec![Sexp::Integer(9), Sexp::Bool(true)]
        ))
    );
    assert_eq!(
        divide(&[Sexp::Integer(9), Sexp::Integer(0)]),
        Err(EvalError::DivisionByZero)
    );
    assert_eq!(
        Builtin::Multiply.call(&args, &mut Vec::new()),
        Ok(Sexp::Integer(27))
    );
}

#[test]
fn equality_of_values() {
    assert_eq!(value("(= 1 1)"), Ok(Sexp::Bool(true)));
    assert_eq!(value("(= 1 2)"), Ok(Sexp::Bool(false)));
    assert_eq!(value("(= 1 nil)"), Ok(Sexp::Bool(false)));
    assert_eq!(value("(= (list 1 2) (list 1 2))"), Ok(Sexp::Bool(true)));
    assert_eq!(value("(= (list 1 2) (list 1 3))"), Ok(Sexp::Bool(false)));
    assert_eq!(value("(= (list) ())"), Ok(Sexp::Bool(true)));
    assert_eq!(value("(= + +)"), Ok(Sexp::Bool(true)));
    assert_eq!(value("(= + -)"), Ok(Sexp::Bool(false)));
    assert_eq!(
        eq(&[text("a"), text("a")]),
        Ok(Sexp::Bool(true))
    );
    assert_eq!(
        eq(&[Sexp::Integer(1)]),
        Err(EvalError::ArityOrTypeMismatch(
            Builtin::Eq,
            vec![Sexp::Integer(1)]
        ))
    );
}

#[test]
fn the_order_of_integers() {
    assert_eq!(value("(< 1 2)"), Ok(Sexp::Bool(true)));
    assert_eq!(value("(< 2 2)"), Ok(Sexp::Bool(false)));
    assert_eq!(value("(< 3 2)"), Ok(Sexp::Bool(false)));
    assert_eq!(value("(<= 1 2)"), Ok(Sexp::Bool(true)));
    assert_eq!(value("(<= 2 2)"), Ok(Sexp::Bool(true)));
    assert_eq!(value("(<= 3 2)"), Ok(Sexp::Bool(false)));
    assert_eq!(value("(> 1 2)"), Ok(Sexp::Bool(false)));
    assert_eq!(value("(> 2 2)"), Ok(Sexp::Bool(false)));
    assert_eq!(value("(> 3 2)"), Ok(Sexp::Bool(true)));
    assert_eq!(value("(>= 1 2)"), Ok(Sexp::Bool(false)));
    assert_eq!(value("(>= 2 2)"), Ok(Sexp::Bool(true)));
    assert_eq!(value("(>= 3 2)"), Ok(Sexp::Bool(true)));
    assert_eq!(value("(< -5 3)"), Ok(Sexp::Bool(true)));
    let pair = [Sexp::Integer(1), Sexp::Integer(2)];
    assert_eq!(lt(&pair), Ok(Sexp::Bool(true)));
    assert_eq!(le(&pair), Ok(Sexp::Bool(true)));
    assert_eq!(gt(&pair), Ok(Sexp::Bool(false)));
    assert_eq!(ge(&pair), Ok(Sexp::Bool(false)));
    for f in [lt, le, gt, ge] {
        assert!(matches!(
            f(&[]),
            Err(EvalError::ArityOrTypeMismatch(_, _))
        ));
    }
}

#[test]
fn the_order_goes_by_variant_first() {
    let ascending = vec![
        Sexp::Integer(100),
        Sexp::Bool(false),
        Sexp::Symbol("a".to_string()),
        Sexp::List(vec![]),
        Sexp::Vec(vec![]),
        Sexp::MapLiteral(vec![]),
        Sexp::Keyword("a".to_string()),
        text("a"),
        Sexp::Func(Builtin::Add),
        Sexp::Nil,
    ];
    for i in 0..ascending.len() {
        for j in 0..ascending.len() {
            let expected = if i < j {
                Order::Less
            } else if i == j {
                Order::Equal
            } else {
                Order::Greater
            };
            assert_eq!(compare(&ascending[i], &ascending[j]), expected);
        }
    }
}

#[test]
fn the_order_within_a_variant_goes_by_contents() {
    assert_eq!(compare(&Sexp::Bool(false), &Sexp::Bool(true)), Order::Less);
    assert_eq!(compare(&text("abc"), &text("abd")), Order::Less);
    assert_eq!(compare(&text("ab"), &text("abc")), Order::Less);
    assert_eq!(compare(&text("b"), &text("abc")), Order::Greater);
    assert_eq!(compare(&text(""), &text("")), Order::Equal);
    assert_eq!(compare(&text("é"), &text("z")), Order::Greater);
    assert_eq!(
        compare(
            &Sexp::List(vec![Sexp::Integer(1), Sexp::Integer(2)]),
            &Sexp::List(vec![Sexp::Integer(1), Sexp::Integer(3)])
        ),
        Order::Less
    );
    assert_eq!(
        compare(
            &Sexp::List(vec![Sexp::Integer(1)]),
            &Sexp::List(vec![Sexp::Integer(1), Sexp::Integer(0)])
        ),
        Order::Less
    );
    assert_eq!(
        compare(
            &Sexp::List(vec![Sexp::Integer(2)]),
            &Sexp::List(vec![Sexp::Integer(1), Sexp::Integer(0)])
        ),
        Order::Greater
    );
    assert_eq!(
        compare(&Sexp::Func(Builtin::Add), &Sexp::Func(Builtin::Ge)),
        Order::Less
    );
    assert_eq!(
        compare(&Sexp::Func(Builtin::Count), &Sexp::Func(Builtin::Count)),
        Order::Equal
    );
}

#[test]
fn comparing_both_ways_agrees() {
    let values = vec![
        Sexp::Integer(-1),
        Sexp::Integer(3),
        Sexp::Bool(true),
        Sexp::Symbol("x".to_string()),
        Sexp::Symbol("xy".to_string()),
        Sexp::List(vec![Sexp::Integer(1)]),
        Sexp::List(vec![Sexp::Integer(1), Sexp::Nil]),
        Sexp::Vec(vec![Sexp::Integer(1)]),
        Sexp::Nil,
    ];
    for a in &values {
        for b in &values {
            let forth = compare(a, b);
            let back = compare(b, a);
            assert_eq!(forth == Order::Equal, a == b);
            assert_eq!(forth == Order::Less, back == Order::Greater);
            assert_eq!(forth == Order::Greater, back == Order::Less);
        }
    }
}

#[test]
fn list_makes_a_list_of_its_arguments() {
    assert_eq!(value("(list)"), Ok(Sexp::List(vec![])));
    assert_eq!(
        value("(list 1 (+ 1 1) nil)"),
        Ok(Sexp::List(vec![
            Sexp::Integer(1),
            Sexp::Integer(2),
            Sexp::Nil
        ]))
    );
    assert_eq!(
        list(&[Sexp::Integer(1)]),
        Ok(Sexp::List(vec![Sexp::Integer(1)]))
    );
}

#[test]
fn list_questions() {
    assert_eq!(value("(list? (list))"), Ok(Sexp::Bool(true)));
    assert_eq!(value("(list? (list 1))"), Ok(Sexp::Bool(true)));
    assert_eq!(value("(list? 1)"), Ok(Sexp::Bool(false)));
    assert_eq!(value("(list? [])"), Ok(Sexp::Bool(false)));
    assert_eq!(value("(list?)"), Ok(Sexp::Bool(false)));
    assert_eq!(value("(list? (list) (list))"), Ok(Sexp::Bool(false)));
    assert_eq!(value("(empty? (list))"), Ok(Sexp::Bool(true)));
    assert_eq!(value("(empty? (list 1))"), Ok(Sexp::Bool(false)));
    assert_eq!(value("(empty? 1)"), Ok(Sexp::Bool(false)));
    assert_eq!(value("(empty? [])"), Ok(Sexp::Bool(false)));
    assert_eq!(value("(empty?)"), Ok(Sexp::Bool(false)));
    assert_eq!(is_list(&[Sexp::List(vec![])]), Ok(Sexp::Bool(true)));
    assert_eq!(is_empty(&[Sexp::List(vec![])]), Ok(Sexp::Bool(true)));
}

#[test]
fn count_is_the_length_of_a_list() {
    assert_eq!(value("(count (list))"), Ok(Sexp::Integer(0)));
    assert_eq!(value("(count (list 1 2 3))"), Ok(Sexp::Integer(3)));
    assert_eq!(
        count(&[Sexp::List(vec![Sexp::Nil, Sexp::Nil])]),
        Ok(Sexp::Integer(2))
    );
    assert_eq!(
        value("(count)"),
        Err(EvalError::ArityOrTypeMismatch(Builtin::Count, vec![]))
    );
    assert_eq!(
        value("(count [])"),
        Err(EvalError::ArityOrTypeMismatch(
            Builtin::Count,
            vec![Sexp::Vec(vec![])]
        ))
    );
}

#[test]
fn strings_for_the_machine_and_for_the_reader() {
    let args = [
        Sexp::Integer(1),
        text("a\"b"),
        Sexp::List(vec![text("c"), Sexp::Nil]),
    ];
    assert_eq!(pr_str(&args), Ok(text("1 \"a\\\"b\" (\"c\" nil)")));
    assert_eq!(str(&args), Ok(text("1a\"b(\"c\" nil)")));
    assert_eq!(pr_str(&[]), Ok(text("")));
    assert_eq!(str(&[]), Ok(text("")));
    assert_eq!(value("(pr-str 1 (list 2 3) nil)"), Ok(text("1 (2 3) nil")));
    assert_eq!(value("(str 1 (list 2 3) nil)"), Ok(text("1(2 3)nil")));
    assert_eq!(value("(str (pr-str 1 2) (str 3 4))"), Ok(text("1 234")));
}

#[test]
fn printing_adds_one_line() {
    let args = [Sexp::Integer(1), text("a b"), Sexp::Nil];
    let mut out = Vec::new();
    assert_eq!(prn(&args, &mut out), Ok(Sexp::Nil));
    assert_eq!(mal_rust::builtins::println(&args, &mut out), Ok(Sexp::Nil));
    assert_eq!(prn(&[], &mut out), Ok(Sexp::Nil));
    assert_eq!(
        out,
        vec![
            "1 \"a b\" nil".to_string(),
            "1a bnil".to_string(),
            "".to_string()
        ]
    );
    assert_eq!(
        Builtin::Println.call(&[text("x")], &mut out),
        Ok(Sexp::Nil)
    );
    assert_eq!(out.len(), 4);
    assert_eq!(out[3], "x");
}

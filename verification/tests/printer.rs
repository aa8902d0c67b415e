use mal_rust::decimal::{decimal_string, integer_text, parse_integer};
use mal_rust::types::{clone_items, tokens_to_string, Builtin, Sexp};

#[test]
fn prints_integers_in_decimal() {
    assert_eq!(Sexp::Integer(0).to_text(), "0");
    assert_eq!(Sexp::Integer(7).to_text(), "7");
    assert_eq!(Sexp::Integer(10).to_text(), "10");
    assert_eq!(Sexp::Integer(-17).to_text(), "-17");
    assert_eq!(Sexp::Integer(i64::MAX).to_text(), "9223372036854775807");
    assert_eq!(Sexp::Integer(i64::MIN).to_text(), "-9223372036854775808");
}

#[test]
fn decimal_string_agrees_with_the_standard_library() {
    for n in [0i64, 1, -1, 9, 10, 99, 100, -100, 123456789, i64::MAX, i64::MIN] {
        assert_eq!(decimal_string(n), format!("{}", n));
    }
}

#[test]
fn parses_integer_texts() {
    let chars: Vec<char> = "-42".chars().collect();
    assert!(integer_text(&chars));
    assert_eq!(parse_integer(&chars), Some(-42));
    let chars: Vec<char> = "0000000000000000000000012".chars().collect();
    assert!(integer_text(&chars));
    assert_eq!(parse_integer(&chars), Some(12));
    let chars: Vec<char> = "9223372036854775808".chars().collect();
    assert!(integer_text(&chars));
    assert_eq!(parse_integer(&chars), None);
    for text in ["", "-", "1-", "--1", "+1", "1.0", "a", "١٢"] {
        let chars: Vec<char> = text.chars().collect();
        assert!(!integer_text(&chars));
    }
}

#[test]
fn prints_the_words() {
    assert_eq!(Sexp::Bool(true).to_text(), "true");
    assert_eq!(Sexp::Bool(false).to_text(), "false");
    assert_eq!(Sexp::Nil.to_text(), "nil");
    assert_eq!(Sexp::Func(Builtin::Add).to_text(), "<func>");
    assert_eq!(Sexp::Func(Builtin::Count).to_text(), "<func>");
}

#[test]
fn prints_symbols_and_keywords() {
    assert_eq!(Sexp::Symbol("abc".to_string()).to_text(), "abc");
    assert_eq!(Sexp::Keyword("abc".to_string()).to_text(), ":abc");
}

#[test]
fn prints_strings_as_literals() {
    assert_eq!(Sexp::String("".to_string()).to_text(), "\"\"");
    assert_eq!(Sexp::String("abc".to_string()).to_text(), "\"abc\"");
    assert_eq!(
        Sexp::String("a\"b\\c\nd".to_string()).to_text(),
        "\"a\\\"b\\\\c\\nd\""
    );
}

#[test]
fn prints_sequences_between_their_brackets() {
    let items = vec![Sexp::Integer(1), Sexp::Symbol("a".to_string()), Sexp::Nil];
    assert_eq!(Sexp::List(clone_items(&items)).to_text(), "(1 a nil)");
    assert_eq!(Sexp::Vec(clone_items(&items)).to_text(), "[1 a nil]");
    assert_eq!(Sexp::MapLiteral(clone_items(&items)).to_text(), "{1 a nil}");
    assert_eq!(Sexp::List(vec![]).to_text(), "()");
    assert_eq!(Sexp::List(vec![Sexp::Integer(1)]).to_text(), "(1)");
    assert_eq!(
        Sexp::List(vec![Sexp::List(vec![]), Sexp::Vec(vec![Sexp::List(vec![])])]).to_text(),
        "(() [()])"
    );
}

#[test]
fn joins_texts_with_one_space() {
    assert_eq!(tokens_to_string(&[]), "");
    assert_eq!(tokens_to_string(&[Sexp::Integer(1)]), "1");
    assert_eq!(
        tokens_to_string(&[
            Sexp::Integer(1),
            Sexp::String("x".to_string()),
            Sexp::List(vec![Sexp::Nil])
        ]),
        "1 \"x\" (nil)"
    );
}

#[test]
fn a_copy_is_equal_to_what_was_copied() {
    let value = Sexp::List(vec![
        Sexp::Integer(1),
        Sexp::Vec(vec![Sexp::String("s".to_string()), Sexp::Keyword("k".to_string())]),
        Sexp::MapLiteral(vec![Sexp::Bool(true), Sexp::Func(Builtin::Lt)]),
    ]);
    let copy = value.clone();
    assert_eq!(copy, value);
    assert_eq!(copy.to_text(), value.to_text());
}

#[test]
fn equality_is_by_variant_and_contents() {
    assert_eq!(Sexp::Integer(1), Sexp::Integer(1));
    assert_ne!(Sexp::Integer(1), Sexp::Integer(2));
    assert_ne!(Sexp::Integer(1), Sexp::Bool(true));
    assert_ne!(Sexp::Symbol("a".to_string()), Sexp::Keyword("a".to_string()));
    assert_ne!(Sexp::Symbol("a".to_string()), Sexp::String("a".to_string()));
    assert_ne!(
        Sexp::List(vec![Sexp::Integer(1)]),
        Sexp::Vec(vec![Sexp::Integer(1)])
    );
    assert_ne!(
        Sexp::List(vec![Sexp::Integer(1)]),
        Sexp::List(vec![Sexp::Integer(1), Sexp::Integer(1)])
    );
    assert_ne!(Sexp::Func(Builtin::Add), Sexp::Func(Builtin::Subtract));
    assert_eq!(Sexp::Nil, Sexp::Nil);
}

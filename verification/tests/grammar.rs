use mal_rust::decimal::integer_text;
use mal_rust::text::{
    atom_char, begins_with, chars_of, digit, same_text, separator, special, string_of, whitespace,
};
use mal_rust::tokenizer::Tokenizer;
use regex::Regex;

const TOKEN: &str = r#"[\s,]*(~@|[\[\]{}()'`~^@]|"(?:\\.|[^\\"])*"?|;.*|[^\s\[\]{}('"`,;)]+)"#;

fn tokens_by_pattern(pattern: &Regex, text: &str) -> Vec<String> {
    pattern
        .captures_iter(text)
        .map(|c| c.get(1).unwrap().as_str().to_string())
        .collect()
}

fn tokens(text: &str) -> Vec<String> {
    Tokenizer::new(text.to_string()).tokens().clone()
}

#[test]
fn the_tokens_are_those_of_the_token_pattern() {
    let texts = [
        "",
        " ",
        ",,,",
        "a",
        "abc def",
        "(+ 1 2)",
        "(+ 1 2) ;; comment",
        ";; comment\n(+ 1 2)",
        "; one\n; two\n3",
        ";",
        "~@(a b)",
        "~@",
        "~ @",
        "@~",
        "'a `b ~c ^d @e",
        "a'b",
        "a~b^c@d",
        "[1,2,,3]",
        "{:a 1 :b [2 3]}",
        "\"a string\"",
        "\"with \\\" quote\"",
        "\"with \\\\ backslash\" x",
        "\"two\nlines\"",
        "\"unterminated",
        "\"unterminated \\",
        "\"backslash before line feed \\\nrest\"",
        "\"a\"\"b\"",
        "a\"b\"c",
        "\"\"",
        "\"",
        "\\",
        "a\\b",
        "(\\)",
        "x;y",
        "x ;y\nz",
        "(def! nil?   (fn* [x] (= x nil  )))",
        "\t\r\n (a\u{a0}b\u{2003}c\u{3000}d\u{85}e)",
        "a\u{200b}b",
        "λ → ∀x",
        "\"λ\" 'é",
        "  (  + 2   (*  3  4)  )  ",
        "))((",
        "^{:a 1} [1 2 3]",
        "-12 -a +5 1.5 1e3",
    ];
    let pattern = Regex::new(TOKEN).unwrap();
    for text in texts {
        assert_eq!(tokens(text), tokens_by_pattern(&pattern, text), "in {:?}", text);
    }
}

#[test]
fn every_pair_of_short_texts_has_the_tokens_of_the_token_pattern() {
    let pieces = [
        "", " ", ",", "\n", "a", "1", "-", "~", "@", "~@", "^", "'", "`", "(", ")", "[", "]", "{",
        "}", "\"", "\\", ";", ":", "\u{2028}", "é",
    ];
    let pattern = Regex::new(TOKEN).unwrap();
    for a in pieces {
        for b in pieces {
            for c in pieces {
                let text = format!("{}{}{}", a, b, c);
                assert_eq!(tokens(&text), tokens_by_pattern(&pattern, &text), "in {:?}", text);
            }
        }
    }
}

#[test]
fn the_comments_and_keywords_among_tokens_are_those_of_their_patterns() {
    let comment = Regex::new(r"^;.*$").unwrap();
    let keyword = Regex::new(r"^:.+$").unwrap();
    let texts = ["a ;b :c : :: ;", "(:a ;; :b\n :c)", ":;x", "; :a", ":\"s\""];
    for text in texts {
        for token in tokens(text) {
            let first = token.chars().next();
            assert_eq!(first == Some(';'), comment.is_match(&token), "{:?}", token);
            assert_eq!(
                first == Some(':') && token.chars().count() > 1,
                keyword.is_match(&token),
                "{:?}",
                token
            );
        }
    }
}

#[test]
fn the_integer_texts_are_those_of_the_integer_pattern() {
    let integer = Regex::new(r"^-?[0-9]+$").unwrap();
    let texts = [
        "", "0", "1", "-1", "--1", "-", "1-", "12a", "a12", "007", "-007", "1 2", "+1", "1.0",
        "-0", "99999999999999999999",
    ];
    for text in texts {
        let chars: Vec<char> = text.chars().collect();
        assert_eq!(integer_text(&chars), integer.is_match(text), "{:?}", text);
    }
}

#[test]
fn white_space_is_what_the_standard_library_calls_white_space() {
    for code in 0..=0x10ffffu32 {
        if let Some(c) = char::from_u32(code) {
            assert_eq!(whitespace(c), c.is_whitespace(), "{:?}", c);
        }
    }
}

#[test]
fn the_character_classes() {
    for c in [' ', '\t', '\n', ','] {
        assert!(separator(c));
        assert!(!atom_char(c));
    }
    for c in ['[', ']', '{', '}', '(', ')', '\'', '`', '~', '^', '@'] {
        assert!(special(c));
        assert!(!separator(c));
    }
    for c in ['~', '^', '@', 'a', '0', '-', ':', '\\', 'é'] {
        assert!(atom_char(c));
    }
    for c in ['[', ']', '{', '}', '(', ')', '\'', '`', '"', ';'] {
        assert!(!atom_char(c));
    }
    for c in '0'..='9' {
        assert!(digit(c));
    }
    for c in ['/', ':', 'a', '٣'] {
        assert!(!digit(c));
    }
}

#[test]
fn texts_and_their_characters() {
    assert_eq!(chars_of("aé→"), vec!['a', 'é', '→']);
    assert_eq!(chars_of(""), Vec::<char>::new());
    let chars = vec!['a', 'é', '→', 'b'];
    assert_eq!(string_of(&chars, 0, 4), "aé→b");
    assert_eq!(string_of(&chars, 1, 3), "é→");
    assert_eq!(string_of(&chars, 2, 2), "");
    assert!(same_text("", ""));
    assert!(same_text("aé", "aé"));
    assert!(!same_text("aé", "ae"));
    assert!(!same_text("a", "ab"));
    assert!(!same_text("ab", "a"));
    assert!(begins_with(";x", ';'));
    assert!(begins_with("é", 'é'));
    assert!(!begins_with("x;", ';'));
    assert!(!begins_with("", ';'));
}

//! Printing and reading are inverse: the text of an expression, read back, is
//! the expression.

use crate::decimal::{
    decimal, digits, integer_of, is_integer_text, lemma_decimal_denotes, lemma_digits_denote,
};
use crate::env::Scope;
use crate::parser::{
    collect, finish, is_comment_token, is_keyword_token, read_form, read_items, Closer, Items,
    ParseFault, Reading,
};
use crate::repl::{rep_from, Turn};
use crate::semantics::{eval, kept};
use crate::text::{is_atom_char, is_digit, is_separator, is_special};
use crate::tokenizer::{
    atom_end, lemma_skip_separators, skip_separators, string_end, token_end, tokenize,
    tokens_from,
};
use crate::types::{joined_upto, text_of, Form};
use vstd::prelude::*;

verus! {

/// The characters of the words that the reader knows.
proof fn lemma_words()
    ensures
        "("@ == seq!['('],
        ")"@ == seq![')'],
        "["@ == seq!['['],
        "]"@ == seq![']'],
        "{"@ == seq!['{'],
        "}"@ == seq!['}'],
        "'"@ == seq!['\''],
        "`"@ == seq!['`'],
        "~"@ == seq!['~'],
        "@"@ == seq!['@'],
        "^"@ == seq!['^'],
        "~@"@ == seq!['~', '@'],
        "true"@ == seq!['t', 'r', 'u', 'e'],
        "false"@ == seq!['f', 'a', 'l', 's', 'e'],
        "nil"@ == seq!['n', 'i', 'l'],
{
    reveal_strlit("(");
    reveal_strlit(")");
    reveal_strlit("[");
    reveal_strlit("]");
    reveal_strlit("{");
    reveal_strlit("}");
    reveal_strlit("'");
    reveal_strlit("`");
    reveal_strlit("~");
    reveal_strlit("@");
    reveal_strlit("^");
    reveal_strlit("~@");
    reveal_strlit("true");
    reveal_strlit("false");
    reveal_strlit("nil");
    assert("("@ =~= seq!['(']);
    assert(")"@ =~= seq![')']);
    assert("["@ =~= seq!['[']);
    assert("]"@ =~= seq![']']);
    assert("{"@ =~= seq!['{']);
    assert("}"@ =~= seq!['}']);
    assert("'"@ =~= seq!['\'']);
    assert("`"@ =~= seq!['`']);
    assert("~"@ =~= seq!['~']);
    assert("@"@ =~= seq!['@']);
    assert("^"@ =~= seq!['^']);
    assert("~@"@ =~= seq!['~', '@']);
    assert("true"@ =~= seq!['t', 'r', 'u', 'e']);
    assert("false"@ =~= seq!['f', 'a', 'l', 's', 'e']);
    assert("nil"@ =~= seq!['n', 'i', 'l']);
}

/// An atom in the text: a token that is a run of atom characters and begins
/// with none of the characters that are a token by themselves.
pub open spec fn is_atom_text(t: Seq<char>) -> bool {
    &&& t.len() > 0
    &&& forall|i: int| 0 <= i < t.len() ==> is_atom_char(#[trigger] t[i])
    &&& !is_special(t[0])
}

/// An atom that is read as a symbol: none of the words `true`, `false` and
/// `nil`, no integer and no keyword.
pub open spec fn is_plain_symbol(s: Seq<char>) -> bool {
    &&& is_atom_text(s)
    &&& s != "true"@
    &&& s != "false"@
    &&& s != "nil"@
    &&& !is_integer_text(s)
    &&& !is_keyword_token(s)
}

/// The string literal whose body goes on at `i` ends with the text `s`, at
/// its closing quote.
pub open spec fn string_closed(s: Seq<char>, i: int) -> bool
    decreases s.len() - i,
{
    if !(0 <= i < s.len()) {
        false
    } else if s[i] == '"' {
        i + 1 == s.len()
    } else if s[i] == '\\' {
        i + 1 < s.len() && s[i + 1] != '\n' && string_closed(s, i + 2)
    } else {
        string_closed(s, i + 1)
    }
}

/// A string literal from its opening quote to its closing quote.
pub open spec fn is_closed_string(s: Seq<char>) -> bool {
    s.len() > 0 && s[0] == '"' && string_closed(s, 1)
}

/// A text that by itself is one string literal, closed or not.
pub open spec fn is_string_token(s: Seq<char>) -> bool {
    s.len() > 0 && s[0] == '"' && string_end(s, 1) == s.len()
}

/// A symbol that is read back as itself wherever it stands: an atom that is
/// read as a symbol, or a closed string literal, which the reader takes for
/// a symbol too.
pub open spec fn is_readable_symbol(s: Seq<char>) -> bool {
    is_plain_symbol(s) || is_closed_string(s)
}

/// The expressions that are read back as themselves wherever they stand:
/// integers, `true`, `false` and `nil`, symbols that are read back as
/// themselves, keywords that with their colon are an atom, and lists,
/// vectors and map literals of such expressions.
pub open spec fn readable(f: Form) -> bool
    decreases f,
{
    match f {
        Form::Integer(_) => true,
        Form::Bool(_) => true,
        Form::Nil => true,
        Form::Symbol(s) => is_readable_symbol(s),
        Form::Keyword(s) => s.len() > 0 && forall|i: int|
            0 <= i < s.len() ==> is_atom_char(#[trigger] s[i]),
        Form::List(v) => forall|i: int| 0 <= i < v.len() ==> readable(#[trigger] v[i]),
        Form::Vec(v) => forall|i: int| 0 <= i < v.len() ==> readable(#[trigger] v[i]),
        Form::MapLiteral(v) => forall|i: int| 0 <= i < v.len() ==> readable(#[trigger] v[i]),
        Form::String(_) => false,
        Form::Func(_) => false,
    }
}

/// The tokens of the first `n` expressions of `v`.
pub open spec fn tokens_upto(v: Seq<Form>, n: int) -> Seq<Seq<char>>
    decreases v, n,
{
    if n <= 0 || n > v.len() {
        Seq::empty()
    } else {
        tokens_upto(v, n - 1) + tokens_of(v[n - 1])
    }
}

/// The tokens of the text of an expression.
pub open spec fn tokens_of(f: Form) -> Seq<Seq<char>>
    decreases f, 0int,
{
    match f {
        Form::List(v) => seq!["("@] + tokens_upto(v, v.len() as int) + seq![")"@],
        Form::Vec(v) => seq!["["@] + tokens_upto(v, v.len() as int) + seq!["]"@],
        Form::MapLiteral(v) => seq!["{"@] + tokens_upto(v, v.len() as int) + seq!["}"@],
        _ => seq![text_of(f)],
    }
}

/// The part `t` stands in `s` at `i`.
pub open spec fn stands<T>(s: Seq<T>, i: int, t: Seq<T>) -> bool {
    0 <= i && i + t.len() <= s.len() && s.subrange(i, i + t.len()) == t
}

/// No atom goes on at `j`: the text ends there, or what stands there cannot
/// stand inside an atom.
pub open spec fn atom_stops(s: Seq<char>, j: int) -> bool {
    j >= s.len() || !is_atom_char(s[j])
}

/// What is made of two parts stands where the first part stands and the
/// second part stands behind it.
proof fn lemma_stands_split<T>(s: Seq<T>, i: int, a: Seq<T>, b: Seq<T>)
    requires
        stands(s, i, a + b),
    ensures
        stands(s, i, a),
        stands(s, i + a.len(), b),
{
    let whole = s.subrange(i, i + (a + b).len());
    assert(s.subrange(i, i + a.len()) =~= whole.subrange(0, a.len() as int));
    assert(whole.subrange(0, a.len() as int) =~= a);
    assert(s.subrange(i + a.len(), i + a.len() + b.len()) =~= whole.subrange(
        a.len() as int,
        (a + b).len() as int,
    ));
    assert(whole.subrange(a.len() as int, (a + b).len() as int) =~= b);
}

/// A run of atom characters up to a place where no atom goes on is where the
/// atom ends.
proof fn lemma_atom_run(s: Seq<char>, a: int, b: int)
    requires
        0 <= a <= b <= s.len(),
        forall|k: int| a <= k < b ==> is_atom_char(#[trigger] s[k]),
        atom_stops(s, b),
    ensures
        atom_end(s, a) == b,
    decreases b - a,
{
    if a < b {
        lemma_atom_run(s, a + 1, b);
    }
}

/// The tokens from a separator on are the tokens from behind it on.
proof fn lemma_tokens_skip(s: Seq<char>, i: int)
    requires
        0 <= i < s.len(),
        is_separator(s[i]),
    ensures
        tokens_from(s, i) == tokens_from(s, i + 1),
{
    lemma_skip_separators(s, i + 1);
}

/// Where an atom stands and no atom goes on behind it, it is the next token.
proof fn lemma_atom_token(s: Seq<char>, i: int, t: Seq<char>)
    requires
        is_atom_text(t),
        stands(s, i, t),
        atom_stops(s, i + t.len()),
    ensures
        tokens_from(s, i) == seq![t] + tokens_from(s, i + t.len()),
{
    assert forall|k: int| i <= k < i + t.len() implies is_atom_char(#[trigger] s[k]) by {
        assert(s[k] == s.subrange(i, i + t.len())[k - i]);
        assert(is_atom_char(t[k - i]));
    }
    assert(s[i] == t[0]);
    assert(skip_separators(s, i) == i);
    lemma_atom_run(s, i + 1, i + t.len());
    assert(token_end(s, i) == i + t.len());
}

/// Where a bracket stands, it is the next token.
proof fn lemma_bracket_token(s: Seq<char>, i: int, c: char)
    requires
        0 <= i < s.len(),
        s[i] == c,
        c == '(' || c == ')' || c == '[' || c == ']' || c == '{' || c == '}',
    ensures
        tokens_from(s, i) == seq![seq![c]] + tokens_from(s, i + 1),
{
    assert(skip_separators(s, i) == i);
    assert(token_end(s, i) == i + 1);
    assert(s.subrange(i, i + 1) =~= seq![c]);
}

/// The canonical text of an integer is an atom.
proof fn lemma_decimal_is_atom(n: int)
    ensures
        is_atom_text(decimal(n)),
        decimal(n)[0] == '-' || is_digit(decimal(n)[0]),
{
    let t = decimal(n);
    if n < 0 {
        let m = (-n) as nat;
        lemma_digits_denote(m);
        assert forall|i: int| 0 <= i < t.len() implies is_atom_char(#[trigger] t[i]) by {
            if i > 0 {
                assert(t[i] == digits(m)[i - 1]);
                assert(is_digit(digits(m)[i - 1]));
            }
        }
    } else {
        lemma_digits_denote(n as nat);
        assert forall|i: int| 0 <= i < t.len() implies is_atom_char(#[trigger] t[i]) by {
            assert(is_digit(digits(n as nat)[i]));
        }
        assert(is_digit(t[0]));
    }
}

/// A closed string literal ends where it ends, whatever stands behind it.
proof fn lemma_closed_string_end(s: Seq<char>, i: int, t: Seq<char>, k: int)
    requires
        stands(s, i, t),
        0 <= k,
        string_closed(t, k),
    ensures
        string_end(s, i + k) == i + t.len(),
    decreases t.len() - k,
{
    assert(s[i + k] == s.subrange(i, i + t.len())[k]);
    if t[k] == '"' {
    } else if t[k] == '\\' {
        assert(s[i + k + 1] == s.subrange(i, i + t.len())[k + 1]);
        lemma_closed_string_end(s, i, t, k + 2);
    } else {
        lemma_closed_string_end(s, i, t, k + 1);
    }
}

/// Where a closed string literal stands, it is the next token.
proof fn lemma_string_token(s: Seq<char>, i: int, t: Seq<char>)
    requires
        is_closed_string(t),
        stands(s, i, t),
    ensures
        tokens_from(s, i) == seq![t] + tokens_from(s, i + t.len()),
{
    assert(s[i] == s.subrange(i, i + t.len())[0]);
    assert(skip_separators(s, i) == i);
    lemma_closed_string_end(s, i, t, 1);
    assert(token_end(s, i) == i + t.len());
}

/// The text of a readable expression that is no sequence is one token: an
/// atom, or a closed string literal.
proof fn lemma_atom_forms(f: Form)
    requires
        readable(f),
        !(f is List),
        !(f is Vec),
        !(f is MapLiteral),
    ensures
        is_atom_text(text_of(f)) || is_closed_string(text_of(f)),
        is_closed_string(text_of(f)) ==> f is Symbol,
        tokens_of(f) == seq![text_of(f)],
{
    lemma_words();
    match f {
        Form::Integer(n) => {
            lemma_decimal_is_atom(n as int);
        },
        Form::Keyword(s) => {
            let t = text_of(f);
            assert forall|i: int| 0 <= i < t.len() implies is_atom_char(#[trigger] t[i]) by {
                if i > 0 {
                    assert(t[i] == s[i - 1]);
                }
            }
            assert(t[0] == ':');
        },
        Form::Bool(_) => {
            assert(text_of(f)[0] == 't' || text_of(f)[0] == 'f');
        },
        Form::Nil => {
            assert(text_of(f)[0] == 'n');
        },
        _ => {},
    }
}

/// The tokens of expressions that stand in a text with one space between
/// neighbours are the tokens of the expressions.
proof fn lemma_tokens_joined(v: Seq<Form>, m: int, s: Seq<char>, p: int)
    requires
        0 <= m <= v.len(),
        forall|k: int| 0 <= k < v.len() ==> readable(#[trigger] v[k]),
        stands(s, p, joined_upto(v, m)),
        atom_stops(s, p + joined_upto(v, m).len()),
    ensures
        tokens_from(s, p) == tokens_upto(v, m) + tokens_from(s, p + joined_upto(v, m).len()),
    decreases v, m,
{
    if m == 0 {
        assert(tokens_upto(v, m) + tokens_from(s, p) =~= tokens_from(s, p));
    } else if m == 1 {
        lemma_tokens(v[0], s, p);
        assert(tokens_upto(v, 0) + tokens_of(v[0]) =~= tokens_of(v[0]));
    } else {
        let before = joined_upto(v, m - 1);
        let last = text_of(v[m - 1]);
        assert(joined_upto(v, m) == (before + seq![' ']) + last);
        lemma_stands_split(s, p, before + seq![' '], last);
        lemma_stands_split(s, p, before, seq![' ']);
        let space = p + before.len();
        assert(s[space] == s.subrange(space, space + 1)[0]);
        assert(s[space] == ' ');
        lemma_tokens_joined(v, m - 1, s, p);
        lemma_tokens_skip(s, space);
        lemma_tokens(v[m - 1], s, space + 1);
        assert(tokens_upto(v, m - 1) + (tokens_of(v[m - 1]) + tokens_from(
            s,
            p + joined_upto(v, m).len(),
        )) =~= tokens_upto(v, m) + tokens_from(s, p + joined_upto(v, m).len()));
    }
}

/// The tokens of a sequence that stands in a text between its brackets are
/// the brackets and, between them, the tokens of its elements.
proof fn lemma_tokens_sequence(v: Seq<Form>, open: char, close: char, s: Seq<char>, i: int)
    requires
        forall|k: int| 0 <= k < v.len() ==> readable(#[trigger] v[k]),
        stands(s, i, seq![open] + joined_upto(v, v.len() as int) + seq![close]),
        open == '(' || open == '[' || open == '{',
        close == ')' || close == ']' || close == '}',
    ensures
        tokens_from(s, i) == seq![seq![open]] + tokens_upto(v, v.len() as int) + seq![seq![close]]
            + tokens_from(s, i + joined_upto(v, v.len() as int).len() + 2),
    decreases v, v.len() + 1,
{
    let inner = joined_upto(v, v.len() as int);
    lemma_stands_split(s, i, seq![open] + inner, seq![close]);
    lemma_stands_split(s, i, seq![open], inner);
    let end = i + 1 + inner.len();
    assert(s[i] == s.subrange(i, i + 1)[0]);
    assert(s[end] == s.subrange(end, end + 1)[0]);
    lemma_bracket_token(s, i, open);
    lemma_tokens_joined(v, v.len() as int, s, i + 1);
    lemma_bracket_token(s, end, close);
}

/// The tokens of a readable expression that stands in a text, with no atom
/// going on behind it, are the tokens of the expression.
pub proof fn lemma_tokens(f: Form, s: Seq<char>, i: int)
    requires
        readable(f),
        stands(s, i, text_of(f)),
        atom_stops(s, i + text_of(f).len()),
    ensures
        tokens_from(s, i) == tokens_of(f) + tokens_from(s, i + text_of(f).len()),
    decreases f, 0int,
{
    lemma_words();
    match f {
        Form::List(v) => {
            lemma_tokens_sequence(v, '(', ')', s, i);
        },
        Form::Vec(v) => {
            lemma_tokens_sequence(v, '[', ']', s, i);
        },
        Form::MapLiteral(v) => {
            lemma_tokens_sequence(v, '{', '}', s, i);
        },
        _ => {
            lemma_atom_forms(f);
            if is_closed_string(text_of(f)) {
                lemma_string_token(s, i, text_of(f));
            } else {
                lemma_atom_token(s, i, text_of(f));
            }
        },
    }
}

/// The tokens of the text of a readable expression.
pub proof fn lemma_tokenize_text(f: Form)
    requires
        readable(f),
    ensures
        tokenize(text_of(f)) == tokens_of(f),
{
    let s = text_of(f);
    assert(s.subrange(0, s.len() as int) =~= s);
    lemma_tokens(f, s, 0);
    lemma_skip_separators(s, s.len() as int);
    assert(tokens_from(s, s.len() as int) =~= Seq::<Seq<char>>::empty());
    assert(tokens_of(f) + Seq::<Seq<char>>::empty() =~= tokens_of(f));
}

/// The first token of a readable expression closes no sequence and is no
/// comment.
proof fn lemma_first_token(f: Form, closer: Closer)
    requires
        readable(f),
    ensures
        tokens_of(f).len() > 0,
        tokens_of(f)[0] != closer.text(),
        !is_comment_token(tokens_of(f)[0]),
{
    lemma_words();
    let first = tokens_of(f)[0];
    let close = closer.text()[0];
    assert(close == ')' || close == ']' || close == '}');
    match f {
        Form::List(_) => {
            assert(first[0] == '(');
        },
        Form::Vec(_) => {
            assert(first[0] == '[');
        },
        Form::MapLiteral(_) => {
            assert(first[0] == '{');
        },
        _ => {
            lemma_atom_forms(f);
            assert(is_atom_char(first[0]) || first[0] == '"');
        },
    }
}

/// Reading a token that is the text of a readable expression which is no
/// sequence gives the expression.
proof fn lemma_read_atom_form(f: Form, ts: Seq<Seq<char>>, pos: int)
    requires
        readable(f),
        !(f is List),
        !(f is Vec),
        !(f is MapLiteral),
        0 <= pos < ts.len(),
        ts[pos] == text_of(f),
    ensures
        read_form(ts, pos) == (Reading { result: Ok(f), next: pos + 1 }),
{
    lemma_words();
    lemma_atom_forms(f);
    let t = text_of(f);
    assert((is_atom_char(t[0]) && !is_special(t[0])) || t[0] == '"');
    match f {
        Form::Integer(n) => {
            lemma_decimal_is_atom(n as int);
            lemma_decimal_denotes(n as int);
            assert(integer_of(t) == Some(n));
        },
        Form::Symbol(s) => {
            if is_closed_string(s) {
                assert(!is_integer_text(t)) by {
                    if is_integer_text(t) {
                        assert(is_digit(t[0]));
                    }
                }
            }
        },
        Form::Keyword(s) => {
            assert(t[0] == ':');
            assert(!is_integer_text(t)) by {
                if is_integer_text(t) {
                    assert(is_digit(t[0]));
                }
            }
            assert(t.skip(1) =~= s);
        },
        _ => {},
    }
}

/// The tokens of each of the first `n` expressions of `v` stand where the
/// tokens of the expressions before it end.
proof fn lemma_element_tokens(v: Seq<Form>, n: int, k: int, ts: Seq<Seq<char>>, base: int)
    requires
        0 <= k < n <= v.len(),
        stands(ts, base, tokens_upto(v, n)),
    ensures
        stands(ts, base + tokens_upto(v, k).len(), tokens_of(v[k])),
        tokens_upto(v, k + 1) == tokens_upto(v, k) + tokens_of(v[k]),
        tokens_upto(v, k + 1).len() <= tokens_upto(v, n).len(),
    decreases n,
{
    lemma_stands_split(ts, base, tokens_upto(v, n - 1), tokens_of(v[n - 1]));
    if k < n - 1 {
        lemma_element_tokens(v, n - 1, k, ts, base);
    }
}

/// What reading the expressions `v[k..]` gives, each of which can be read.
pub open spec fn all_read(v: Seq<Form>, k: int) -> Seq<Result<Form, ParseFault>> {
    Seq::new((v.len() - k) as nat, |j: int| Ok(v[k + j]))
}

/// Where every element was read, the elements are what was read.
proof fn lemma_collect_all_read(v: Seq<Form>)
    ensures
        collect(all_read(v, 0)) == Ok::<Seq<Form>, ParseFault>(v),
    decreases v.len(),
{
    if v.len() == 0 {
        assert(v =~= Seq::<Form>::empty());
    } else {
        let before = v.drop_last();
        lemma_collect_all_read(before);
        assert(all_read(v, 0).drop_last() =~= all_read(before, 0));
        assert(before.push(v.last()) =~= v);
    }
}

/// Reading the elements of a sequence of readable expressions from the
/// `k`-th on gives these elements, finds the closing token, and ends behind
/// it.
proof fn lemma_read_items(v: Seq<Form>, k: int, closer: Closer, ts: Seq<Seq<char>>, base: int)
    requires
        0 <= k <= v.len(),
        forall|j: int| 0 <= j < v.len() ==> readable(#[trigger] v[j]),
        stands(ts, base, tokens_upto(v, v.len() as int) + seq![closer.text()]),
    ensures
        tokens_upto(v, k).len() <= tokens_upto(v, v.len() as int).len(),
        read_items(ts, base + tokens_upto(v, k).len(), closer) == (Items {
            items: all_read(v, k),
            closed: true,
            next: base + tokens_upto(v, v.len() as int).len() + 1,
        }),
    decreases v, v.len() - k,
{
    let n = v.len() as int;
    let all = tokens_upto(v, n);
    lemma_stands_split(ts, base, all, seq![closer.text()]);
    let end = base + all.len();
    assert(ts[end] == ts.subrange(end, end + 1)[0]);
    if k == n {
        assert(all_read(v, k) =~= Seq::<Result<Form, ParseFault>>::empty());
    } else {
        let pos = base + tokens_upto(v, k).len();
        lemma_element_tokens(v, n, k, ts, base);
        lemma_first_token(v[k], closer);
        let first = tokens_of(v[k]);
        assert(ts[pos] == ts.subrange(pos, pos + first.len())[0]);
        lemma_read(v[k], ts, pos);
        lemma_read_items(v, k + 1, closer, ts, base);
        assert(seq![Ok::<Form, ParseFault>(v[k])] + all_read(v, k + 1) =~= all_read(v, k));
    }
}

/// Reading a sequence of readable expressions that stands in the tokens
/// between its brackets gives the sequence.
proof fn lemma_read_sequence(v: Seq<Form>, closer: Closer, ts: Seq<Seq<char>>, pos: int)
    requires
        forall|j: int| 0 <= j < v.len() ==> readable(#[trigger] v[j]),
        0 <= pos,
        stands(ts, pos + 1, tokens_upto(v, v.len() as int) + seq![closer.text()]),
    ensures
        read_items(ts, pos + 1, closer).next == pos + tokens_upto(v, v.len() as int).len() + 2,
        finish(read_items(ts, pos + 1, closer), closer) == Ok::<Seq<Form>, ParseFault>(v),
    decreases v, v.len() + 1,
{
    lemma_read_items(v, 0, closer, ts, pos + 1);
    lemma_collect_all_read(v);
}

/// Reading the tokens of a readable expression gives the expression, and ends
/// behind them.
pub proof fn lemma_read(f: Form, ts: Seq<Seq<char>>, pos: int)
    requires
        readable(f),
        stands(ts, pos, tokens_of(f)),
    ensures
        read_form(ts, pos) == (Reading { result: Ok(f), next: pos + tokens_of(f).len() }),
    decreases f, 0int,
{
    lemma_words();
    let t = tokens_of(f);
    assert(t.len() > 0) by {
        lemma_first_token(f, Closer::Paren);
    }
    assert(ts[pos] == ts.subrange(pos, pos + t.len())[0]);
    match f {
        Form::List(v) => {
            let inner = tokens_upto(v, v.len() as int) + seq![")"@];
            assert(t =~= seq!["("@] + inner);
            lemma_stands_split(ts, pos, seq!["("@], inner);
            lemma_read_sequence(v, Closer::Paren, ts, pos);
        },
        Form::Vec(v) => {
            let inner = tokens_upto(v, v.len() as int) + seq!["]"@];
            assert(t =~= seq!["["@] + inner);
            lemma_stands_split(ts, pos, seq!["["@], inner);
            lemma_read_sequence(v, Closer::Bracket, ts, pos);
        },
        Form::MapLiteral(v) => {
            let inner = tokens_upto(v, v.len() as int) + seq!["}"@];
            assert(t =~= seq!["{"@] + inner);
            lemma_stands_split(ts, pos, seq!["{"@], inner);
            lemma_read_sequence(v, Closer::Brace, ts, pos);
        },
        _ => {
            lemma_atom_forms(f);
            lemma_read_atom_form(f, ts, pos);
        },
    }
}

/// The expressions whose text is read back as the expression: those that
/// are read back wherever they stand, and the symbols that are a string
/// literal without its closing quote, which are read back where nothing
/// stands behind them.
pub open spec fn reads_back(f: Form) -> bool {
    readable(f) || (f matches Form::Symbol(s) && is_string_token(s))
}

/// Printing and reading are inverse: the tokens of the text of an expression
/// that is read back, read from the first on, give the expression, and none
/// of them is left.
pub proof fn lemma_round_trip(f: Form)
    requires
        reads_back(f),
    ensures
        read_form(tokenize(text_of(f)), 0) == (Reading {
            result: Ok(f),
            next: tokenize(text_of(f)).len() as int,
        }),
{
    if readable(f) {
        lemma_tokenize_text(f);
        let ts = tokens_of(f);
        assert(ts.subrange(0, ts.len() as int) =~= ts);
        lemma_read(f, ts, 0);
    } else {
        lemma_words();
        let s = f->Symbol_0;
        assert(skip_separators(s, 0) == 0);
        assert(token_end(s, 0) == s.len());
        assert(s.subrange(0, s.len() as int) =~= s);
        lemma_skip_separators(s, s.len() as int);
        assert(tokens_from(s, s.len() as int) =~= Seq::<Seq<char>>::empty());
        assert(tokenize(s) =~= seq![s]);
        assert(!is_integer_text(s)) by {
            if is_integer_text(s) {
                assert(is_digit(s[0]));
            }
        }
        assert(read_form(seq![s], 0) == (Reading { result: Ok(f), next: 1 }));
    }
}

/// A line that is an integer in decimal notation is one token; it is read as
/// that integer, the integer is its own value, and what is printed is the
/// canonical text of the integer, whatever the environment holds.
pub proof fn lemma_integer_literal(t: Seq<char>, env: Seq<Scope>, out: Seq<Seq<char>>)
    requires
        integer_of(t) is Some,
    ensures
        tokenize(t) == seq![t],
        read_form(tokenize(t), 0).result == Ok::<Form, ParseFault>(
            Form::Integer(integer_of(t)->Some_0),
        ),
        eval(Form::Integer(integer_of(t)->Some_0), env, out) == kept(
            Form::Integer(integer_of(t)->Some_0),
            env,
            out,
        ),
        rep_from(tokenize(t), 0, env, out) == (Turn {
            env,
            out: out.push(decimal(integer_of(t)->Some_0 as int)),
        }),
{
    lemma_words();
    let n = integer_of(t)->Some_0;
    assert(is_digit(t[0]) || t[0] == '-');
    assert forall|i: int| 0 <= i < t.len() implies is_atom_char(#[trigger] t[i]) by {
        if t[0] == '-' {
            if i > 0 {
                assert(t[i] == t.skip(1)[i - 1]);
                assert(is_digit(t.skip(1)[i - 1]));
            }
        } else {
            assert(is_digit(t[i]));
        }
    }
    assert(is_atom_text(t));
    assert(t.subrange(0, t.len() as int) =~= t);
    lemma_atom_token(t, 0, t);
    lemma_skip_separators(t, t.len() as int);
    assert(tokens_from(t, t.len() as int) =~= Seq::<Seq<char>>::empty());
    assert(tokenize(t) =~= seq![t]);
    let ts = seq![t];
    assert(read_form(ts, 0) == (Reading { result: Ok(Form::Integer(n)), next: 1 }));
    assert(rep_from(ts, 1, env, out.push(text_of(Form::Integer(n)))) == (Turn {
        env,
        out: out.push(decimal(n as int)),
    }));
}

/// The canonical text of an integer, as a line: the same text is printed.
pub proof fn lemma_canonical_integer(n: i64, env: Seq<Scope>, out: Seq<Seq<char>>)
    ensures
        integer_of(decimal(n as int)) == Some(n),
        rep_from(tokenize(decimal(n as int)), 0, env, out) == (Turn {
            env,
            out: out.push(decimal(n as int)),
        }),
{
    lemma_decimal_denotes(n as int);
    lemma_integer_literal(decimal(n as int), env, out);
}

} // verus!

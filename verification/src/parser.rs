//! The reader: from tokens to expressions.

use crate::decimal::{integer_of, integer_text, is_integer_text, parse_integer};
use crate::text::{begins_with, chars_of, same_text, string_of};
use crate::tokenizer::Tokenizer;
use crate::types::{forms_of, group_forms, lemma_forms_of_push, Form, Sexp};
use vstd::prelude::*;
use vstd::string::StringExecFns;

verus! {

/// The three tokens that close a sequence.
#[derive(Clone, Copy, Debug, PartialEq, Eq, Structural)]
pub enum Closer {
    /// `)`, which closes a list.
    Paren,
    /// `]`, which closes a vector.
    Bracket,
    /// `}`, which closes a map literal.
    Brace,
}

/// What the reader was waiting for when the tokens ran out.
#[derive(Clone, Copy, Debug, PartialEq, Eq, Structural)]
pub enum Expected {
    /// The first token of an expression.
    Form,
    /// The token that closes the sequence being read.
    Closer(Closer),
}

/// Why no expression could be read.
#[derive(Debug, PartialEq)]
pub enum ParseError {
    /// A token stands where no expression can begin with it: a closing
    /// bracket that closes nothing, or an integer that does not fit in 64
    /// bits.
    UnexpectedToken(String),
    /// The tokens ran out where an expression was to begin, or before the
    /// token that closes a sequence.
    UnexpectedEndOfInput(Expected),
    /// The tokens ran out behind a quoting prefix, behind `^`, or behind the
    /// first of the two expressions that `^` applies to.
    MalformedQuoteOrMeta,
}

/// A [`ParseError`] as a mathematical value.
pub ghost enum ParseFault {
    UnexpectedToken(Seq<char>),
    UnexpectedEndOfInput(Expected),
    MalformedQuoteOrMeta,
}

impl View for ParseError {
    type V = ParseFault;

    open spec fn view(&self) -> ParseFault {
        match self {
            ParseError::UnexpectedToken(t) => ParseFault::UnexpectedToken(t@),
            ParseError::UnexpectedEndOfInput(e) => ParseFault::UnexpectedEndOfInput(*e),
            ParseError::MalformedQuoteOrMeta => ParseFault::MalformedQuoteOrMeta,
        }
    }
}

/// What reading one expression gives: the expression or the reason why there
/// is none, and the position of the first token that was not read.
pub ghost struct Reading {
    pub result: Result<Form, ParseFault>,
    pub next: int,
}

/// What reading the elements of a sequence gives: what reading each element
/// gave, whether the closing token was found, and the position of the first
/// token that was not read.
pub ghost struct Items {
    pub items: Seq<Result<Form, ParseFault>>,
    pub closed: bool,
    pub next: int,
}

impl Closer {
    /// The token that closes.
    pub open spec fn text(self) -> Seq<char> {
        match self {
            Closer::Paren => ")"@,
            Closer::Bracket => "]"@,
            Closer::Brace => "}"@,
        }
    }

    /// The token that closes.
    pub fn token(self) -> (r: &'static str)
        ensures
            r@ == self.text(),
    {
        match self {
            Closer::Paren => ")",
            Closer::Bracket => "]",
            Closer::Brace => "}",
        }
    }
}

/// A comment token begins with a semicolon.
pub open spec fn is_comment_token(t: Seq<char>) -> bool {
    t.len() > 0 && t[0] == ';'
}

/// A keyword token is a colon followed by at least one character.
pub open spec fn is_keyword_token(t: Seq<char>) -> bool {
    t.len() > 1 && t[0] == ':'
}

/// The expression that a token is which is no bracket, no prefix, none of the
/// three literal words and no comment: an integer where it has the form of
/// one, a keyword behind a colon, a symbol otherwise.
pub open spec fn read_atom(t: Seq<char>) -> Result<Form, ParseFault> {
    if is_integer_text(t) {
        match integer_of(t) {
            Some(n) => Ok(Form::Integer(n)),
            None => Err(ParseFault::UnexpectedToken(t)),
        }
    } else if is_keyword_token(t) {
        Ok(Form::Keyword(t.skip(1)))
    } else {
        Ok(Form::Symbol(t))
    }
}

/// The first failure among `items`, or the expressions that they hold.
pub open spec fn collect(items: Seq<Result<Form, ParseFault>>) -> Result<Seq<Form>, ParseFault>
    decreases items.len(),
{
    if items.len() == 0 {
        Ok(Seq::empty())
    } else {
        match collect(items.drop_last()) {
            Err(e) => Err(e),
            Ok(before) => match items.last() {
                Err(e) => Err(e),
                Ok(f) => Ok(before.push(f)),
            },
        }
    }
}

/// The elements of a sequence that was read: the end of the tokens where it
/// came before the closing token; otherwise the first failure among the
/// elements, or the elements.
pub open spec fn finish(it: Items, closer: Closer) -> Result<Seq<Form>, ParseFault> {
    if it.closed {
        collect(it.items)
    } else {
        Err(ParseFault::UnexpectedEndOfInput(Expected::Closer(closer)))
    }
}

/// The list of the symbol `name` and the expression that was read, or the
/// reason why none was read.
pub open spec fn quoted(name: Seq<char>, r: Result<Form, ParseFault>) -> Result<Form, ParseFault> {
    match r {
        Ok(f) => Ok(Form::List(seq![Form::Symbol(name), f])),
        Err(e) => Err(e),
    }
}

/// The list `(with-meta form meta)`; where both could not be read, the
/// reason for the form comes first.
pub open spec fn with_meta(
    meta: Result<Form, ParseFault>,
    form: Result<Form, ParseFault>,
) -> Result<Form, ParseFault> {
    match form {
        Err(e) => Err(e),
        Ok(f) => match meta {
            Err(e) => Err(e),
            Ok(m) => Ok(Form::List(seq![Form::Symbol("with-meta"@), f, m])),
        },
    }
}

/// Reading the elements of a sequence from `pos` on, up to the token that
/// closes it. A comment among them gives no element. Reading goes on behind
/// an element that could not be read.
pub open spec fn read_items(ts: Seq<Seq<char>>, pos: int, closer: Closer) -> Items
    decreases ts.len() - pos, 1int,
{
    if pos < 0 || pos >= ts.len() {
        Items { items: Seq::empty(), closed: false, next: pos }
    } else if ts[pos] == closer.text() {
        Items { items: Seq::empty(), closed: true, next: pos + 1 }
    } else if is_comment_token(ts[pos]) {
        read_items(ts, pos + 1, closer)
    } else {
        let first = read_form(ts, pos);
        if !(pos < first.next <= ts.len()) {
            Items { items: Seq::empty(), closed: false, next: pos }
        } else {
            let rest = read_items(ts, first.next, closer);
            Items {
                items: seq![first.result] + rest.items,
                closed: rest.closed,
                next: rest.next,
            }
        }
    }
}

/// The sequence that `closer` closes, made of the elements `v`.
pub open spec fn sequence(closer: Closer, v: Seq<Form>) -> Form {
    match closer {
        Closer::Paren => Form::List(v),
        Closer::Bracket => Form::Vec(v),
        Closer::Brace => Form::MapLiteral(v),
    }
}

/// What reading a sequence gives whose elements gave `it`.
pub open spec fn sequence_reading(it: Items, closer: Closer) -> Reading {
    Reading {
        result: match finish(it, closer) {
            Err(e) => Err(e),
            Ok(v) => Ok(sequence(closer, v)),
        },
        next: it.next,
    }
}

/// What reading a quoting prefix gives, where reading after it gave `r`.
pub open spec fn quoted_reading(name: Seq<char>, r: Reading) -> Reading {
    Reading { result: quoted(name, r.result), next: r.next }
}

/// What reading the expression gives that a quoting prefix or `^` applies
/// to, where reading from `pos` on gives `r`: the prefix is malformed where
/// no token is left for the expression.
pub open spec fn operand(ts: Seq<Seq<char>>, pos: int, r: Reading) -> Reading {
    if pos >= ts.len() {
        Reading { result: Err(ParseFault::MalformedQuoteOrMeta), next: pos }
    } else {
        r
    }
}

/// Reading one expression from `pos` on.
///
/// A bracket opens a sequence, which is read up to the bracket that closes
/// it. A quoting prefix makes a list of its name and the next expression;
/// `^` makes the list `(with-meta form meta)` of the two expressions behind
/// it, the meta first; a prefix is malformed where no token is left for an
/// expression that it applies to. `true`, `false` and `nil` are themselves;
/// a closing bracket is unexpected; a comment is read as `nil`. Every other
/// token is an integer, a keyword or a symbol.
///
/// Reading an expression ends behind where it began (see
/// [`lemma_reading_advances`]): the tests of that in this definition and in
/// [`read_items`] are there for the definitions to be well founded, and
/// never fail.
pub open spec fn read_form(ts: Seq<Seq<char>>, pos: int) -> Reading
    decreases ts.len() - pos, 0int,
{
    if pos < 0 || pos >= ts.len() {
        Reading { result: Err(ParseFault::UnexpectedEndOfInput(Expected::Form)), next: pos }
    } else {
        let t = ts[pos];
        if t == "("@ {
            sequence_reading(read_items(ts, pos + 1, Closer::Paren), Closer::Paren)
        } else if t == "["@ {
            sequence_reading(read_items(ts, pos + 1, Closer::Bracket), Closer::Bracket)
        } else if t == "{"@ {
            sequence_reading(read_items(ts, pos + 1, Closer::Brace), Closer::Brace)
        } else if t == "'"@ {
            quoted_reading("quote"@, operand(ts, pos + 1, read_form(ts, pos + 1)))
        } else if t == "`"@ {
            quoted_reading("quasiquote"@, operand(ts, pos + 1, read_form(ts, pos + 1)))
        } else if t == "~"@ {
            quoted_reading("unquote"@, operand(ts, pos + 1, read_form(ts, pos + 1)))
        } else if t == "@"@ {
            quoted_reading("deref"@, operand(ts, pos + 1, read_form(ts, pos + 1)))
        } else if t == "~@"@ {
            quoted_reading("splice-unquote"@, operand(ts, pos + 1, read_form(ts, pos + 1)))
        } else if t == "true"@ {
            Reading { result: Ok(Form::Bool(true)), next: pos + 1 }
        } else if t == "false"@ {
            Reading { result: Ok(Form::Bool(false)), next: pos + 1 }
        } else if t == "nil"@ {
            Reading { result: Ok(Form::Nil), next: pos + 1 }
        } else if t == ")"@ || t == "]"@ || t == "}"@ {
            Reading { result: Err(ParseFault::UnexpectedToken(t)), next: pos + 1 }
        } else if t == "^"@ {
            let meta = operand(ts, pos + 1, read_form(ts, pos + 1));
            if !(pos < meta.next <= ts.len()) {
                meta
            } else {
                let form = operand(ts, meta.next, read_form(ts, meta.next));
                Reading { result: with_meta(meta.result, form.result), next: form.next }
            }
        } else if is_comment_token(t) {
            Reading { result: Ok(Form::Nil), next: pos + 1 }
        } else {
            Reading { result: read_atom(t), next: pos + 1 }
        }
    }
}

/// Reading what a quoting prefix or `^` applies to, from `pos` on.
pub open spec fn read_operand(ts: Seq<Seq<char>>, pos: int) -> Reading {
    operand(ts, pos, read_form(ts, pos))
}

/// Reading what a quoting prefix applies to, from `pos` on, and making the
/// list of the name of the prefix and that expression.
pub open spec fn read_quoted(ts: Seq<Seq<char>>, pos: int, name: Seq<char>) -> Reading {
    quoted_reading(name, read_operand(ts, pos))
}

/// Reading never goes back and never leaves the tokens: it ends behind the
/// place where it began, unless no token was left there.
pub proof fn lemma_reading_advances(ts: Seq<Seq<char>>, pos: int, closer: Closer)
    requires
        0 <= pos <= ts.len(),
    ensures
        pos <= read_form(ts, pos).next <= ts.len(),
        pos < ts.len() ==> pos < read_form(ts, pos).next,
        pos <= read_items(ts, pos, closer).next <= ts.len(),
        read_items(ts, pos, closer).closed ==> pos < read_items(ts, pos, closer).next,
    decreases ts.len() - pos, 2int,
{
    lemma_form_advances(ts, pos);
    lemma_items_advance(ts, pos, closer);
}

/// Reading the elements of a sequence never goes back, and ends behind the
/// closing token where it finds one.
proof fn lemma_items_advance(ts: Seq<Seq<char>>, pos: int, closer: Closer)
    requires
        0 <= pos <= ts.len(),
    ensures
        pos <= read_items(ts, pos, closer).next <= ts.len(),
        read_items(ts, pos, closer).closed ==> pos < read_items(ts, pos, closer).next,
    decreases ts.len() - pos, 1int,
{
    if pos < ts.len() && ts[pos] != closer.text() {
        if is_comment_token(ts[pos]) {
            lemma_items_advance(ts, pos + 1, closer);
        } else {
            lemma_form_advances(ts, pos);
            lemma_items_advance(ts, read_form(ts, pos).next, closer);
        }
    }
}

/// Reading one expression takes at least one token, where one is left.
proof fn lemma_form_advances(ts: Seq<Seq<char>>, pos: int)
    requires
        0 <= pos <= ts.len(),
    ensures
        pos <= read_form(ts, pos).next <= ts.len(),
        pos < ts.len() ==> pos < read_form(ts, pos).next,
    decreases ts.len() - pos, 0int,
{
    if pos < ts.len() {
        let t = ts[pos];
        if t == "("@ {
            lemma_items_advance(ts, pos + 1, Closer::Paren);
        } else if t == "["@ {
            lemma_items_advance(ts, pos + 1, Closer::Bracket);
        } else if t == "{"@ {
            lemma_items_advance(ts, pos + 1, Closer::Brace);
        } else if t == "'"@ || t == "`"@ || t == "~"@ || t == "@"@ || t == "~@"@ {
            lemma_form_advances(ts, pos + 1);
        } else if t == "true"@ || t == "false"@ || t == "nil"@ {
        } else if t == ")"@ || t == "]"@ || t == "}"@ {
        } else if t == "^"@ {
            lemma_form_advances(ts, pos + 1);
            lemma_form_advances(ts, read_form(ts, pos + 1).next);
        }
    }
}

/// The value of what `read_from` returns.
pub open spec fn reading_of(r: Result<Sexp, ParseError>) -> Result<Form, ParseFault> {
    match r {
        Ok(s) => Ok(s@),
        Err(e) => Err(e@),
    }
}

/// The value of what `read_seq` returns.
pub open spec fn elements_of(r: Result<Vec<Sexp>, ParseError>) -> Result<Seq<Form>, ParseFault> {
    match r {
        Ok(v) => Ok(forms_of(v@)),
        Err(e) => Err(e@),
    }
}

/// The value of the elements read so far and of the first failure among them.
pub open spec fn collected(acc: Seq<Sexp>, failure: Option<ParseError>) -> Result<
    Seq<Form>,
    ParseFault,
> {
    match failure {
        Some(e) => Err(e@),
        None => Ok(forms_of(acc)),
    }
}

/// Reads the elements of a sequence up to the token `closer`, and that token.
pub fn read_seq(tokenizer: &mut Tokenizer, closer: Closer) -> (r: Result<Vec<Sexp>, ParseError>)
    ensures
        final(tokenizer)@.tokens == old(tokenizer)@.tokens,
        final(tokenizer)@.pos == read_items(
            old(tokenizer)@.tokens,
            old(tokenizer)@.pos as int,
            closer,
        ).next,
        elements_of(r) == finish(
            read_items(old(tokenizer)@.tokens, old(tokenizer)@.pos as int, closer),
            closer,
        ),
    decreases old(tokenizer)@.tokens.len() - old(tokenizer)@.pos, 1int,
{
    broadcast use group_forms;

    let ghost ts = tokenizer@.tokens;
    let ghost start = tokenizer@.pos as int;
    let ghost whole = read_items(ts, start, closer);
    let ghost mut items: Seq<Result<Form, ParseFault>> = Seq::empty();
    let mut acc: Vec<Sexp> = Vec::new();
    let mut failure: Option<ParseError> = None;
    let mut closed: bool = false;
    assert(forms_of(acc@) =~= Seq::<Form>::empty());
    assert(items + whole.items =~= whole.items);
    loop
        invariant_except_break
            ts == old(tokenizer)@.tokens,
            start == old(tokenizer)@.pos,
            tokenizer@.tokens == ts,
            start <= tokenizer@.pos,
            whole == read_items(ts, start, closer),
            whole.items == items + read_items(ts, tokenizer@.pos as int, closer).items,
            whole.closed == read_items(ts, tokenizer@.pos as int, closer).closed,
            whole.next == read_items(ts, tokenizer@.pos as int, closer).next,
            collected(acc@, failure) == collect(items),
        ensures
            tokenizer@.tokens == ts,
            tokenizer@.pos == whole.next,
            whole == read_items(ts, start, closer),
            whole.items == items,
            whole.closed == closed,
            collected(acc@, failure) == collect(items),
        decreases ts.len() - tokenizer@.pos,
    {
        let ghost pos = tokenizer@.pos as int;
        let (at_end, at_closer, at_comment) = match tokenizer.peek() {
            None => (true, false, false),
            Some(t) => (false, same_text(t, closer.token()), begins_with(t, ';')),
        };
        if at_end {
            assert(items + Seq::<Result<Form, ParseFault>>::empty() =~= items);
            closed = false;
            break;
        }
        if at_closer {
            let _ = tokenizer.next();
            assert(items + Seq::<Result<Form, ParseFault>>::empty() =~= items);
            closed = true;
            break;
        }
        if at_comment {
            let _ = tokenizer.next();
        } else {
            proof {
                lemma_form_advances(ts, pos);
            }
            let element = Sexp::read_from(tokenizer);
            let ghost first = read_form(ts, pos);
            let ghost rest = read_items(ts, first.next, closer);
            proof {
                assert(items.push(first.result).drop_last() =~= items);
                assert(items + (seq![first.result] + rest.items) =~= items.push(first.result)
                    + rest.items);
                if failure is None && element is Ok {
                    lemma_forms_of_push(acc@, element->Ok_0);
                }
                items = items.push(first.result);
            }
            match element {
                Ok(s) => {
                    if failure.is_none() {
                        acc.push(s);
                    }
                },
                Err(e) => {
                    if failure.is_none() {
                        failure = Some(e);
                    }
                },
            }
        }
    }
    if !closed {
        return Err(ParseError::UnexpectedEndOfInput(Expected::Closer(closer)));
    }
    match failure {
        Some(e) => Err(e),
        None => Ok(acc),
    }
}

/// Reads the expression that a quoting prefix or `^` applies to.
fn read_operand_of_prefix(tokenizer: &mut Tokenizer) -> (r: Result<Sexp, ParseError>)
    ensures
        final(tokenizer)@.tokens == old(tokenizer)@.tokens,
        final(tokenizer)@.pos == read_operand(
            old(tokenizer)@.tokens,
            old(tokenizer)@.pos as int,
        ).next,
        reading_of(r) == read_operand(old(tokenizer)@.tokens, old(tokenizer)@.pos as int).result,
    decreases old(tokenizer)@.tokens.len() - old(tokenizer)@.pos, 1int,
{
    let at_end = match tokenizer.peek() {
        None => true,
        Some(_) => false,
    };
    if at_end {
        Err(ParseError::MalformedQuoteOrMeta)
    } else {
        Sexp::read_from(tokenizer)
    }
}

/// Reads what a quoting prefix applies to, and makes the list of the symbol
/// `repr` and that expression.
pub fn read_quote(tokenizer: &mut Tokenizer, repr: &str) -> (r: Result<Sexp, ParseError>)
    ensures
        final(tokenizer)@.tokens == old(tokenizer)@.tokens,
        final(tokenizer)@.pos == read_quoted(
            old(tokenizer)@.tokens,
            old(tokenizer)@.pos as int,
            repr@,
        ).next,
        reading_of(r) == read_quoted(
            old(tokenizer)@.tokens,
            old(tokenizer)@.pos as int,
            repr@,
        ).result,
    decreases old(tokenizer)@.tokens.len() - old(tokenizer)@.pos, 2int,
{
    broadcast use group_forms;

    match read_operand_of_prefix(tokenizer) {
        Ok(contents) => {
            let mut list: Vec<Sexp> = Vec::new();
            list.push(Sexp::Symbol(String::from_str(repr)));
            list.push(contents);
            assert(forms_of(list@) =~= seq![Form::Symbol(repr@), contents@]);
            Ok(Sexp::List(list))
        },
        Err(e) => Err(e),
    }
}

impl Sexp {
    /// Reads one expression from the tokens that are left.
    pub fn read_from(tokenizer: &mut Tokenizer) -> (r: Result<Sexp, ParseError>)
        ensures
            final(tokenizer)@.tokens == old(tokenizer)@.tokens,
            final(tokenizer)@.pos == read_form(
                old(tokenizer)@.tokens,
                old(tokenizer)@.pos as int,
            ).next,
            reading_of(r) == read_form(old(tokenizer)@.tokens, old(tokenizer)@.pos as int).result,
        decreases old(tokenizer)@.tokens.len() - old(tokenizer)@.pos, 0int,
    {
        broadcast use group_forms;

        let ghost ts = tokenizer@.tokens;
        let ghost pos = tokenizer@.pos as int;
        let token: String = match tokenizer.next() {
            Some(t) => String::from_str(t),
            None => {
                return Err(ParseError::UnexpectedEndOfInput(Expected::Form));
            },
        };
        let t: &str = token.as_str();
        if same_text(t, "(") {
            match read_seq(tokenizer, Closer::Paren) {
                Ok(v) => Ok(Sexp::List(v)),
                Err(e) => Err(e),
            }
        } else if same_text(t, "[") {
            match read_seq(tokenizer, Closer::Bracket) {
                Ok(v) => Ok(Sexp::Vec(v)),
                Err(e) => Err(e),
            }
        } else if same_text(t, "{") {
            match read_seq(tokenizer, Closer::Brace) {
                Ok(v) => Ok(Sexp::MapLiteral(v)),
                Err(e) => Err(e),
            }
        } else if same_text(t, "'") {
            read_quote(tokenizer, "quote")
        } else if same_text(t, "`") {
            read_quote(tokenizer, "quasiquote")
        } else if same_text(t, "~") {
            read_quote(tokenizer, "unquote")
        } else if same_text(t, "@") {
            read_quote(tokenizer, "deref")
        } else if same_text(t, "~@") {
            read_quote(tokenizer, "splice-unquote")
        } else if same_text(t, "true") {
            Ok(Sexp::Bool(true))
        } else if same_text(t, "false") {
            Ok(Sexp::Bool(false))
        } else if same_text(t, "nil") {
            Ok(Sexp::Nil)
        } else if same_text(t, ")") || same_text(t, "]") || same_text(t, "}") {
            Err(ParseError::UnexpectedToken(token))
        } else if same_text(t, "^") {
            proof {
                lemma_form_advances(ts, pos + 1);
            }
            let meta = read_operand_of_prefix(tokenizer);
            let form = read_operand_of_prefix(tokenizer);
            match form {
                Err(e) => Err(e),
                Ok(f) => match meta {
                    Err(e) => Err(e),
                    Ok(m) => {
                        let mut list: Vec<Sexp> = Vec::new();
                        list.push(Sexp::Symbol(String::from_str("with-meta")));
                        list.push(f);
                        list.push(m);
                        assert(forms_of(list@) =~= seq![Form::Symbol("with-meta"@), f@, m@]);
                        Ok(Sexp::List(list))
                    },
                },
            }
        } else {
            let chars = chars_of(t);
            if chars.len() > 0 && chars[0] == ';' {
                Ok(Sexp::Nil)
            } else if integer_text(&chars) {
                match parse_integer(&chars) {
                    Some(n) => Ok(Sexp::Integer(n)),
                    None => Err(ParseError::UnexpectedToken(token)),
                }
            } else if chars.len() > 1 && chars[0] == ':' {
                assert(chars@.subrange(1, chars.len() as int) =~= chars@.skip(1));
                Ok(Sexp::Keyword(string_of(&chars, 1, chars.len())))
            } else {
                Ok(Sexp::Symbol(token))
            }
        }
    }
}

} // verus!

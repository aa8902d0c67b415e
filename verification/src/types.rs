//! Expressions: the one type of value that is read, evaluated and printed.

use crate::decimal::{decimal, decimal_string};
use crate::text::chars_of;
use vstd::prelude::*;
use vstd::string::StringExecFns;

verus! {

/// The primitive functions of the language.
#[derive(Clone, Copy, Debug, PartialEq, Eq, Structural)]
pub enum Builtin {
    Add,
    Subtract,
    Multiply,
    Divide,
    Prn,
    Println,
    PrStr,
    Str,
    List,
    IsList,
    IsEmpty,
    Count,
    Eq,
    Lt,
    Gt,
    Le,
    Ge,
}

/// An expression as a mathematical value: what an [`Sexp`] holds.
pub ghost enum Form {
    Integer(i64),
    Bool(bool),
    Symbol(Seq<char>),
    List(Seq<Form>),
    Vec(Seq<Form>),
    MapLiteral(Seq<Form>),
    Keyword(Seq<char>),
    String(Seq<char>),
    Func(Builtin),
    Nil,
}

/// An expression: both the code that is evaluated and the data that comes
/// out.
#[derive(Debug)]
pub enum Sexp {
    Integer(i64),
    Bool(bool),
    Symbol(String),
    List(Vec<Sexp>),
    Vec(Vec<Sexp>),
    MapLiteral(Vec<Sexp>),
    Keyword(String),
    String(String),
    Func(Builtin),
    Nil,
}

/// The values of the expressions of `s`, in order.
pub open spec fn forms_of(s: Seq<Sexp>) -> Seq<Form>
    decreases s,
{
    Seq::new(
        s.len(),
        |i: int|
            if 0 <= i < s.len() {
                s[i].view()
            } else {
                Form::Nil
            },
    )
}

impl View for Sexp {
    type V = Form;

    open spec fn view(&self) -> Form
        decreases self,
    {
        match self {
            Sexp::Integer(n) => Form::Integer(*n),
            Sexp::Bool(b) => Form::Bool(*b),
            Sexp::Symbol(s) => Form::Symbol(s@),
            Sexp::List(v) => Form::List(forms_of(v@)),
            Sexp::Vec(v) => Form::Vec(forms_of(v@)),
            Sexp::MapLiteral(v) => Form::MapLiteral(forms_of(v@)),
            Sexp::Keyword(s) => Form::Keyword(s@),
            Sexp::String(s) => Form::String(s@),
            Sexp::Func(b) => Form::Func(*b),
            Sexp::Nil => Form::Nil,
        }
    }
}

/// `forms_of` keeps the length.
pub broadcast proof fn lemma_forms_of_len(s: Seq<Sexp>)
    ensures
        #[trigger] forms_of(s).len() == s.len(),
{
}

/// `forms_of` takes the value of each element.
pub broadcast proof fn lemma_forms_of_index(s: Seq<Sexp>, i: int)
    requires
        0 <= i < s.len(),
    ensures
        #[trigger] forms_of(s)[i] == s[i]@,
{
}

/// The value of a list is the list of the values of its elements.
pub broadcast proof fn lemma_view_list(v: Vec<Sexp>)
    ensures
        #[trigger] Sexp::List(v).view() == Form::List(forms_of(v@)),
{
}

/// The value of a vector is the vector of the values of its elements.
pub broadcast proof fn lemma_view_vec(v: Vec<Sexp>)
    ensures
        #[trigger] Sexp::Vec(v).view() == Form::Vec(forms_of(v@)),
{
}

/// The value of a map literal is the map literal of the values of its
/// elements.
pub broadcast proof fn lemma_view_map(v: Vec<Sexp>)
    ensures
        #[trigger] Sexp::MapLiteral(v).view() == Form::MapLiteral(forms_of(v@)),
{
}

/// What Verus needs to know to go from expressions to their values.
pub broadcast group group_forms {
    lemma_forms_of_len,
    lemma_forms_of_index,
    lemma_view_list,
    lemma_view_vec,
    lemma_view_map,
}

/// One more expression at the end is one more value at the end.
pub proof fn lemma_forms_of_push(s: Seq<Sexp>, x: Sexp)
    ensures
        forms_of(s.push(x)) == forms_of(s).push(x@),
{
    broadcast use group_forms;

    assert(forms_of(s.push(x)) =~= forms_of(s).push(x@));
}

/// How one character of a string is written inside a string literal.
pub open spec fn escape_char(c: char) -> Seq<char> {
    if c == '"' {
        seq!['\\', '"']
    } else if c == '\\' {
        seq!['\\', '\\']
    } else if c == '\n' {
        seq!['\\', 'n']
    } else {
        seq![c]
    }
}

/// The characters of `s` as they are written inside a string literal: a
/// backslash before each quote and each backslash, and `\n` for a line feed.
pub open spec fn escape(s: Seq<char>) -> Seq<char>
    decreases s.len(),
{
    if s.len() == 0 {
        Seq::empty()
    } else {
        escape(s.drop_last()) + escape_char(s.last())
    }
}

/// The texts of the first `n` expressions of `v`, with one space between
/// neighbours.
pub open spec fn joined_upto(v: Seq<Form>, n: int) -> Seq<char>
    decreases v, n,
{
    if n <= 0 || n > v.len() {
        Seq::empty()
    } else if n == 1 {
        text_of(v[0])
    } else {
        joined_upto(v, n - 1) + seq![' '] + text_of(v[n - 1])
    }
}

/// The texts of the expressions of `v`, with one space between neighbours.
pub open spec fn joined(v: Seq<Form>) -> Seq<char> {
    joined_upto(v, v.len() as int)
}

/// The text of an expression: integers in decimal, `true`, `false` and `nil`
/// as these words, symbols as they are, keywords behind a colon, strings as
/// string literals, the three kinds of sequence between their brackets, and
/// every function as the same placeholder.
pub open spec fn text_of(f: Form) -> Seq<char>
    decreases f, 0int,
{
    match f {
        Form::Integer(n) => decimal(n as int),
        Form::Bool(b) => if b {
            "true"@
        } else {
            "false"@
        },
        Form::Symbol(s) => s,
        Form::List(v) => seq!['('] + joined_upto(v, v.len() as int) + seq![')'],
        Form::Vec(v) => seq!['['] + joined_upto(v, v.len() as int) + seq![']'],
        Form::MapLiteral(v) => seq!['{'] + joined_upto(v, v.len() as int) + seq!['}'],
        Form::Keyword(s) => seq![':'] + s,
        Form::String(s) => seq!['"'] + escape(s) + seq!['"'],
        Form::Func(_) => "<func>"@,
        Form::Nil => "nil"@,
    }
}

/// Appends the characters of `s` as they are written inside a string literal.
fn write_escaped(s: &str, out: &mut String)
    ensures
        final(out)@ == old(out)@ + escape(s@),
{
    let chars = chars_of(s);
    let mut i: usize = 0;
    assert(chars@.take(0) =~= Seq::<char>::empty());
    while i < chars.len()
        invariant
            i <= chars.len(),
            out@ == old(out)@ + escape(chars@.take(i as int)),
        decreases chars.len() - i,
    {
        let c: char = chars[i];
        let ghost before = out@;
        if c == '"' {
            out.push('\\');
            out.push('"');
        } else if c == '\\' {
            out.push('\\');
            out.push('\\');
        } else if c == '\n' {
            out.push('\\');
            out.push('n');
        } else {
            out.push(c);
        }
        proof {
            assert(out@ =~= before + escape_char(c));
            assert(chars@.take(i + 1).drop_last() =~= chars@.take(i as int));
            assert(chars@.take(i + 1).last() == c);
            assert(out@ =~= old(out)@ + escape(chars@.take(i + 1)));
        }
        i += 1;
    }
    assert(chars@.take(chars.len() as int) =~= chars@);
}

/// Appends the texts of the expressions of `items`, with one space between
/// neighbours.
fn write_joined(items: &[Sexp], out: &mut String)
    ensures
        final(out)@ == old(out)@ + joined(forms_of(items@)),
    decreases forms_of(items@), 1int,
{
    broadcast use group_forms;

    let ghost forms = forms_of(items@);
    let mut i: usize = 0;
    while i < items.len()
        invariant
            i <= items.len(),
            forms == forms_of(items@),
            out@ == old(out)@ + joined_upto(forms, i as int),
        decreases items.len() - i,
    {
        if i > 0 {
            out.push(' ');
        }
        assert(forms[i as int] == items@[i as int]@);
        items[i].write_text(out);
        assert(out@ =~= old(out)@ + joined_upto(forms, i + 1));
        i += 1;
    }
}

impl Sexp {
    /// Appends the text of the expression.
    fn write_text(&self, out: &mut String)
        ensures
            final(out)@ == old(out)@ + text_of(self@),
        decreases self@, 0int,
    {
        broadcast use group_forms;

        match self {
            Sexp::Integer(n) => {
                out.append(decimal_string(*n).as_str());
            },
            Sexp::Bool(b) => {
                if *b {
                    out.append("true");
                } else {
                    out.append("false");
                }
            },
            Sexp::Symbol(s) => {
                out.append(s.as_str());
            },
            Sexp::List(v) => {
                assert(self@->List_0 == forms_of(v@));
                out.push('(');
                write_joined(v.as_slice(), out);
                out.push(')');
                assert(out@ =~= old(out)@ + text_of(self@));
            },
            Sexp::Vec(v) => {
                assert(self@->Vec_0 == forms_of(v@));
                out.push('[');
                write_joined(v.as_slice(), out);
                out.push(']');
                assert(out@ =~= old(out)@ + text_of(self@));
            },
            Sexp::MapLiteral(v) => {
                assert(self@->MapLiteral_0 == forms_of(v@));
                out.push('{');
                write_joined(v.as_slice(), out);
                out.push('}');
                assert(out@ =~= old(out)@ + text_of(self@));
            },
            Sexp::Keyword(s) => {
                out.push(':');
                out.append(s.as_str());
                assert(out@ =~= old(out)@ + text_of(self@));
            },
            Sexp::String(s) => {
                out.push('"');
                write_escaped(s.as_str(), out);
                out.push('"');
                assert(out@ =~= old(out)@ + text_of(self@));
            },
            Sexp::Func(_) => {
                out.append("<func>");
            },
            Sexp::Nil => {
                out.append("nil");
            },
        }
    }

    /// The text of the expression.
    pub fn to_text(&self) -> (r: String)
        ensures
            r@ == text_of(self@),
    {
        let mut out = String::new();
        self.write_text(&mut out);
        assert(out@ =~= text_of(self@));
        out
    }
}

/// The texts of `tokens`, with one space between neighbours.
pub fn tokens_to_string(tokens: &[Sexp]) -> (r: String)
    ensures
        r@ == joined(forms_of(tokens@)),
{
    let mut out = String::new();
    write_joined(tokens, &mut out);
    assert(out@ =~= joined(forms_of(tokens@)));
    out
}

/// Copies of the expressions of `items`, in order.
pub fn clone_items(items: &[Sexp]) -> (r: Vec<Sexp>)
    ensures
        forms_of(r@) == forms_of(items@),
    decreases forms_of(items@), 1int,
{
    broadcast use group_forms;

    let mut out: Vec<Sexp> = Vec::new();
    let mut i: usize = 0;
    while i < items.len()
        invariant
            i <= items.len(),
            out.len() == i,
            forall|j: int| 0 <= j < i ==> out@[j]@ == items@[j]@,
        decreases items.len() - i,
    {
        assert(forms_of(items@)[i as int] == items@[i as int]@);
        let copy = items[i].clone();
        out.push(copy);
        i += 1;
    }
    assert(forms_of(out@) =~= forms_of(items@));
    out
}

impl Clone for Sexp {
    /// A copy that holds the same value.
    fn clone(&self) -> (r: Sexp)
        ensures
            r@ == self@,
        decreases self@, 0int,
    {
        broadcast use group_forms;

        match self {
            Sexp::Integer(n) => Sexp::Integer(*n),
            Sexp::Bool(b) => Sexp::Bool(*b),
            Sexp::Symbol(s) => Sexp::Symbol(s.clone()),
            Sexp::List(v) => {
                assert(self@->List_0 == forms_of(v@));
                Sexp::List(clone_items(v.as_slice()))
            },
            Sexp::Vec(v) => {
                assert(self@->Vec_0 == forms_of(v@));
                Sexp::Vec(clone_items(v.as_slice()))
            },
            Sexp::MapLiteral(v) => {
                assert(self@->MapLiteral_0 == forms_of(v@));
                Sexp::MapLiteral(clone_items(v.as_slice()))
            },
            Sexp::Keyword(s) => Sexp::Keyword(s.clone()),
            Sexp::String(s) => Sexp::String(s.clone()),
            Sexp::Func(b) => Sexp::Func(*b),
            Sexp::Nil => Sexp::Nil,
        }
    }
}

/// Tells whether two sequences of expressions hold the same values.
fn same_items(a: &[Sexp], b: &[Sexp]) -> (r: bool)
    ensures
        r == (forms_of(a@) == forms_of(b@)),
    decreases forms_of(a@), 1int,
{
    broadcast use group_forms;

    if a.len() != b.len() {
        assert(forms_of(a@).len() != forms_of(b@).len());
        return false;
    }
    let mut i: usize = 0;
    while i < a.len()
        invariant
            a.len() == b.len(),
            i <= a.len(),
            forall|j: int| 0 <= j < i ==> a@[j]@ == b@[j]@,
        decreases a.len() - i,
    {
        assert(forms_of(a@)[i as int] == a@[i as int]@);
        assert(forms_of(b@)[i as int] == b@[i as int]@);
        if !a[i].eq(&b[i]) {
            return false;
        }
        i += 1;
    }
    assert(forms_of(a@) =~= forms_of(b@));
    true
}

impl PartialEq for Sexp {
    /// Two expressions are equal when they hold the same value: the same
    /// variant with the same contents.
    fn eq(&self, other: &Sexp) -> (r: bool)
        decreases self@, 0int,
    {
        broadcast use group_forms;

        match self {
            Sexp::Integer(a) => match other {
                Sexp::Integer(b) => *a == *b,
                _ => false,
            },
            Sexp::Bool(a) => match other {
                Sexp::Bool(b) => *a == *b,
                _ => false,
            },
            Sexp::Symbol(a) => match other {
                Sexp::Symbol(b) => *a == *b,
                _ => false,
            },
            Sexp::List(a) => match other {
                Sexp::List(b) => {
                    assert(self@->List_0 == forms_of(a@));
                    same_items(a.as_slice(), b.as_slice())
                },
                _ => false,
            },
            Sexp::Vec(a) => match other {
                Sexp::Vec(b) => {
                    assert(self@->Vec_0 == forms_of(a@));
                    same_items(a.as_slice(), b.as_slice())
                },
                _ => false,
            },
            Sexp::MapLiteral(a) => match other {
                Sexp::MapLiteral(b) => {
                    assert(self@->MapLiteral_0 == forms_of(a@));
                    same_items(a.as_slice(), b.as_slice())
                },
                _ => false,
            },
            Sexp::Keyword(a) => match other {
                Sexp::Keyword(b) => *a == *b,
                _ => false,
            },
            Sexp::String(a) => match other {
                Sexp::String(b) => *a == *b,
                _ => false,
            },
            Sexp::Func(a) => match other {
                Sexp::Func(b) => *a == *b,
                _ => false,
            },
            Sexp::Nil => match other {
                Sexp::Nil => true,
                _ => false,
            },
        }
    }
}

impl vstd::std_specs::cmp::PartialEqSpecImpl for Sexp {
    open spec fn obeys_eq_spec() -> bool {
        true
    }

    open spec fn eq_spec(&self, other: &Sexp) -> bool {
        self@ == other@
    }
}

} // verus!

//! The order of expressions: by variant first, then by contents.

use crate::text::chars_of;
use crate::types::{forms_of, group_forms, Builtin, Form, Sexp};
use vstd::prelude::*;

verus! {

/// How one value stands to another.
#[derive(Clone, Copy, Debug, PartialEq, Eq, Structural)]
pub enum Order {
    Less,
    Equal,
    Greater,
}

/// The order of two integers.
pub open spec fn int_order(a: int, b: int) -> Order {
    if a < b {
        Order::Less
    } else if a == b {
        Order::Equal
    } else {
        Order::Greater
    }
}

/// The place of a primitive among the primitives.
pub open spec fn builtin_rank(b: Builtin) -> int {
    match b {
        Builtin::Add => 0,
        Builtin::Subtract => 1,
        Builtin::Multiply => 2,
        Builtin::Divide => 3,
        Builtin::Prn => 4,
        Builtin::Println => 5,
        Builtin::PrStr => 6,
        Builtin::Str => 7,
        Builtin::List => 8,
        Builtin::IsList => 9,
        Builtin::IsEmpty => 10,
        Builtin::Count => 11,
        Builtin::Eq => 12,
        Builtin::Lt => 13,
        Builtin::Gt => 14,
        Builtin::Le => 15,
        Builtin::Ge => 16,
    }
}

/// The place of an expression's variant among the variants.
pub open spec fn variant_rank(f: Form) -> int {
    match f {
        Form::Integer(_) => 0,
        Form::Bool(_) => 1,
        Form::Symbol(_) => 2,
        Form::List(_) => 3,
        Form::Vec(_) => 4,
        Form::MapLiteral(_) => 5,
        Form::Keyword(_) => 6,
        Form::String(_) => 7,
        Form::Func(_) => 8,
        Form::Nil => 9,
    }
}

/// The order of two texts from position `i` on, where they agree before it:
/// the first character that differs decides, and a text comes before each
/// longer text that starts with it.
pub open spec fn chars_order_from(a: Seq<char>, b: Seq<char>, i: int) -> Order
    decreases a.len() - i,
{
    if i < 0 || i >= a.len() {
        if i < b.len() {
            Order::Less
        } else {
            Order::Equal
        }
    } else if i >= b.len() {
        Order::Greater
    } else if a[i] == b[i] {
        chars_order_from(a, b, i + 1)
    } else if a[i] < b[i] {
        Order::Less
    } else {
        Order::Greater
    }
}

/// The order of two texts.
pub open spec fn chars_order(a: Seq<char>, b: Seq<char>) -> Order {
    chars_order_from(a, b, 0)
}

/// The order of two sequences of expressions from position `i` on, where they
/// agree before it: the first element that differs decides, and a sequence
/// comes before each longer sequence that starts with it.
pub open spec fn seq_order_from(a: Seq<Form>, b: Seq<Form>, i: int) -> Order
    decreases a, a.len() - i,
{
    if i < 0 || i >= a.len() {
        if i < b.len() {
            Order::Less
        } else {
            Order::Equal
        }
    } else if i >= b.len() {
        Order::Greater
    } else {
        match order(a[i], b[i]) {
            Order::Equal => seq_order_from(a, b, i + 1),
            decided => decided,
        }
    }
}

/// The order of two expressions: by the place of their variants and, within
/// one variant, by their contents.
pub open spec fn order(a: Form, b: Form) -> Order
    decreases a, 0int,
{
    if variant_rank(a) != variant_rank(b) {
        int_order(variant_rank(a), variant_rank(b))
    } else {
        match a {
            Form::Integer(x) => int_order(x as int, b->Integer_0 as int),
            Form::Bool(x) => int_order(
                if x {
                    1
                } else {
                    0
                },
                if b->Bool_0 {
                    1
                } else {
                    0
                },
            ),
            Form::Symbol(x) => chars_order(x, b->Symbol_0),
            Form::List(x) => seq_order_from(x, b->List_0, 0),
            Form::Vec(x) => seq_order_from(x, b->Vec_0, 0),
            Form::MapLiteral(x) => seq_order_from(x, b->MapLiteral_0, 0),
            Form::Keyword(x) => chars_order(x, b->Keyword_0),
            Form::String(x) => chars_order(x, b->String_0),
            Form::Func(x) => int_order(builtin_rank(x), builtin_rank(b->Func_0)),
            Form::Nil => Order::Equal,
        }
    }
}

/// Two texts are in the order `Equal` from `i` on exactly when they are the
/// same from `i` on.
proof fn lemma_chars_order_equal(a: Seq<char>, b: Seq<char>, i: int)
    requires
        0 <= i <= a.len(),
        i <= b.len(),
    ensures
        (chars_order_from(a, b, i) == Order::Equal) <==> a.skip(i) == b.skip(i),
    decreases a.len() - i,
{
    if i >= a.len() {
        if i < b.len() {
            assert(a.skip(i).len() != b.skip(i).len());
        } else {
            assert(a.skip(i) =~= b.skip(i));
        }
    } else if i >= b.len() {
        assert(a.skip(i).len() != b.skip(i).len());
    } else if a[i] == b[i] {
        lemma_chars_order_equal(a, b, i + 1);
        if a.skip(i + 1) == b.skip(i + 1) {
            assert(a.skip(i + 1).len() == b.skip(i + 1).len());
            assert forall|j: int| 0 <= j < a.skip(i).len() implies a.skip(i)[j] == b.skip(i)[j] by {
                if j > 0 {
                    assert(a.skip(i)[j] == a.skip(i + 1)[j - 1]);
                    assert(b.skip(i)[j] == b.skip(i + 1)[j - 1]);
                }
            }
            assert(a.skip(i).len() == a.skip(i + 1).len() + 1);
            assert(b.skip(i).len() == b.skip(i + 1).len() + 1);
            assert(a.skip(i) =~= b.skip(i));
        }
        if a.skip(i) == b.skip(i) {
            assert(a.skip(i + 1) =~= a.skip(i).skip(1));
            assert(b.skip(i + 1) =~= b.skip(i).skip(1));
        }
    } else {
        assert(a.skip(i)[0] != b.skip(i)[0]);
    }
}

/// Exchanging the two sides of a comparison exchanges `Less` and `Greater`.
pub open spec fn flip(o: Order) -> Order {
    match o {
        Order::Less => Order::Greater,
        Order::Equal => Order::Equal,
        Order::Greater => Order::Less,
    }
}

/// Exchanging two texts exchanges `Less` and `Greater`.
proof fn lemma_chars_order_flip(a: Seq<char>, b: Seq<char>, i: int)
    requires
        0 <= i,
    ensures
        chars_order_from(b, a, i) == flip(chars_order_from(a, b, i)),
    decreases a.len() - i,
{
    if i < a.len() && i < b.len() && a[i] == b[i] {
        lemma_chars_order_flip(a, b, i + 1);
    }
}

/// Two sequences are in the order `Equal` from `i` on exactly when they are
/// the same from `i` on, and exchanging them exchanges `Less` and `Greater`.
proof fn lemma_seq_order_laws(a: Seq<Form>, b: Seq<Form>, i: int)
    requires
        0 <= i <= a.len(),
        i <= b.len(),
    ensures
        (seq_order_from(a, b, i) == Order::Equal) <==> a.skip(i) == b.skip(i),
        seq_order_from(b, a, i) == flip(seq_order_from(a, b, i)),
    decreases a, a.len() - i,
{
    if i >= a.len() {
        if i < b.len() {
            assert(a.skip(i).len() != b.skip(i).len());
        } else {
            assert(a.skip(i) =~= b.skip(i));
        }
    } else if i >= b.len() {
        assert(a.skip(i).len() != b.skip(i).len());
    } else {
        lemma_order_laws(a[i], b[i]);
        if order(a[i], b[i]) == Order::Equal {
            lemma_seq_order_laws(a, b, i + 1);
            if a.skip(i + 1) == b.skip(i + 1) {
                assert(a.skip(i + 1).len() == b.skip(i + 1).len());
                assert forall|j: int| 0 <= j < a.skip(i).len() implies a.skip(i)[j] == b.skip(
                    i,
                )[j] by {
                    if j > 0 {
                        assert(a.skip(i)[j] == a.skip(i + 1)[j - 1]);
                        assert(b.skip(i)[j] == b.skip(i + 1)[j - 1]);
                    }
                }
                assert(a.skip(i).len() == a.skip(i + 1).len() + 1);
                assert(b.skip(i).len() == b.skip(i + 1).len() + 1);
                assert(a.skip(i) =~= b.skip(i));
            }
            if a.skip(i) == b.skip(i) {
                assert(a.skip(i + 1) =~= a.skip(i).skip(1));
                assert(b.skip(i + 1) =~= b.skip(i).skip(1));
            }
        } else {
            assert(a.skip(i)[0] != b.skip(i)[0]);
        }
    }
}

/// The order agrees with equality and is antisymmetric: two expressions are
/// in the order `Equal` exactly when they are the same expression, and `b`
/// stands to `a` as `a` stands to `b`, with `Less` and `Greater` exchanged.
pub proof fn lemma_order_laws(a: Form, b: Form)
    ensures
        (order(a, b) == Order::Equal) <==> a == b,
        order(b, a) == flip(order(a, b)),
    decreases a, 0int,
{
    if variant_rank(a) == variant_rank(b) {
        match a {
            Form::Integer(_) => {},
            Form::Bool(_) => {},
            Form::Symbol(x) => {
                lemma_chars_order_equal(x, b->Symbol_0, 0);
                lemma_chars_order_flip(x, b->Symbol_0, 0);
                assert(x.skip(0) =~= x);
                assert(b->Symbol_0.skip(0) =~= b->Symbol_0);
            },
            Form::List(x) => {
                lemma_seq_order_laws(x, b->List_0, 0);
                assert(x.skip(0) =~= x);
                assert(b->List_0.skip(0) =~= b->List_0);
            },
            Form::Vec(x) => {
                lemma_seq_order_laws(x, b->Vec_0, 0);
                assert(x.skip(0) =~= x);
                assert(b->Vec_0.skip(0) =~= b->Vec_0);
            },
            Form::MapLiteral(x) => {
                lemma_seq_order_laws(x, b->MapLiteral_0, 0);
                assert(x.skip(0) =~= x);
                assert(b->MapLiteral_0.skip(0) =~= b->MapLiteral_0);
            },
            Form::Keyword(x) => {
                lemma_chars_order_equal(x, b->Keyword_0, 0);
                lemma_chars_order_flip(x, b->Keyword_0, 0);
                assert(x.skip(0) =~= x);
                assert(b->Keyword_0.skip(0) =~= b->Keyword_0);
            },
            Form::String(x) => {
                lemma_chars_order_equal(x, b->String_0, 0);
                lemma_chars_order_flip(x, b->String_0, 0);
                assert(x.skip(0) =~= x);
                assert(b->String_0.skip(0) =~= b->String_0);
            },
            Form::Func(_) => {},
            Form::Nil => {},
        }
    }
}

/// The order of texts is transitive.
proof fn lemma_chars_order_transitive(a: Seq<char>, b: Seq<char>, c: Seq<char>, i: int)
    requires
        0 <= i,
        chars_order_from(a, b, i) == Order::Less,
        chars_order_from(b, c, i) == Order::Less,
    ensures
        chars_order_from(a, c, i) == Order::Less,
    decreases a.len() - i,
{
    if i < a.len() && a[i] == b[i] && b[i] == c[i] {
        lemma_chars_order_transitive(a, b, c, i + 1);
    }
}

/// The order of sequences is transitive.
proof fn lemma_seq_order_transitive(a: Seq<Form>, b: Seq<Form>, c: Seq<Form>, i: int)
    requires
        0 <= i,
        seq_order_from(a, b, i) == Order::Less,
        seq_order_from(b, c, i) == Order::Less,
    ensures
        seq_order_from(a, c, i) == Order::Less,
    decreases a, a.len() - i,
{
    if i < a.len() {
        lemma_order_laws(a[i], b[i]);
        lemma_order_laws(b[i], c[i]);
        lemma_order_laws(a[i], c[i]);
        if order(a[i], b[i]) == Order::Less && order(b[i], c[i]) == Order::Less {
            lemma_order_transitive(a[i], b[i], c[i]);
        } else if order(a[i], b[i]) == Order::Equal && order(b[i], c[i]) == Order::Equal {
            lemma_seq_order_transitive(a, b, c, i + 1);
        }
    }
}

/// The order is transitive: what comes before an expression comes before
/// everything that this expression comes before.
pub proof fn lemma_order_transitive(a: Form, b: Form, c: Form)
    requires
        order(a, b) == Order::Less,
        order(b, c) == Order::Less,
    ensures
        order(a, c) == Order::Less,
    decreases a, 0int,
{
    if variant_rank(a) == variant_rank(b) && variant_rank(b) == variant_rank(c) {
        match a {
            Form::Symbol(x) => {
                lemma_chars_order_transitive(x, b->Symbol_0, c->Symbol_0, 0);
            },
            Form::Keyword(x) => {
                lemma_chars_order_transitive(x, b->Keyword_0, c->Keyword_0, 0);
            },
            Form::String(x) => {
                lemma_chars_order_transitive(x, b->String_0, c->String_0, 0);
            },
            Form::List(x) => {
                lemma_seq_order_transitive(x, b->List_0, c->List_0, 0);
            },
            Form::Vec(x) => {
                lemma_seq_order_transitive(x, b->Vec_0, c->Vec_0, 0);
            },
            Form::MapLiteral(x) => {
                lemma_seq_order_transitive(x, b->MapLiteral_0, c->MapLiteral_0, 0);
            },
            _ => {},
        }
    }
}

/// The place of a primitive among the primitives.
fn rank_of(b: Builtin) -> (r: u8)
    ensures
        r == builtin_rank(b),
{
    match b {
        Builtin::Add => 0,
        Builtin::Subtract => 1,
        Builtin::Multiply => 2,
        Builtin::Divide => 3,
        Builtin::Prn => 4,
        Builtin::Println => 5,
        Builtin::PrStr => 6,
        Builtin::Str => 7,
        Builtin::List => 8,
        Builtin::IsList => 9,
        Builtin::IsEmpty => 10,
        Builtin::Count => 11,
        Builtin::Eq => 12,
        Builtin::Lt => 13,
        Builtin::Gt => 14,
        Builtin::Le => 15,
        Builtin::Ge => 16,
    }
}

/// The place of an expression's variant among the variants.
fn variant_of(s: &Sexp) -> (r: u8)
    ensures
        r == variant_rank(s@),
{
    match s {
        Sexp::Integer(_) => 0,
        Sexp::Bool(_) => 1,
        Sexp::Symbol(_) => 2,
        Sexp::List(_) => 3,
        Sexp::Vec(_) => 4,
        Sexp::MapLiteral(_) => 5,
        Sexp::Keyword(_) => 6,
        Sexp::String(_) => 7,
        Sexp::Func(_) => 8,
        Sexp::Nil => 9,
    }
}

/// The order of two small numbers.
fn compare_ranks(a: u8, b: u8) -> (r: Order)
    ensures
        r == int_order(a as int, b as int),
{
    if a < b {
        Order::Less
    } else if a == b {
        Order::Equal
    } else {
        Order::Greater
    }
}

/// The order of two texts.
fn compare_texts(a: &str, b: &str) -> (r: Order)
    ensures
        r == chars_order(a@, b@),
{
    let x = chars_of(a);
    let y = chars_of(b);
    let mut i: usize = 0;
    while i < x.len() && i < y.len()
        invariant
            i <= x.len(),
            i <= y.len(),
            x@ == a@,
            y@ == b@,
            chars_order_from(x@, y@, i as int) == chars_order(x@, y@),
        decreases x.len() - i,
    {
        let c: char = x[i];
        let d: char = y[i];
        if c < d {
            return Order::Less;
        }
        if c != d {
            return Order::Greater;
        }
        i += 1;
    }
    if i < y.len() {
        Order::Less
    } else if i < x.len() {
        Order::Greater
    } else {
        Order::Equal
    }
}

/// The order of two sequences of expressions.
fn compare_items(a: &[Sexp], b: &[Sexp]) -> (r: Order)
    ensures
        r == seq_order_from(forms_of(a@), forms_of(b@), 0),
    decreases forms_of(a@), 1int,
{
    broadcast use group_forms;

    let ghost x = forms_of(a@);
    let ghost y = forms_of(b@);
    let mut i: usize = 0;
    while i < a.len() && i < b.len()
        invariant
            i <= a.len(),
            i <= b.len(),
            x == forms_of(a@),
            y == forms_of(b@),
            seq_order_from(x, y, i as int) == seq_order_from(x, y, 0),
        decreases a.len() - i,
    {
        assert(x[i as int] == a@[i as int]@);
        assert(y[i as int] == b@[i as int]@);
        match compare(&a[i], &b[i]) {
            Order::Equal => {},
            decided => {
                return decided;
            },
        }
        i += 1;
    }
    assert(x.len() == a.len() && y.len() == b.len());
    if i < b.len() {
        Order::Less
    } else if i < a.len() {
        Order::Greater
    } else {
        Order::Equal
    }
}

/// The order of two expressions.
pub fn compare(a: &Sexp, b: &Sexp) -> (r: Order)
    ensures
        r == order(a@, b@),
    decreases a@, 0int,
{
    broadcast use group_forms;

    let ra = variant_of(a);
    let rb = variant_of(b);
    if ra != rb {
        return compare_ranks(ra, rb);
    }
    match a {
        Sexp::Integer(x) => match b {
            Sexp::Integer(y) => if *x < *y {
                Order::Less
            } else if *x == *y {
                Order::Equal
            } else {
                Order::Greater
            },
            _ => Order::Equal,
        },
        Sexp::Bool(x) => match b {
            Sexp::Bool(y) => if !*x && *y {
                Order::Less
            } else if *x == *y {
                Order::Equal
            } else {
                Order::Greater
            },
            _ => Order::Equal,
        },
        Sexp::Symbol(x) => match b {
            Sexp::Symbol(y) => compare_texts(x.as_str(), y.as_str()),
            _ => Order::Equal,
        },
        Sexp::List(x) => match b {
            Sexp::List(y) => {
                assert(a@->List_0 == forms_of(x@));
                compare_items(x.as_slice(), y.as_slice())
            },
            _ => Order::Equal,
        },
        Sexp::Vec(x) => match b {
            Sexp::Vec(y) => {
                assert(a@->Vec_0 == forms_of(x@));
                compare_items(x.as_slice(), y.as_slice())
            },
            _ => Order::Equal,
        },
        Sexp::MapLiteral(x) => match b {
            Sexp::MapLiteral(y) => {
                assert(a@->MapLiteral_0 == forms_of(x@));
                compare_items(x.as_slice(), y.as_slice())
            },
            _ => Order::Equal,
        },
        Sexp::Keyword(x) => match b {
            Sexp::Keyword(y) => compare_texts(x.as_str(), y.as_str()),
            _ => Order::Equal,
        },
        Sexp::String(x) => match b {
            Sexp::String(y) => compare_texts(x.as_str(), y.as_str()),
            _ => Order::Equal,
        },
        Sexp::Func(x) => match b {
            Sexp::Func(y) => compare_ranks(rank_of(*x), rank_of(*y)),
            _ => Order::Equal,
        },
        Sexp::Nil => Order::Equal,
    }
}

} // verus!

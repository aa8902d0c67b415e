//! Laws: what holds of every environment, of every expression that is
//! evaluated, and of every string that is printed.

use crate::builtins::{builtin_output, builtin_value, mismatch, operands};
use crate::env::{bind, lookup, nested, EvalFault, Scope};
use crate::semantics::{
    applied, eval, eval_all, eval_bindings, eval_def, eval_do, eval_let, head_is, Outcome,
};
use crate::types::{escape, escape_char, Builtin, Form};
use vstd::prelude::*;

verus! {

/// Two chains of scopes that differ in their innermost scope at most.
pub open spec fn same_outer(a: Seq<Scope>, b: Seq<Scope>) -> bool {
    a.len() == b.len() && forall|k: int| 1 <= k < a.len() ==> a[k] == b[k]
}

/// A name has the value that it was bound to last.
pub proof fn lemma_bind_then_lookup(scopes: Seq<Scope>, name: Seq<char>, value: Form)
    requires
        scopes.len() >= 1,
    ensures
        lookup(bind(scopes, name, value), name) == Some(value),
{
}

/// Binding a name leaves every other name as it was.
pub proof fn lemma_bind_leaves_others(
    scopes: Seq<Scope>,
    name: Seq<char>,
    value: Form,
    other: Seq<char>,
)
    requires
        other != name,
    ensures
        lookup(bind(scopes, name, value), other) == lookup(scopes, other),
{
    if scopes.len() > 0 {
        assert(bind(scopes, name, value).skip(1) =~= scopes.skip(1));
    }
}

/// Binding a name changes the innermost scope only: it may hide what an
/// outer scope binds, and never changes it.
pub proof fn lemma_bind_is_local(scopes: Seq<Scope>, name: Seq<char>, value: Form)
    ensures
        same_outer(bind(scopes, name, value), scopes),
{
}

/// A new scope sees everything that the scopes around it bind.
pub proof fn lemma_nested_sees_outer(scopes: Seq<Scope>, name: Seq<char>)
    ensures
        lookup(nested(scopes), name) == lookup(scopes, name),
{
    assert(nested(scopes).skip(1) =~= scopes);
}

/// What is bound in a new scope is bound in that scope alone: without the
/// scope, everything is as it was.
pub proof fn lemma_nested_is_local(scopes: Seq<Scope>, name: Seq<char>, value: Form)
    ensures
        bind(nested(scopes), name, value).skip(1) == scopes,
{
    assert(bind(nested(scopes), name, value).skip(1) =~= scopes);
}

/// The characters that the body of a string literal stands for: what follows
/// a backslash stands for itself, but for `n`, which stands for a line feed.
pub open spec fn unescape(t: Seq<char>) -> Seq<char>
    decreases t.len(),
{
    if t.len() == 0 {
        Seq::empty()
    } else if t[0] == '\\' && t.len() >= 2 {
        seq![
            if t[1] == 'n' {
                '\n'
            } else {
                t[1]
            },
        ] + unescape(t.skip(2))
    } else {
        seq![t[0]] + unescape(t.skip(1))
    }
}

/// Escaping a string is escaping its first character, then the rest.
proof fn lemma_escape_front(s: Seq<char>)
    requires
        s.len() > 0,
    ensures
        escape(s) == escape_char(s[0]) + escape(s.skip(1)),
    decreases s.len(),
{
    if s.len() == 1 {
        assert(s.drop_last() =~= Seq::<char>::empty());
        assert(s.skip(1) =~= Seq::<char>::empty());
        assert(escape(s.drop_last()) + escape_char(s.last()) =~= escape_char(s[0]) + escape(
            s.skip(1),
        ));
    } else {
        lemma_escape_front(s.drop_last());
        assert(s.drop_last().skip(1) =~= s.skip(1).drop_last());
        assert((escape_char(s[0]) + escape(s.skip(1).drop_last())) + escape_char(s.last())
            =~= escape_char(s[0]) + (escape(s.skip(1).drop_last()) + escape_char(s.last())));
    }
}

/// Escaping is faithful: what the escaped characters stand for are the
/// characters that were escaped.
pub proof fn lemma_unescape_escape(s: Seq<char>)
    ensures
        unescape(escape(s)) == s,
    decreases s.len(),
{
    if s.len() > 0 {
        lemma_escape_front(s);
        lemma_unescape_escape(s.skip(1));
        let first = escape_char(s[0]);
        let rest = escape(s.skip(1));
        let t = first + rest;
        if first.len() == 2 {
            assert(t.skip(2) =~= rest);
        } else {
            assert(t.skip(1) =~= rest);
        }
        assert(seq![s[0]] + s.skip(1) =~= s);
    }
}

/// Two strings that are escaped to the same characters are the same string.
pub proof fn lemma_escape_is_injective(a: Seq<char>, b: Seq<char>)
    requires
        escape(a) == escape(b),
    ensures
        a == b,
{
    lemma_unescape_escape(a);
    lemma_unescape_escape(b);
}

/// The lines `a`, and perhaps more lines behind them.
pub open spec fn extends(b: Seq<Seq<char>>, a: Seq<Seq<char>>) -> bool {
    a.len() <= b.len() && b.take(a.len() as int) == a
}

/// What evaluation leaves alone: every scope but the innermost, and every
/// line that was printed before.
pub open spec fn contained(o: Outcome, env: Seq<Scope>, out: Seq<Seq<char>>) -> bool {
    same_outer(o.env, env) && extends(o.out, out)
}

/// Every sequence of lines extends itself.
proof fn lemma_extends_refl(a: Seq<Seq<char>>)
    ensures
        extends(a, a),
{
    assert(a.take(a.len() as int) =~= a);
}

/// What extends an extension extends what was extended.
proof fn lemma_extends_trans(c: Seq<Seq<char>>, b: Seq<Seq<char>>, a: Seq<Seq<char>>)
    requires
        extends(c, b),
        extends(b, a),
    ensures
        extends(c, a),
{
    assert(c.take(a.len() as int) =~= c.take(b.len() as int).take(a.len() as int));
}

/// Evaluating the elements of a sequence leaves the outer scopes and the
/// lines printed before as they were.
proof fn lemma_eval_all_contained(v: Seq<Form>, i: int, env: Seq<Scope>, out: Seq<Seq<char>>)
    ensures
        same_outer(eval_all(v, i, env, out).env, env),
        extends(eval_all(v, i, env, out).out, out),
    decreases v, v.len() - i,
{
    lemma_extends_refl(out);
    if 0 <= i < v.len() {
        lemma_eval_contained(v[i], env, out);
        let first = eval(v[i], env, out);
        if first.result is Ok {
            lemma_eval_all_contained(v, i + 1, first.env, first.out);
            lemma_extends_trans(eval_all(v, i + 1, first.env, first.out).out, first.out, out);
        }
    }
}

/// `do` leaves the outer scopes and the lines printed before as they were.
proof fn lemma_eval_do_contained(
    v: Seq<Form>,
    i: int,
    last: Form,
    env: Seq<Scope>,
    out: Seq<Seq<char>>,
)
    ensures
        contained(eval_do(v, i, last, env, out), env, out),
    decreases v, v.len() - i,
{
    lemma_extends_refl(out);
    if 0 <= i < v.len() {
        lemma_eval_contained(v[i], env, out);
        let first = eval(v[i], env, out);
        if first.result is Ok {
            lemma_eval_do_contained(v, i + 1, first.result->Ok_0, first.env, first.out);
            lemma_extends_trans(
                eval_do(v, i + 1, first.result->Ok_0, first.env, first.out).out,
                first.out,
                out,
            );
        }
    }
}

/// Binding names to values leaves the outer scopes and the lines printed
/// before as they were.
proof fn lemma_eval_bindings_contained(
    b: Seq<Form>,
    i: int,
    env: Seq<Scope>,
    out: Seq<Seq<char>>,
)
    ensures
        contained(eval_bindings(b, i, env, out), env, out),
    decreases b, b.len() - i,
{
    lemma_extends_refl(out);
    if 0 <= i && i + 1 < b.len() {
        lemma_eval_contained(b[i + 1], env, out);
        let value = eval(b[i + 1], env, out);
        if value.result is Ok {
            let next = bind(value.env, b[i]->Symbol_0, value.result->Ok_0);
            lemma_eval_bindings_contained(b, i + 2, next, value.out);
            lemma_extends_trans(eval_bindings(b, i + 2, next, value.out).out, value.out, out);
        }
    }
}

/// `def!` leaves the outer scopes and the lines printed before as they were.
proof fn lemma_eval_def_contained(v: Seq<Form>, env: Seq<Scope>, out: Seq<Seq<char>>)
    ensures
        contained(eval_def(v, env, out), env, out),
    decreases v, 0int,
{
    lemma_extends_refl(out);
    if v.len() == 3 {
        lemma_eval_contained(v[2], env, out);
    }
}

/// `let*` leaves every scope and the lines printed before as they were.
proof fn lemma_eval_let_contained(v: Seq<Form>, env: Seq<Scope>, out: Seq<Seq<char>>)
    ensures
        eval_let(v, env, out).env == env,
        extends(eval_let(v, env, out).out, out),
    decreases v, 0int,
{
    lemma_extends_refl(out);
    if v.len() == 3 {
        match v[1] {
            Form::List(b) => {
                lemma_eval_bindings_contained(b, 0, nested(env), out);
                let bound = eval_bindings(b, 0, nested(env), out);
                lemma_eval_contained(v[2], bound.env, bound.out);
                lemma_extends_trans(eval(v[2], bound.env, bound.out).out, bound.out, out);
            },
            Form::Vec(b) => {
                lemma_eval_bindings_contained(b, 0, nested(env), out);
                let bound = eval_bindings(b, 0, nested(env), out);
                lemma_eval_contained(v[2], bound.env, bound.out);
                lemma_extends_trans(eval(v[2], bound.env, bound.out).out, bound.out, out);
            },
            _ => {},
        }
    }
}

/// An application leaves the outer scopes and the lines printed before as
/// they were.
proof fn lemma_applied_contained(v: Seq<Form>, env: Seq<Scope>, out: Seq<Seq<char>>)
    ensures
        contained(applied(eval_all(v, 0, env, out)), env, out),
    decreases v, v.len() + 1,
{
    lemma_eval_all_contained(v, 0, env, out);
    let e = eval_all(v, 0, env, out);
    let o = applied(e);
    assert(o.out.take(e.out.len() as int) =~= e.out);
    lemma_extends_trans(o.out, e.out, out);
}

/// Evaluation binds names in the innermost scope only, and only adds to what
/// was printed: it leaves every outer scope as it was, keeps the number of
/// scopes, and keeps every line that was printed before, in its place.
pub proof fn lemma_eval_contained(f: Form, env: Seq<Scope>, out: Seq<Seq<char>>)
    ensures
        same_outer(eval(f, env, out).env, env),
        extends(eval(f, env, out).out, out),
    decreases f, 0int,
{
    lemma_extends_refl(out);
    match f {
        Form::List(v) => {
            if v.len() == 0 {
            } else if head_is(v, "def!"@) {
                lemma_eval_def_contained(v, env, out);
            } else if head_is(v, "let*"@) {
                lemma_eval_let_contained(v, env, out);
            } else if head_is(v, "do"@) {
                lemma_eval_do_contained(v, 1, Form::Nil, env, out);
            } else {
                lemma_applied_contained(v, env, out);
            }
        },
        Form::Vec(v) => {
            if v.len() == 0 {
            } else if head_is(v, "let*"@) {
                lemma_eval_let_contained(v, env, out);
            } else {
                lemma_applied_contained(v, env, out);
            }
        },
        _ => {},
    }
}

/// A `let*` form leaves the environment exactly as it was, whatever its
/// bindings and its body do: what is bound inside it is gone when it ends.
pub proof fn lemma_let_is_local(v: Seq<Form>, env: Seq<Scope>, out: Seq<Seq<char>>)
    requires
        head_is(v, "let*"@),
    ensures
        eval(Form::List(v), env, out).env == env,
        eval(Form::Vec(v), env, out).env == env,
{
    reveal_strlit("let*");
    reveal_strlit("def!");
    assert("let*"@ != "def!"@) by {
        assert("let*"@[0] == 'l');
        assert("def!"@[0] == 'd');
    }
    lemma_eval_let_contained(v, env, out);
}

/// The form `(def! name e)`.
pub open spec fn def_form(name: Seq<char>, e: Form) -> Form {
    Form::List(seq![Form::Symbol("def!"@), Form::Symbol(name), e])
}

/// After `(def! name e)` gave a value, the symbol `name` has that value in
/// the environment that the form left behind.
pub proof fn lemma_def_binds(name: Seq<char>, e: Form, env: Seq<Scope>, out: Seq<Seq<char>>)
    requires
        env.len() >= 1,
    ensures
        eval(def_form(name, e), env, out).result is Ok ==> eval(
            Form::Symbol(name),
            eval(def_form(name, e), env, out).env,
            eval(def_form(name, e), env, out).out,
        ).result == eval(def_form(name, e), env, out).result,
{
    let v = seq![Form::Symbol("def!"@), Form::Symbol(name), e];
    let o = eval(def_form(name, e), env, out);
    assert(head_is(v, "def!"@));
    assert(o == eval_def(v, env, out));
    lemma_eval_contained(e, env, out);
    let inner = eval(e, env, out);
    if inner.result is Ok {
        let x = inner.result->Ok_0;
        assert(o.env == bind(inner.env, name, x));
        assert(o.env[0].contains_key(name));
        assert(o.result == Ok::<Form, EvalFault>(x));
    }
}

/// An arithmetic primitive fails on everything but two integers, and says
/// which primitive it was and what it got.
pub proof fn lemma_arithmetic_arity(b: Builtin, args: Seq<Form>)
    requires
        b == Builtin::Add || b == Builtin::Subtract || b == Builtin::Multiply || b
            == Builtin::Divide,
        operands(args) is None,
    ensures
        builtin_value(b, args) == mismatch(b, args),
        builtin_output(b, args) == Seq::<Seq<char>>::empty(),
{
}

} // verus!

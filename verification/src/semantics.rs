//! What evaluation means: the value of an expression in an environment, the
//! environment that evaluation leaves behind, and the lines that it prints.

use crate::builtins::{builtin_output, builtin_value};
use crate::env::{bind, lookup, nested, EvalFault, Malformation, Scope, SpecialForm};
use crate::types::Form;
use vstd::prelude::*;

verus! {

/// What evaluating one expression gives: its value or the reason why it has
/// none, the scopes as evaluation left them, and the lines printed up to
/// then.
pub ghost struct Outcome {
    pub result: Result<Form, EvalFault>,
    pub env: Seq<Scope>,
    pub out: Seq<Seq<char>>,
}

/// What evaluating the elements of a sequence gives: their values or the
/// first reason why one has none, the scopes as evaluation left them, and the
/// lines printed up to then.
pub ghost struct Evaluated {
    pub result: Result<Seq<Form>, EvalFault>,
    pub env: Seq<Scope>,
    pub out: Seq<Seq<char>>,
}

/// The outcome of an expression that is its own value.
pub open spec fn kept(f: Form, env: Seq<Scope>, out: Seq<Seq<char>>) -> Outcome {
    Outcome { result: Ok(f), env, out }
}

/// The outcome of an expression that has no value.
pub open spec fn failed(fault: EvalFault, env: Seq<Scope>, out: Seq<Seq<char>>) -> Outcome {
    Outcome { result: Err(fault), env, out }
}

/// The outcome of a symbol: the value that the innermost scope binding it
/// gives it.
pub open spec fn resolved(name: Seq<char>, env: Seq<Scope>, out: Seq<Seq<char>>) -> Outcome {
    match lookup(env, name) {
        Some(value) => kept(value, env, out),
        None => failed(EvalFault::UnknownSymbol(name), env, out),
    }
}

/// `v` is not empty and begins with the symbol `name`.
pub open spec fn head_is(v: Seq<Form>, name: Seq<char>) -> bool {
    v.len() > 0 && v[0] == Form::Symbol(name)
}

/// The elements of a list or a vector.
pub open spec fn elements(f: Form) -> Seq<Form> {
    match f {
        Form::List(v) => v,
        Form::Vec(v) => v,
        _ => Seq::empty(),
    }
}

/// What is wrong with the shape of a `def!` form, if anything: it has three
/// elements, and the second is a symbol.
pub open spec fn def_shape(v: Seq<Form>) -> Option<Malformation> {
    if v.len() != 3 {
        Some(Malformation::Length)
    } else if !(v[1] is Symbol) {
        Some(Malformation::Name)
    } else {
        None
    }
}

/// Every second element of `b`, from the first on, is a symbol.
pub open spec fn names_are_symbols(b: Seq<Form>) -> bool {
    forall|i: int| 0 <= i < b.len() && i % 2 == 0 ==> (#[trigger] b[i]) is Symbol
}

/// What is wrong with the shape of a `let*` form, if anything: it has three
/// elements, and the second is a list or a vector of names and expressions
/// in turn, each name a symbol.
pub open spec fn let_shape(v: Seq<Form>) -> Option<Malformation> {
    if v.len() != 3 {
        Some(Malformation::Length)
    } else if !(v[1] is List || v[1] is Vec) {
        Some(Malformation::Bindings)
    } else if elements(v[1]).len() % 2 != 0 {
        Some(Malformation::Pairing)
    } else if !names_are_symbols(elements(v[1])) {
        Some(Malformation::Name)
    } else {
        None
    }
}

/// The outcome of `def!`, where evaluating its expression gave `value`: the
/// name is bound to the value in the innermost scope.
pub open spec fn defined(name: Seq<char>, value: Outcome) -> Outcome {
    match value.result {
        Ok(x) => Outcome { result: Ok(x), env: bind(value.env, name, x), out: value.out },
        Err(_) => value,
    }
}

/// The outcome of `let*`, where evaluating inside its scope gave `inner`:
/// the scope is left, and the scopes are those from before.
pub open spec fn left(env: Seq<Scope>, inner: Outcome) -> Outcome {
    Outcome { result: inner.result, env, out: inner.out }
}

/// What applying the first of `values` to the others returns: the first must
/// be a primitive.
pub open spec fn call_value(values: Seq<Form>) -> Result<Form, EvalFault> {
    match values[0] {
        Form::Func(b) => builtin_value(b, values.skip(1)),
        other => Err(EvalFault::NotAFunction(other)),
    }
}

/// The lines that applying the first of `values` to the others prints.
pub open spec fn call_output(values: Seq<Form>) -> Seq<Seq<char>> {
    match values[0] {
        Form::Func(b) => builtin_output(b, values.skip(1)),
        _ => Seq::empty(),
    }
}

/// The outcome of an application whose elements gave `e`: the first value is
/// applied to the others.
pub open spec fn applied(e: Evaluated) -> Outcome {
    match e.result {
        Err(fault) => failed(fault, e.env, e.out),
        Ok(values) => Outcome {
            result: call_value(values),
            env: e.env,
            out: e.out + call_output(values),
        },
    }
}

/// Evaluating the expressions `v[i..]`, one after the other, up to the first
/// that has no value.
pub open spec fn eval_all(v: Seq<Form>, i: int, env: Seq<Scope>, out: Seq<Seq<char>>) -> Evaluated
    decreases v, v.len() - i,
{
    if i < 0 || i >= v.len() {
        Evaluated { result: Ok(Seq::empty()), env, out }
    } else {
        let first = eval(v[i], env, out);
        match first.result {
            Err(fault) => Evaluated { result: Err(fault), env: first.env, out: first.out },
            Ok(x) => {
                let rest = eval_all(v, i + 1, first.env, first.out);
                Evaluated {
                    result: match rest.result {
                        Ok(xs) => Ok(seq![x] + xs),
                        Err(fault) => Err(fault),
                    },
                    env: rest.env,
                    out: rest.out,
                }
            },
        }
    }
}

/// Evaluating the expressions `v[i..]`, one after the other, for the value of
/// the last, and no further than the first that has no value; `last` is the
/// value of the expression before them.
pub open spec fn eval_do(
    v: Seq<Form>,
    i: int,
    last: Form,
    env: Seq<Scope>,
    out: Seq<Seq<char>>,
) -> Outcome
    decreases v, v.len() - i,
{
    if i < 0 || i >= v.len() {
        kept(last, env, out)
    } else {
        let first = eval(v[i], env, out);
        match first.result {
            Err(_) => first,
            Ok(x) => eval_do(v, i + 1, x, first.env, first.out),
        }
    }
}

/// Binding the names `b[i]`, `b[i + 2]`, ... to the values of the
/// expressions that follow them, one after the other in the innermost scope,
/// so that an expression sees the names bound before it; no further than
/// the first expression that has no value.
pub open spec fn eval_bindings(
    b: Seq<Form>,
    i: int,
    env: Seq<Scope>,
    out: Seq<Seq<char>>,
) -> Outcome
    decreases b, b.len() - i,
{
    if i < 0 || i + 1 >= b.len() {
        kept(Form::Nil, env, out)
    } else {
        let value = eval(b[i + 1], env, out);
        match value.result {
            Err(_) => value,
            Ok(x) => eval_bindings(b, i + 2, bind(value.env, b[i]->Symbol_0, x), value.out),
        }
    }
}

/// Evaluating the form `v` that begins with `def!`.
pub open spec fn eval_def(v: Seq<Form>, env: Seq<Scope>, out: Seq<Seq<char>>) -> Outcome
    decreases v, 0int,
{
    match def_shape(v) {
        Some(m) => failed(EvalFault::MalformedSpecialForm(SpecialForm::Def, m), env, out),
        None => defined(v[1]->Symbol_0, eval(v[2], env, out)),
    }
}

/// Evaluating the form `v` that begins with `let*`.
pub open spec fn eval_let(v: Seq<Form>, env: Seq<Scope>, out: Seq<Seq<char>>) -> Outcome
    decreases v, 0int,
{
    match let_shape(v) {
        Some(m) => failed(EvalFault::MalformedSpecialForm(SpecialForm::Let, m), env, out),
        None => {
            let bound = match v[1] {
                Form::List(b) => eval_bindings(b, 0, nested(env), out),
                Form::Vec(b) => eval_bindings(b, 0, nested(env), out),
                _ => kept(Form::Nil, nested(env), out),
            };
            match bound.result {
                Err(_) => left(env, bound),
                Ok(_) => left(env, eval(v[2], bound.env, bound.out)),
            }
        },
    }
}

/// Evaluating the expression `f` in the scopes `env`, after the lines `out`
/// were printed.
///
/// An empty list or vector is its own value. A list that begins with `def!`
/// or `do`, and a list or vector that begins with `let*`, is a special form;
/// `do` without an expression has the value `nil`. Every other list or
/// vector is an application. A symbol has the value bound to it. Everything
/// else is its own value.
pub open spec fn eval(f: Form, env: Seq<Scope>, out: Seq<Seq<char>>) -> Outcome
    decreases f, 0int,
{
    match f {
        Form::Symbol(name) => resolved(name, env, out),
        Form::List(v) => if v.len() == 0 {
            kept(f, env, out)
        } else if head_is(v, "def!"@) {
            eval_def(v, env, out)
        } else if head_is(v, "let*"@) {
            eval_let(v, env, out)
        } else if head_is(v, "do"@) {
            eval_do(v, 1, Form::Nil, env, out)
        } else {
            applied(eval_all(v, 0, env, out))
        },
        Form::Vec(v) => if v.len() == 0 {
            kept(f, env, out)
        } else if head_is(v, "let*"@) {
            eval_let(v, env, out)
        } else {
            applied(eval_all(v, 0, env, out))
        },
        _ => kept(f, env, out),
    }
}

/// What `apply` gives: the value of a symbol, the values of the elements of
/// a list or vector in a sequence of the same kind, and everything else as
/// it is.
pub open spec fn apply_outcome(f: Form, env: Seq<Scope>, out: Seq<Seq<char>>) -> Outcome {
    match f {
        Form::Symbol(name) => resolved(name, env, out),
        Form::List(v) => {
            let e = eval_all(v, 0, env, out);
            Outcome {
                result: match e.result {
                    Ok(values) => Ok(Form::List(values)),
                    Err(fault) => Err(fault),
                },
                env: e.env,
                out: e.out,
            }
        },
        Form::Vec(v) => {
            let e = eval_all(v, 0, env, out);
            Outcome {
                result: match e.result {
                    Ok(values) => Ok(Form::Vec(values)),
                    Err(fault) => Err(fault),
                },
                env: e.env,
                out: e.out,
            }
        },
        _ => kept(f, env, out),
    }
}

} // verus!

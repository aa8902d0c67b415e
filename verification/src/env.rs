//! Environments and the evaluator.

use crate::builtins::lines;
use crate::semantics::{
    apply_outcome, call_output, call_value, elements, eval, eval_all, eval_bindings, eval_def,
    eval_do, eval_let, names_are_symbols, Outcome,
};
use crate::text::same_text;
use crate::types::{forms_of, group_forms, lemma_forms_of_push, Builtin, Form, Sexp};
use vstd::prelude::*;
use vstd::slice::slice_subrange;

verus! {

/// The special forms that ask for a shape.
#[derive(Clone, Copy, Debug, PartialEq, Eq, Structural)]
pub enum SpecialForm {
    /// `(def! name value)`
    Def,
    /// `(let* (name value ...) body)`
    Let,
}

/// What is wrong with the shape of a special form.
#[derive(Clone, Copy, Debug, PartialEq, Eq, Structural)]
pub enum Malformation {
    /// The form does not have exactly three elements.
    Length,
    /// The bindings of `let*` are neither a list nor a vector.
    Bindings,
    /// The bindings of `let*` are odd in number: a name has no value.
    Pairing,
    /// What stands where a name is bound is no symbol.
    Name,
}

/// Why an expression has no value.
#[derive(Debug, PartialEq)]
pub enum EvalError {
    /// No scope of the environment binds the symbol.
    UnknownSymbol(String),
    /// A special form does not have the shape it asks for.
    MalformedSpecialForm(SpecialForm, Malformation),
    /// The first element of an application has a value that is no function.
    NotAFunction(Sexp),
    /// A primitive got arguments of the wrong number or kind.
    ArityOrTypeMismatch(Builtin, Vec<Sexp>),
    /// An integer was divided by zero.
    DivisionByZero,
}

/// An [`EvalError`] as a mathematical value.
pub ghost enum EvalFault {
    UnknownSymbol(Seq<char>),
    MalformedSpecialForm(SpecialForm, Malformation),
    NotAFunction(Form),
    ArityOrTypeMismatch(Builtin, Seq<Form>),
    DivisionByZero,
}

impl View for EvalError {
    type V = EvalFault;

    open spec fn view(&self) -> EvalFault {
        match self {
            EvalError::UnknownSymbol(s) => EvalFault::UnknownSymbol(s@),
            EvalError::MalformedSpecialForm(form, reason) => EvalFault::MalformedSpecialForm(
                *form,
                *reason,
            ),
            EvalError::NotAFunction(s) => EvalFault::NotAFunction(s@),
            EvalError::ArityOrTypeMismatch(b, args) => EvalFault::ArityOrTypeMismatch(
                *b,
                forms_of(args@),
            ),
            EvalError::DivisionByZero => EvalFault::DivisionByZero,
        }
    }
}

/// The value of what evaluation returns.
pub open spec fn value_of(r: Result<Sexp, EvalError>) -> Result<Form, EvalFault> {
    match r {
        Ok(s) => Ok(s@),
        Err(e) => Err(e@),
    }
}

/// One scope: the values that it binds, by name.
pub type Scope = Map<Seq<char>, Form>;

/// A name and the value bound to it.
struct Binding {
    name: String,
    value: Sexp,
}

/// The scope that a sequence of bindings makes: a later binding of a name
/// replaces an earlier one.
spec fn scope_of(data: Seq<Binding>) -> Scope
    decreases data.len(),
{
    if data.len() == 0 {
        Map::empty()
    } else {
        scope_of(data.drop_last()).insert(data.last().name@, data.last().value@)
    }
}

/// The value that the innermost scope binding `name` gives it.
pub open spec fn lookup(scopes: Seq<Scope>, name: Seq<char>) -> Option<Form>
    decreases scopes.len(),
{
    if scopes.len() == 0 {
        None
    } else if scopes[0].contains_key(name) {
        Some(scopes[0][name])
    } else {
        lookup(scopes.skip(1), name)
    }
}

/// The scopes after `name` was bound to `value` in the innermost of them.
pub open spec fn bind(scopes: Seq<Scope>, name: Seq<char>, value: Form) -> Seq<Scope> {
    if scopes.len() == 0 {
        scopes
    } else {
        scopes.update(0, scopes[0].insert(name, value))
    }
}

/// The scopes with a new, empty scope inside them.
pub open spec fn nested(scopes: Seq<Scope>) -> Seq<Scope> {
    seq![Map::<Seq<char>, Form>::empty()] + scopes
}

/// The value of what a lookup returns.
pub open spec fn found(r: Option<Sexp>) -> Option<Form> {
    match r {
        Some(s) => Some(s@),
        None => None,
    }
}

/// A chain of scopes, the innermost first. A name is looked up from the
/// innermost scope outward, and bound in the innermost scope only.
pub struct Env {
    outer: Option<Box<Env>>,
    data: Vec<Binding>,
}

/// The scopes of an environment, the innermost first.
spec fn scopes_of(env: Env) -> Seq<Scope>
    decreases env,
{
    seq![scope_of(env.data@)] + match env.outer {
        Some(outer) => scopes_of(*outer),
        None => Seq::empty(),
    }
}

impl View for Env {
    type V = Seq<Scope>;

    closed spec fn view(&self) -> Seq<Scope> {
        scopes_of(*self)
    }
}

/// A copy of a binding.
fn copy_of(b: &Binding) -> (r: Binding)
    ensures
        r.name@ == b.name@,
        r.value@ == b.value@,
{
    Binding { name: b.name.clone(), value: b.value.clone() }
}

impl Clone for Env {
    /// A copy that holds the same scopes.
    fn clone(&self) -> (r: Env)
        ensures
            r@ == self@,
        decreases self,
    {
        let mut data: Vec<Binding> = Vec::new();
        let mut i: usize = 0;
        assert(self.data@.take(0) =~= Seq::<Binding>::empty());
        while i < self.data.len()
            invariant
                i <= self.data.len(),
                data.len() == i,
                scope_of(data@) == scope_of(self.data@.take(i as int)),
            decreases self.data.len() - i,
        {
            let ghost before = data@;
            data.push(copy_of(&self.data[i]));
            proof {
                assert(data@.drop_last() =~= before);
                assert(self.data@.take(i + 1).drop_last() =~= self.data@.take(i as int));
            }
            i += 1;
        }
        assert(self.data@.take(i as int) =~= self.data@);
        let outer = match &self.outer {
            Some(outer) => Some(Box::new((&**outer).clone())),
            None => None,
        };
        Env { outer, data }
    }
}

impl Env {
    /// A new, empty scope inside `outer`, or by itself.
    pub fn new(outer: Option<Env>) -> (r: Self)
        ensures
            r@ == nested(
                match outer {
                    Some(env) => env@,
                    None => Seq::empty(),
                },
            ),
    {
        match outer {
            Some(env) => Env { outer: Some(Box::new(env)), data: Vec::new() },
            None => Env { outer: None, data: Vec::new() },
        }
    }

    /// An environment holds at least one scope.
    pub proof fn lemma_scopes(&self)
        ensures
            self@.len() >= 1,
    {
    }

    /// Binds `symbol` to a copy of `sexp` in the innermost scope; a value
    /// bound to `symbol` there before is replaced.
    pub fn set(&mut self, symbol: String, sexp: &Sexp)
        ensures
            final(self)@ == bind(old(self)@, symbol@, sexp@),
    {
        let value = sexp.clone();
        let mut i: usize = self.data.len();
        while i > 0
            invariant
                i <= self.data.len(),
                *self == *old(self),
                value@ == sexp@,
                forall|j: int| i <= j < self.data.len() ==> self.data@[j].name@ != symbol@,
            decreases i,
        {
            i -= 1;
            if self.data[i].name == symbol {
                let binding = Binding { name: symbol, value };
                proof {
                    lemma_scope_replace(self.data@, i as int, binding);
                }
                self.data.set(i, binding);
                assert(self@ =~= bind(old(self)@, symbol@, sexp@));
                return ;
            }
        }
        let ghost before = self.data@;
        self.data.push(Binding { name: symbol, value });
        assert(self.data@.drop_last() =~= before);
        assert(self@ =~= bind(old(self)@, symbol@, sexp@));
    }

    /// A copy of the value that the innermost scope binding `symbol` gives
    /// it.
    pub fn get(&self, symbol: &String) -> (r: Option<Sexp>)
        ensures
            found(r) == lookup(self@, symbol@),
        decreases self,
    {
        let mut i: usize = self.data.len();
        assert(self.data@.take(i as int) =~= self.data@);
        while i > 0
            invariant
                i <= self.data.len(),
                forall|j: int| i <= j < self.data.len() ==> self.data@[j].name@ != symbol@,
                scope_of(self.data@).contains_key(symbol@) == scope_of(
                    self.data@.take(i as int),
                ).contains_key(symbol@),
                scope_of(self.data@).contains_key(symbol@) ==> scope_of(self.data@)[symbol@]
                    == scope_of(self.data@.take(i as int))[symbol@],
            decreases i,
        {
            i -= 1;
            assert(self.data@.take(i + 1).drop_last() =~= self.data@.take(i as int));
            assert(self.data@.take(i + 1).last() == self.data@[i as int]);
            if self.data[i].name == *symbol {
                proof {
                    assert(self@[0] == scope_of(self.data@));
                }
                return Some(self.data[i].value.clone());
            }
        }
        assert(self.data@.take(0) =~= Seq::<Binding>::empty());
        assert(!self@[0].contains_key(symbol@));
        match &self.outer {
            Some(outer) => {
                assert(self@.skip(1) =~= outer@);
                let r = outer.get(symbol);
                assert(found(r) == lookup(outer@, symbol@));
                assert(lookup(self@, symbol@) == lookup(self@.skip(1), symbol@));
                r
            },
            None => {
                assert(self@.skip(1) =~= Seq::<Scope>::empty());
                assert(lookup(self@, symbol@) == lookup(self@.skip(1), symbol@));
                None
            },
        }
    }
}

/// Replacing the last binding of a name by another binding of the same name
/// binds the name anew and leaves the rest of the scope as it was.
proof fn lemma_scope_replace(data: Seq<Binding>, i: int, b: Binding)
    requires
        0 <= i < data.len(),
        data[i].name@ == b.name@,
        forall|j: int| i < j < data.len() ==> data[j].name@ != b.name@,
    ensures
        scope_of(data.update(i, b)) == scope_of(data).insert(b.name@, b.value@),
    decreases data.len(),
{
    let last = data.len() - 1;
    if i == last {
        assert(data.update(i, b).drop_last() =~= data.drop_last());
        assert(scope_of(data.update(i, b)) =~= scope_of(data).insert(b.name@, b.value@));
    } else {
        lemma_scope_replace(data.drop_last(), i, b);
        assert(data.update(i, b).drop_last() =~= data.drop_last().update(i, b));
        assert(data.update(i, b).last() == data.last());
        assert(scope_of(data.update(i, b)) =~= scope_of(data).insert(b.name@, b.value@));
    }
}

/// What a caller sees after evaluation: what was returned, the environment,
/// and the lines printed.
pub open spec fn observed(r: Result<Sexp, EvalError>, env: Env, out: Vec<String>) -> Outcome {
    Outcome { result: value_of(r), env: env@, out: lines(out@) }
}

/// The value of what evaluating the elements of a sequence returns.
pub open spec fn values_of(r: Result<Vec<Sexp>, EvalError>) -> Result<Seq<Form>, EvalFault> {
    match r {
        Ok(v) => Ok(forms_of(v@)),
        Err(e) => Err(e@),
    }
}

/// Tells whether `s` is the symbol `name`.
fn is_symbol(s: &Sexp, name: &str) -> (r: bool)
    ensures
        r == (s@ == Form::Symbol(name@)),
{
    match s {
        Sexp::Symbol(text) => same_text(text.as_str(), name),
        _ => false,
    }
}

/// The name of the symbol `s`.
fn name_of(s: &Sexp) -> (r: String)
    requires
        s@ is Symbol,
    ensures
        r@ == s@->Symbol_0,
{
    match s {
        Sexp::Symbol(text) => text.clone(),
        _ => String::new(),
    }
}

/// Tells whether every second element of `b`, from the first on, is a symbol.
fn symbols_at_names(b: &Vec<Sexp>) -> (r: bool)
    ensures
        r == names_are_symbols(forms_of(b@)),
{
    broadcast use group_forms;

    let mut i: usize = 0;
    while i < b.len()
        invariant
            i % 2 == 0,
            forall|j: int|
                0 <= j < i && j < b.len() && j % 2 == 0 ==> (#[trigger] forms_of(b@)[j]) is Symbol,
        decreases b.len() - i,
    {
        match &b[i] {
            Sexp::Symbol(_) => {},
            _ => {
                assert(!(forms_of(b@)[i as int] is Symbol));
                return false;
            },
        }
        if b.len() - i < 2 {
            return true;
        }
        i += 2;
    }
    true
}

/// Evaluates the expressions of `list`, one after the other, up to the first
/// that has no value.
fn evaluate_all(list: &Vec<Sexp>, env: &mut Env, out: &mut Vec<String>) -> (r: Result<
    Vec<Sexp>,
    EvalError,
>)
    ensures
        values_of(r) == eval_all(forms_of(list@), 0, old(env)@, lines(old(out)@)).result,
        final(env)@ == eval_all(forms_of(list@), 0, old(env)@, lines(old(out)@)).env,
        lines(final(out)@) == eval_all(forms_of(list@), 0, old(env)@, lines(old(out)@)).out,
    decreases forms_of(list@), 1int,
{
    broadcast use group_forms;

    let ghost v = forms_of(list@);
    let ghost whole = eval_all(v, 0, env@, lines(out@));
    let mut values: Vec<Sexp> = Vec::new();
    let mut i: usize = 0;
    assert(forms_of(values@) =~= Seq::<Form>::empty());
    assert(match whole.result {
        Ok(xs) => Ok::<Seq<Form>, EvalFault>(forms_of(values@) + xs),
        Err(fault) => Err(fault),
    } == whole.result) by {
        if whole.result is Ok {
            assert(forms_of(values@) + whole.result->Ok_0 =~= whole.result->Ok_0);
        }
    }
    while i < list.len()
        invariant
            i <= list.len(),
            v == forms_of(list@),
            whole == eval_all(v, 0, old(env)@, lines(old(out)@)),
            whole.env == eval_all(v, i as int, env@, lines(out@)).env,
            whole.out == eval_all(v, i as int, env@, lines(out@)).out,
            whole.result == match eval_all(v, i as int, env@, lines(out@)).result {
                Ok(xs) => Ok::<Seq<Form>, EvalFault>(forms_of(values@) + xs),
                Err(fault) => Err(fault),
            },
        decreases list.len() - i,
    {
        let ghost before = forms_of(values@);
        assert(v[i as int] == list@[i as int]@);
        match evaluate(list[i].clone(), env, out) {
            Err(e) => {
                return Err(e);
            },
            Ok(value) => {
                proof {
                    lemma_forms_of_push(values@, value);
                    let rest = eval_all(v, i + 1, env@, lines(out@));
                    if rest.result is Ok {
                        assert(before + (seq![value@] + rest.result->Ok_0) =~= before.push(
                            value@,
                        ) + rest.result->Ok_0);
                    }
                }
                values.push(value);
            },
        }
        i += 1;
    }
    assert(forms_of(values@) + Seq::<Form>::empty() =~= forms_of(values@));
    Ok(values)
}

/// Applies the first of `values`, a primitive, to the others.
fn invoke(values: Vec<Sexp>, out: &mut Vec<String>) -> (r: Result<Sexp, EvalError>)
    requires
        values.len() > 0,
    ensures
        value_of(r) == call_value(forms_of(values@)),
        lines(final(out)@) == lines(old(out)@) + call_output(forms_of(values@)),
{
    broadcast use group_forms;

    match &values[0] {
        Sexp::Func(b) => {
            let args = slice_subrange(values.as_slice(), 1, values.len());
            assert(forms_of(args@) =~= forms_of(values@).skip(1));
            b.call(args, out)
        },
        other => {
            assert(lines(out@) + Seq::<Seq<char>>::empty() =~= lines(out@));
            Err(EvalError::NotAFunction(other.clone()))
        },
    }
}

/// Evaluates what is no special form: a symbol has the value bound to it;
/// the elements of a list or vector are evaluated, one after the other, and
/// make a sequence of the same kind; everything else is its own value.
pub fn apply(ast: Sexp, env: &mut Env, out: &mut Vec<String>) -> (r: Result<Sexp, EvalError>)
    ensures
        observed(r, *final(env), *final(out)) == apply_outcome(
            ast@,
            old(env)@,
            lines(old(out)@),
        ),
    decreases ast@, 1int,
{
    broadcast use group_forms;

    match ast {
        Sexp::Symbol(name) => match env.get(&name) {
            Some(value) => Ok(value),
            None => Err(EvalError::UnknownSymbol(name)),
        },
        Sexp::List(list) => {
            assert(ast@->List_0 == forms_of(list@));
            match evaluate_all(&list, env, out) {
                Ok(values) => Ok(Sexp::List(values)),
                Err(e) => Err(e),
            }
        },
        Sexp::Vec(list) => {
            assert(ast@->Vec_0 == forms_of(list@));
            match evaluate_all(&list, env, out) {
                Ok(values) => Ok(Sexp::Vec(values)),
                Err(e) => Err(e),
            }
        },
        other => Ok(other),
    }
}

/// Evaluates the form `list` that begins with `def!`.
fn evaluate_def(list: &Vec<Sexp>, env: &mut Env, out: &mut Vec<String>) -> (r: Result<
    Sexp,
    EvalError,
>)
    ensures
        observed(r, *final(env), *final(out)) == eval_def(
            forms_of(list@),
            old(env)@,
            lines(old(out)@),
        ),
    decreases forms_of(list@), 1int,
{
    broadcast use group_forms;

    if list.len() != 3 {
        return Err(EvalError::MalformedSpecialForm(SpecialForm::Def, Malformation::Length));
    }
    assert(forms_of(list@)[1] == list@[1]@);
    assert(forms_of(list@)[2] == list@[2]@);
    match &list[1] {
        Sexp::Symbol(name) => {
            match evaluate(list[2].clone(), env, out) {
                Ok(value) => {
                    env.set(name.clone(), &value);
                    Ok(value)
                },
                Err(e) => Err(e),
            }
        },
        _ => Err(EvalError::MalformedSpecialForm(SpecialForm::Def, Malformation::Name)),
    }
}

/// Evaluates the expressions of `list` behind the first, one after the
/// other, for the value of the last.
fn evaluate_do(list: &Vec<Sexp>, env: &mut Env, out: &mut Vec<String>) -> (r: Result<
    Sexp,
    EvalError,
>)
    requires
        list.len() > 0,
    ensures
        observed(r, *final(env), *final(out)) == eval_do(
            forms_of(list@),
            1,
            Form::Nil,
            old(env)@,
            lines(old(out)@),
        ),
    decreases forms_of(list@), 1int,
{
    broadcast use group_forms;

    let ghost v = forms_of(list@);
    let mut last: Sexp = Sexp::Nil;
    let mut i: usize = 1;
    while i < list.len()
        invariant
            1 <= i <= list.len(),
            v == forms_of(list@),
            eval_do(v, 1, Form::Nil, old(env)@, lines(old(out)@)) == eval_do(
                v,
                i as int,
                last@,
                env@,
                lines(out@),
            ),
        decreases list.len() - i,
    {
        assert(v[i as int] == list@[i as int]@);
        match evaluate(list[i].clone(), env, out) {
            Ok(value) => {
                last = value;
            },
            Err(e) => {
                return Err(e);
            },
        }
        i += 1;
    }
    Ok(last)
}

/// Evaluates the form `list` that begins with `let*`.
fn evaluate_let(list: &Vec<Sexp>, env: &mut Env, out: &mut Vec<String>) -> (r: Result<
    Sexp,
    EvalError,
>)
    ensures
        observed(r, *final(env), *final(out)) == eval_let(
            forms_of(list@),
            old(env)@,
            lines(old(out)@),
        ),
    decreases forms_of(list@), 1int,
{
    broadcast use group_forms;

    if list.len() != 3 {
        return Err(EvalError::MalformedSpecialForm(SpecialForm::Let, Malformation::Length));
    }
    let ghost v = forms_of(list@);
    assert(v[1] == list@[1]@);
    assert(v[2] == list@[2]@);
    let bindings: &Vec<Sexp> = match &list[1] {
        Sexp::List(b) => b,
        Sexp::Vec(b) => b,
        _ => {
            return Err(EvalError::MalformedSpecialForm(SpecialForm::Let, Malformation::Bindings));
        },
    };
    let ghost b = forms_of(bindings@);
    assert(elements(v[1]) == b);
    if bindings.len() % 2 != 0 {
        return Err(EvalError::MalformedSpecialForm(SpecialForm::Let, Malformation::Pairing));
    }
    if !symbols_at_names(bindings) {
        return Err(EvalError::MalformedSpecialForm(SpecialForm::Let, Malformation::Name));
    }
    let mut scope = Env::new(Some(env.clone()));
    let mut i: usize = 0;
    while i < bindings.len()
        invariant
            i <= bindings.len(),
            i % 2 == 0,
            bindings.len() % 2 == 0,
            v == forms_of(list@),
            b == forms_of(bindings@),
            elements(v[1]) == b,
            v[1] is List || v[1] is Vec,
            v.len() == 3,
            names_are_symbols(b),
            *env == *old(env),
            eval_bindings(b, 0, nested(old(env)@), lines(old(out)@)) == eval_bindings(
                b,
                i as int,
                scope@,
                lines(out@),
            ),
        decreases bindings.len() - i,
    {
        assert(b[i as int] == bindings@[i as int]@);
        assert(b[i + 1] == bindings@[i + 1]@);
        assert(b[i as int] is Symbol);
        match evaluate(bindings[i + 1].clone(), &mut scope, out) {
            Ok(value) => {
                scope.set(name_of(&bindings[i]), &value);
            },
            Err(e) => {
                return Err(e);
            },
        }
        i += 2;
    }
    evaluate(list[2].clone(), &mut scope, out)
}

/// Evaluates `ast` in `env`. What evaluation prints is added to `out`, one
/// string for each line.
pub fn evaluate(ast: Sexp, env: &mut Env, out: &mut Vec<String>) -> (r: Result<Sexp, EvalError>)
    ensures
        observed(r, *final(env), *final(out)) == eval(ast@, old(env)@, lines(old(out)@)),
    decreases ast@, 2int,
{
    broadcast use group_forms;

    match ast {
        Sexp::List(list) => {
            assert(ast@->List_0 == forms_of(list@));
            if list.len() == 0 {
                return Ok(Sexp::List(list));
            }
            assert(forms_of(list@)[0] == list@[0]@);
            if is_symbol(&list[0], "def!") {
                evaluate_def(&list, env, out)
            } else if is_symbol(&list[0], "let*") {
                evaluate_let(&list, env, out)
            } else if is_symbol(&list[0], "do") {
                evaluate_do(&list, env, out)
            } else {
                match evaluate_all(&list, env, out) {
                    Ok(values) => invoke(values, out),
                    Err(e) => Err(e),
                }
            }
        },
        Sexp::Vec(list) => {
            assert(ast@->Vec_0 == forms_of(list@));
            if list.len() == 0 {
                return Ok(Sexp::Vec(list));
            }
            assert(forms_of(list@)[0] == list@[0]@);
            if is_symbol(&list[0], "let*") {
                evaluate_let(&list, env, out)
            } else {
                match evaluate_all(&list, env, out) {
                    Ok(values) => invoke(values, out),
                    Err(e) => Err(e),
                }
            }
        },
        other => apply(other, env, out),
    }
}

} // verus!

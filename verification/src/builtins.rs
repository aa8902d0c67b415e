//! The primitive functions, and the environment that binds them.

use crate::env::{bind, Env, EvalError, EvalFault, Scope};
use crate::order::{compare, order, Order};
use crate::types::{
    clone_items, forms_of, group_forms, joined, text_of, tokens_to_string, Builtin, Form, Sexp,
};
use vstd::prelude::*;
use vstd::string::StringExecFns;

verus! {

/// The two integers that an arithmetic primitive works on: the arguments,
/// where they are exactly two integers.
pub open spec fn operands(args: Seq<Form>) -> Option<(i64, i64)> {
    if args.len() == 2 && args[0] is Integer && args[1] is Integer {
        Some((args[0]->Integer_0, args[1]->Integer_0))
    } else {
        None
    }
}

/// The quotient of `x` by `y`, rounded toward zero; `y` is not zero.
pub open spec fn quotient(x: int, y: int) -> int {
    if x >= 0 && y > 0 {
        x / y
    } else if x < 0 && y < 0 {
        (-x) / (-y)
    } else if x < 0 {
        -((-x) / y)
    } else {
        -(x / (-y))
    }
}

/// The magnitude of a number.
pub open spec fn magnitude(x: int) -> int {
    if x < 0 {
        -x
    } else {
        x
    }
}

/// The quotient rounds toward zero: what is left over when the quotient
/// times the divisor is taken away is smaller in magnitude than the divisor,
/// and is not on the other side of zero than what was divided.
pub proof fn lemma_quotient_truncates(x: int, y: int)
    requires
        y != 0,
    ensures
        x >= 0 ==> 0 <= x - quotient(x, y) * y < magnitude(y),
        x < 0 ==> -magnitude(y) < x - quotient(x, y) * y <= 0,
{
    let a = magnitude(x);
    let b = magnitude(y);
    let q = a / b;
    assert(a == b * q + a % b && 0 <= a % b < b) by (nonlinear_arith)
        requires
            a >= 0,
            b > 0,
            q == a / b,
    ;
    assert(q * b == b * q && (-q) * b == -(b * q) && q * (-b) == -(b * q) && (-q) * (-b) == b * q)
        by (nonlinear_arith);
}

/// A quotient is no greater in magnitude than what was divided, and less
/// unless the divisor is 1 or -1.
pub proof fn lemma_quotient_bounds(x: int, y: int)
    requires
        y != 0,
    ensures
        magnitude(quotient(x, y)) <= magnitude(x),
        y == 1 ==> quotient(x, y) == x,
        y == -1 ==> quotient(x, y) == -x,
        x != 0 && magnitude(y) > 1 ==> magnitude(quotient(x, y)) < magnitude(x),
{
    let a = magnitude(x);
    let b = magnitude(y);
    assert(0 <= a / b <= a) by (nonlinear_arith)
        requires
            a >= 0,
            b > 0,
    ;
    assert(b == 1 ==> a / b == a) by (nonlinear_arith);
    assert(b > 1 && a > 0 ==> a / b < a) by (nonlinear_arith)
        requires
            a >= 0,
            b > 0,
    ;
}

/// The quotient of two 64-bit integers as a 64-bit integer. The one quotient
/// that does not fit, that of the least integer by -1, wraps around to the
/// least integer.
pub open spec fn wrapping_quotient(x: i64, y: i64) -> i64 {
    if x == i64::MIN && y == -1 {
        i64::MIN
    } else {
        quotient(x as int, y as int) as i64
    }
}

/// The length of a list as a 64-bit integer; a length that does not fit
/// counts as the greatest integer.
pub open spec fn count_of(n: nat) -> i64 {
    if n <= i64::MAX {
        n as i64
    } else {
        i64::MAX
    }
}

/// How an argument is shown to a human reader: a string as its characters,
/// everything else as its text.
pub open spec fn display(f: Form) -> Seq<char> {
    match f {
        Form::String(s) => s,
        _ => text_of(f),
    }
}

/// What the first `n` of `args` look like to a human reader, one after the
/// other with nothing between them.
pub open spec fn displayed_upto(args: Seq<Form>, n: int) -> Seq<char>
    decreases n,
{
    if n <= 0 || n > args.len() {
        Seq::empty()
    } else {
        displayed_upto(args, n - 1) + display(args[n - 1])
    }
}

/// What `args` look like to a human reader, one after the other with nothing
/// between them.
pub open spec fn displayed(args: Seq<Form>) -> Seq<char> {
    displayed_upto(args, args.len() as int)
}

/// The failure of a primitive that got arguments of the wrong number or kind.
pub open spec fn mismatch(b: Builtin, args: Seq<Form>) -> Result<Form, EvalFault> {
    Err(EvalFault::ArityOrTypeMismatch(b, args))
}

/// What a primitive returns for given arguments.
pub open spec fn builtin_value(b: Builtin, args: Seq<Form>) -> Result<Form, EvalFault> {
    match b {
        Builtin::Add => match operands(args) {
            Some((x, y)) => Ok(Form::Integer(vstd::wrapping::i64_specs::wrapping_add(x, y))),
            None => mismatch(b, args),
        },
        Builtin::Subtract => match operands(args) {
            Some((x, y)) => Ok(Form::Integer(vstd::wrapping::i64_specs::wrapping_sub(x, y))),
            None => mismatch(b, args),
        },
        Builtin::Multiply => match operands(args) {
            Some((x, y)) => Ok(Form::Integer(vstd::wrapping::i64_specs::wrapping_mul(x, y))),
            None => mismatch(b, args),
        },
        Builtin::Divide => match operands(args) {
            Some((x, y)) => if y == 0 {
                Err(EvalFault::DivisionByZero)
            } else {
                Ok(Form::Integer(wrapping_quotient(x, y)))
            },
            None => mismatch(b, args),
        },
        Builtin::Prn => Ok(Form::Nil),
        Builtin::Println => Ok(Form::Nil),
        Builtin::PrStr => Ok(Form::String(joined(args))),
        Builtin::Str => Ok(Form::String(displayed(args))),
        Builtin::List => Ok(Form::List(args)),
        Builtin::IsList => Ok(Form::Bool(args.len() == 1 && args[0] is List)),
        Builtin::IsEmpty => Ok(
            Form::Bool(args.len() == 1 && args[0] is List && args[0]->List_0.len() == 0),
        ),
        Builtin::Count => if args.len() == 1 && args[0] is List {
            Ok(Form::Integer(count_of(args[0]->List_0.len())))
        } else {
            mismatch(b, args)
        },
        Builtin::Eq => if args.len() == 2 {
            Ok(Form::Bool(args[0] == args[1]))
        } else {
            mismatch(b, args)
        },
        Builtin::Lt => if args.len() == 2 {
            Ok(Form::Bool(order(args[0], args[1]) == Order::Less))
        } else {
            mismatch(b, args)
        },
        Builtin::Gt => if args.len() == 2 {
            Ok(Form::Bool(order(args[0], args[1]) == Order::Greater))
        } else {
            mismatch(b, args)
        },
        Builtin::Le => if args.len() == 2 {
            Ok(Form::Bool(order(args[0], args[1]) != Order::Greater))
        } else {
            mismatch(b, args)
        },
        Builtin::Ge => if args.len() == 2 {
            Ok(Form::Bool(order(args[0], args[1]) != Order::Less))
        } else {
            mismatch(b, args)
        },
    }
}

/// The lines that a primitive prints for given arguments.
pub open spec fn builtin_output(b: Builtin, args: Seq<Form>) -> Seq<Seq<char>> {
    match b {
        Builtin::Prn => seq![joined(args)],
        Builtin::Println => seq![displayed(args)],
        _ => Seq::empty(),
    }
}

/// The texts of the lines printed so far.
pub open spec fn lines(out: Seq<String>) -> Seq<Seq<char>> {
    out.map_values(|line: String| line@)
}

/// The value of what a primitive returns.
pub open spec fn returned(r: Result<Sexp, EvalError>) -> Result<Form, EvalFault> {
    match r {
        Ok(s) => Ok(s@),
        Err(e) => Err(e@),
    }
}

/// The two integers among `args`, where `args` are exactly two integers.
fn integers(args: &[Sexp]) -> (r: Option<(i64, i64)>)
    ensures
        r == operands(forms_of(args@)),
{
    broadcast use group_forms;

    if args.len() != 2 {
        return None;
    }
    match &args[0] {
        Sexp::Integer(x) => match &args[1] {
            Sexp::Integer(y) => Some((*x, *y)),
            _ => None,
        },
        _ => None,
    }
}

/// The failure of the primitive `b` on `args`.
fn refuse(b: Builtin, args: &[Sexp]) -> (r: Result<Sexp, EvalError>)
    ensures
        returned(r) == mismatch(b, forms_of(args@)),
{
    Err(EvalError::ArityOrTypeMismatch(b, clone_items(args)))
}

/// `+`: the sum of two integers.
pub fn add(args: &[Sexp]) -> (r: Result<Sexp, EvalError>)
    ensures
        returned(r) == builtin_value(Builtin::Add, forms_of(args@)),
{
    match integers(args) {
        Some((x, y)) => Ok(Sexp::Integer(x.wrapping_add(y))),
        None => refuse(Builtin::Add, args),
    }
}

/// `-`: the difference of two integers.
pub fn subtract(args: &[Sexp]) -> (r: Result<Sexp, EvalError>)
    ensures
        returned(r) == builtin_value(Builtin::Subtract, forms_of(args@)),
{
    match integers(args) {
        Some((x, y)) => Ok(Sexp::Integer(x.wrapping_sub(y))),
        None => refuse(Builtin::Subtract, args),
    }
}

/// `*`: the product of two integers.
pub fn multiply(args: &[Sexp]) -> (r: Result<Sexp, EvalError>)
    ensures
        returned(r) == builtin_value(Builtin::Multiply, forms_of(args@)),
{
    match integers(args) {
        Some((x, y)) => Ok(Sexp::Integer(x.wrapping_mul(y))),
        None => refuse(Builtin::Multiply, args),
    }
}

/// `/`: the quotient of two integers, rounded toward zero.
pub fn divide(args: &[Sexp]) -> (r: Result<Sexp, EvalError>)
    ensures
        returned(r) == builtin_value(Builtin::Divide, forms_of(args@)),
{
    match integers(args) {
        Some((x, y)) => {
            if y == 0 {
                Err(EvalError::DivisionByZero)
            } else {
                proof {
                    lemma_quotient_bounds(x as int, y as int);
                }
                match x.checked_div(y) {
                    Some(q) => Ok(Sexp::Integer(q)),
                    None => Ok(Sexp::Integer(i64::MIN)),
                }
            }
        },
        None => refuse(Builtin::Divide, args),
    }
}

/// `=`: whether two values are the same.
pub fn eq(args: &[Sexp]) -> (r: Result<Sexp, EvalError>)
    ensures
        returned(r) == builtin_value(Builtin::Eq, forms_of(args@)),
{
    broadcast use group_forms;

    if args.len() == 2 {
        Ok(Sexp::Bool(args[0] == args[1]))
    } else {
        refuse(Builtin::Eq, args)
    }
}

/// `<`: whether the first of two values comes before the second.
pub fn lt(args: &[Sexp]) -> (r: Result<Sexp, EvalError>)
    ensures
        returned(r) == builtin_value(Builtin::Lt, forms_of(args@)),
{
    broadcast use group_forms;

    if args.len() == 2 {
        Ok(Sexp::Bool(compare(&args[0], &args[1]) == Order::Less))
    } else {
        refuse(Builtin::Lt, args)
    }
}

/// `<=`: whether the first of two values does not come after the second.
pub fn le(args: &[Sexp]) -> (r: Result<Sexp, EvalError>)
    ensures
        returned(r) == builtin_value(Builtin::Le, forms_of(args@)),
{
    broadcast use group_forms;

    if args.len() == 2 {
        Ok(Sexp::Bool(compare(&args[0], &args[1]) != Order::Greater))
    } else {
        refuse(Builtin::Le, args)
    }
}

/// `>`: whether the first of two values comes after the second.
pub fn gt(args: &[Sexp]) -> (r: Result<Sexp, EvalError>)
    ensures
        returned(r) == builtin_value(Builtin::Gt, forms_of(args@)),
{
    broadcast use group_forms;

    if args.len() == 2 {
        Ok(Sexp::Bool(compare(&args[0], &args[1]) == Order::Greater))
    } else {
        refuse(Builtin::Gt, args)
    }
}

/// `>=`: whether the first of two values does not come before the second.
pub fn ge(args: &[Sexp]) -> (r: Result<Sexp, EvalError>)
    ensures
        returned(r) == builtin_value(Builtin::Ge, forms_of(args@)),
{
    broadcast use group_forms;

    if args.len() == 2 {
        Ok(Sexp::Bool(compare(&args[0], &args[1]) != Order::Less))
    } else {
        refuse(Builtin::Ge, args)
    }
}

/// `pr-str`: the texts of the arguments, with one space between neighbours,
/// as a string.
pub fn pr_str(args: &[Sexp]) -> (r: Result<Sexp, EvalError>)
    ensures
        returned(r) == builtin_value(Builtin::PrStr, forms_of(args@)),
{
    Ok(Sexp::String(tokens_to_string(args)))
}

/// What `args` look like to a human reader, one after the other.
fn display_all(args: &[Sexp]) -> (r: String)
    ensures
        r@ == displayed(forms_of(args@)),
{
    broadcast use group_forms;

    let ghost forms = forms_of(args@);
    let mut text = String::new();
    let mut i: usize = 0;
    while i < args.len()
        invariant
            i <= args.len(),
            forms == forms_of(args@),
            text@ == displayed_upto(forms, i as int),
        decreases args.len() - i,
    {
        assert(forms[i as int] == args@[i as int]@);
        match &args[i] {
            Sexp::String(s) => {
                text.append(s.as_str());
            },
            other => {
                text.append(other.to_text().as_str());
            },
        }
        i += 1;
    }
    text
}

/// `str`: what the arguments look like to a human reader, one after the
/// other, as a string.
pub fn str(args: &[Sexp]) -> (r: Result<Sexp, EvalError>)
    ensures
        returned(r) == builtin_value(Builtin::Str, forms_of(args@)),
{
    Ok(Sexp::String(display_all(args)))
}

/// `prn`: prints the texts of the arguments, with one space between
/// neighbours, as one line.
pub fn prn(args: &[Sexp], out: &mut Vec<String>) -> (r: Result<Sexp, EvalError>)
    ensures
        returned(r) == builtin_value(Builtin::Prn, forms_of(args@)),
        lines(final(out)@) == lines(old(out)@) + builtin_output(Builtin::Prn, forms_of(args@)),
{
    out.push(tokens_to_string(args));
    assert(lines(out@) =~= lines(old(out)@) + builtin_output(Builtin::Prn, forms_of(args@)));
    Ok(Sexp::Nil)
}

/// `println`: prints what the arguments look like to a human reader, one
/// after the other, as one line.
pub fn println(args: &[Sexp], out: &mut Vec<String>) -> (r: Result<Sexp, EvalError>)
    ensures
        returned(r) == builtin_value(Builtin::Println, forms_of(args@)),
        lines(final(out)@) == lines(old(out)@) + builtin_output(
            Builtin::Println,
            forms_of(args@),
        ),
{
    out.push(display_all(args));
    assert(lines(out@) =~= lines(old(out)@) + builtin_output(Builtin::Println, forms_of(args@)));
    Ok(Sexp::Nil)
}

/// `list`: the list of the arguments.
pub fn list(args: &[Sexp]) -> (r: Result<Sexp, EvalError>)
    ensures
        returned(r) == builtin_value(Builtin::List, forms_of(args@)),
{
    broadcast use group_forms;

    Ok(Sexp::List(clone_items(args)))
}

/// `list?`: whether the one argument is a list.
pub fn is_list(args: &[Sexp]) -> (r: Result<Sexp, EvalError>)
    ensures
        returned(r) == builtin_value(Builtin::IsList, forms_of(args@)),
{
    broadcast use group_forms;

    if args.len() != 1 {
        return Ok(Sexp::Bool(false));
    }
    match &args[0] {
        Sexp::List(_) => Ok(Sexp::Bool(true)),
        _ => Ok(Sexp::Bool(false)),
    }
}

/// `empty?`: whether the one argument is the empty list.
pub fn is_empty(args: &[Sexp]) -> (r: Result<Sexp, EvalError>)
    ensures
        returned(r) == builtin_value(Builtin::IsEmpty, forms_of(args@)),
{
    broadcast use group_forms;

    if args.len() != 1 {
        return Ok(Sexp::Bool(false));
    }
    match &args[0] {
        Sexp::List(items) => Ok(Sexp::Bool(items.len() == 0)),
        _ => Ok(Sexp::Bool(false)),
    }
}

/// `count`: the length of the one argument, a list.
pub fn count(args: &[Sexp]) -> (r: Result<Sexp, EvalError>)
    ensures
        returned(r) == builtin_value(Builtin::Count, forms_of(args@)),
{
    broadcast use group_forms;

    if args.len() != 1 {
        return refuse(Builtin::Count, args);
    }
    match &args[0] {
        Sexp::List(items) => {
            let n: usize = items.len();
            if n as u64 <= 9223372036854775807u64 {
                Ok(Sexp::Integer(n as i64))
            } else {
                Ok(Sexp::Integer(i64::MAX))
            }
        },
        _ => refuse(Builtin::Count, args),
    }
}

impl Builtin {
    /// The symbol that the root environment binds to the primitive.
    pub open spec fn symbol(self) -> Seq<char> {
        match self {
            Builtin::Add => "+"@,
            Builtin::Subtract => "-"@,
            Builtin::Multiply => "*"@,
            Builtin::Divide => "/"@,
            Builtin::Prn => "prn"@,
            Builtin::Println => "println"@,
            Builtin::PrStr => "pr-str"@,
            Builtin::Str => "str"@,
            Builtin::List => "list"@,
            Builtin::IsList => "list?"@,
            Builtin::IsEmpty => "empty?"@,
            Builtin::Count => "count"@,
            Builtin::Eq => "="@,
            Builtin::Lt => "<"@,
            Builtin::Gt => ">"@,
            Builtin::Le => "<="@,
            Builtin::Ge => ">="@,
        }
    }

    /// The symbol that the root environment binds to the primitive.
    pub fn name(self) -> (r: &'static str)
        ensures
            r@ == self.symbol(),
    {
        match self {
            Builtin::Add => "+",
            Builtin::Subtract => "-",
            Builtin::Multiply => "*",
            Builtin::Divide => "/",
            Builtin::Prn => "prn",
            Builtin::Println => "println",
            Builtin::PrStr => "pr-str",
            Builtin::Str => "str",
            Builtin::List => "list",
            Builtin::IsList => "list?",
            Builtin::IsEmpty => "empty?",
            Builtin::Count => "count",
            Builtin::Eq => "=",
            Builtin::Lt => "<",
            Builtin::Gt => ">",
            Builtin::Le => "<=",
            Builtin::Ge => ">=",
        }
    }

    /// Applies the primitive to `args`; what it prints is added to `out`, one
    /// string for each line.
    pub fn call(self, args: &[Sexp], out: &mut Vec<String>) -> (r: Result<Sexp, EvalError>)
        ensures
            returned(r) == builtin_value(self, forms_of(args@)),
            lines(final(out)@) == lines(old(out)@) + builtin_output(self, forms_of(args@)),
    {
        proof {
            assert(lines(out@) + Seq::<Seq<char>>::empty() =~= lines(out@));
        }
        match self {
            Builtin::Add => self::add(args),
            Builtin::Subtract => subtract(args),
            Builtin::Multiply => multiply(args),
            Builtin::Divide => divide(args),
            Builtin::Prn => prn(args, out),
            Builtin::Println => println(args, out),
            Builtin::PrStr => pr_str(args),
            Builtin::Str => str(args),
            Builtin::List => list(args),
            Builtin::IsList => is_list(args),
            Builtin::IsEmpty => is_empty(args),
            Builtin::Count => count(args),
            Builtin::Eq => eq(args),
            Builtin::Lt => lt(args),
            Builtin::Gt => gt(args),
            Builtin::Le => le(args),
            Builtin::Ge => ge(args),
        }
    }
}

/// The scope `scope` with `b` bound to its symbol.
pub open spec fn with_builtin(scope: Scope, b: Builtin) -> Scope {
    scope.insert(b.symbol(), Form::Func(b))
}

/// The scope that binds the four arithmetic primitives.
pub open spec fn arithmetic_scope() -> Scope {
    with_builtin(
        with_builtin(
            with_builtin(with_builtin(Map::empty(), Builtin::Add), Builtin::Subtract),
            Builtin::Multiply,
        ),
        Builtin::Divide,
    )
}

/// The scope that binds every primitive.
pub open spec fn core_scope() -> Scope {
    let s = arithmetic_scope();
    let s = with_builtin(s, Builtin::Prn);
    let s = with_builtin(s, Builtin::Println);
    let s = with_builtin(s, Builtin::PrStr);
    let s = with_builtin(s, Builtin::Str);
    let s = with_builtin(s, Builtin::List);
    let s = with_builtin(s, Builtin::IsList);
    let s = with_builtin(s, Builtin::IsEmpty);
    let s = with_builtin(s, Builtin::Count);
    let s = with_builtin(s, Builtin::Eq);
    let s = with_builtin(s, Builtin::Lt);
    let s = with_builtin(s, Builtin::Gt);
    let s = with_builtin(s, Builtin::Le);
    with_builtin(s, Builtin::Ge)
}

/// Binds `b` to its symbol in the innermost scope of `env`.
fn install(env: &mut Env, b: Builtin)
    ensures
        final(env)@ == bind(old(env)@, b.symbol(), Form::Func(b)),
{
    env.set(String::from_str(b.name()), &Sexp::Func(b));
}

/// The root environment: one scope, which binds every primitive to its
/// symbol.
pub fn env_core() -> (r: Env)
    ensures
        r@ == seq![core_scope()],
{
    let mut env = Env::default();
    install(&mut env, Builtin::Prn);
    install(&mut env, Builtin::Println);
    install(&mut env, Builtin::PrStr);
    install(&mut env, Builtin::Str);
    install(&mut env, Builtin::List);
    install(&mut env, Builtin::IsList);
    install(&mut env, Builtin::IsEmpty);
    install(&mut env, Builtin::Count);
    install(&mut env, Builtin::Eq);
    install(&mut env, Builtin::Lt);
    install(&mut env, Builtin::Gt);
    install(&mut env, Builtin::Le);
    install(&mut env, Builtin::Ge);
    assert(env@ =~= seq![core_scope()]);
    env
}

impl Default for Env {
    /// One scope, which binds the four arithmetic primitives.
    fn default() -> (r: Env)
        ensures
            r@ == seq![arithmetic_scope()],
    {
        let mut env = Env::new(None);
        install(&mut env, Builtin::Add);
        install(&mut env, Builtin::Subtract);
        install(&mut env, Builtin::Multiply);
        install(&mut env, Builtin::Divide);
        assert(env@ =~= seq![arithmetic_scope()]);
        env
    }
}

} // verus!

//! The meaning of expressions and statements, as functions on models.
//!
//! A program of the language need not terminate, so the meaning is given
//! with a bound: `fuel` limits how deeply calls and loop iterations nest.
//! Where the bound is too small the outcome is [`Outcome::OutOfFuel`]; a
//! larger bound never changes another outcome.

use crate::ast::{Expr, Operator, Params, Stmt};
use crate::binary32::Real;
use crate::environment::{stored, Bindings, Stored};
use crate::error::Failure;
use crate::value::{Kind, Value};
use vstd::prelude::*;

verus! {

/// How an evaluation ends under a bound.
pub enum Outcome<T> {
    Done(T),
    Failed(Failure),
    OutOfFuel,
}

/// The 32-bit integer that is congruent to `i` modulo `2^32`.
pub open spec fn wrap32(i: int) -> i32 {
    let m = i % 0x1_0000_0000;
    if m >= 0x8000_0000 {
        (m - 0x1_0000_0000) as i32
    } else {
        m as i32
    }
}

/// The quotient of `x` by `y`, rounded towards zero.
pub open spec fn quotient(x: int, y: int) -> int
    recommends
        y != 0,
{
    let size: int = vstd::math::abs(x) as int / vstd::math::abs(y) as int;
    if (x < 0) != (y < 0) {
        -size
    } else {
        size
    }
}

/// Integers, reals and truth values take part in arithmetic.
pub open spec fn is_scalar(v: Value) -> bool {
    v is CInt || v is CReal || v is Bool
}

/// Integers and truth values can bound a range.
pub open spec fn is_integral(v: Value) -> bool {
    v is CInt || v is Bool
}

/// The integer that an integral value stands for: `true` is 1, `false` 0.
pub open spec fn int_of(v: Value) -> int {
    match v {
        Value::CInt(i) => i as int,
        Value::Bool(b) => if b {
            1
        } else {
            0
        },
        _ => 0,
    }
}

/// The real that a scalar stands for.
pub open spec fn real_of(v: Value) -> Real {
    match v {
        Value::CReal(x) => x,
        Value::CInt(i) => Real::spec_from_i32(i),
        Value::Bool(b) => Real::spec_from_bool(b),
        _ => Real::zero(false),
    }
}

/// Arithmetic on two scalars. With a real operand the other is promoted
/// and the result is real; otherwise the result is an integer. A division
/// fails when the divisor's value is zero.
pub open spec fn scalar_op(op: Operator, l: Value, r: Value) -> Result<Value, Failure> {
    if l is CReal || r is CReal {
        let x = real_of(l);
        let y = real_of(r);
        match op {
            Operator::Add => Ok(Value::CReal(x.spec_plus(y))),
            Operator::Sub => Ok(Value::CReal(x.spec_minus(y))),
            Operator::Mul => Ok(Value::CReal(x.spec_times(y))),
            Operator::Div => if y.is_zero() {
                Err(Failure::DivisionByZero)
            } else {
                Ok(Value::CReal(x.spec_divided_by(y)))
            },
        }
    } else {
        let x = int_of(l);
        let y = int_of(r);
        match op {
            Operator::Add => Ok(Value::CInt(wrap32(x + y))),
            Operator::Sub => Ok(Value::CInt(wrap32(x - y))),
            Operator::Mul => Ok(Value::CInt(wrap32(x * y))),
            Operator::Div => if y == 0 {
                Err(Failure::DivisionByZero)
            } else {
                Ok(Value::CInt(wrap32(quotient(x, y))))
            },
        }
    }
}

/// `n` copies of `items` in a row; none for `n <= 0`.
pub open spec fn repeat(items: Seq<Value>, n: int) -> Seq<Value>
    decreases n,
{
    if n <= 0 {
        Seq::empty()
    } else {
        repeat(items, n - 1) + items
    }
}

/// An operator applied to two values. Two lists are added by
/// concatenation, a list is multiplied by an integral count; any other use
/// of a list fails, and so does, after that, any use of the empty marker.
pub open spec fn binary(op: Operator, l: Value, r: Value) -> Result<Value, Failure> {
    if is_scalar(l) && is_scalar(r) {
        scalar_op(op, l, r)
    } else if l is List || r is List {
        match (op, l, r) {
            (Operator::Add, Value::List(a), Value::List(b)) => Ok(Value::List(a + b)),
            (Operator::Mul, Value::List(a), Value::CInt(_)) => Ok(
                Value::List(repeat(a, int_of(r))),
            ),
            (Operator::Mul, Value::List(a), Value::Bool(_)) => Ok(
                Value::List(repeat(a, int_of(r))),
            ),
            (Operator::Mul, Value::CInt(_), Value::List(b)) => Ok(
                Value::List(repeat(b, int_of(l))),
            ),
            (Operator::Mul, Value::Bool(_), Value::List(b)) => Ok(
                Value::List(repeat(b, int_of(l))),
            ),
            _ => Err(Failure::ListOperand(op)),
        }
    } else {
        Err(Failure::EmptyOperand(op))
    }
}

/// Whether a value counts as true in a condition.
pub open spec fn truthy(v: Value) -> bool {
    match v {
        Value::CInt(i) => i != 0,
        Value::CReal(x) => !x.is_zero(),
        Value::Bool(b) => b,
        Value::List(items) => items.len() > 0,
        Value::Empty => false,
    }
}

/// `start`, `start + step`, ... as long as they are below `stop`.
pub open spec fn ascending(start: int, stop: int, step: int) -> Seq<Value>
    decreases (if start < stop { stop - start } else { 0 }),
{
    if step <= 0 || start >= stop {
        Seq::empty()
    } else {
        let rest = ascending(start + step, stop, step);
        seq![Value::CInt(#[verifier::truncate] (start as i32))] + rest
    }
}

/// `start`, `start - stride`, ... as long as they are not below `low`.
pub open spec fn descending(start: int, low: int, stride: int) -> Seq<Value>
    decreases (if low <= start { start - low + 1 } else { 0 }),
{
    if stride <= 0 || start < low {
        Seq::empty()
    } else {
        let rest = descending(start - stride, low, stride);
        seq![Value::CInt(#[verifier::truncate] (start as i32))] + rest
    }
}

/// The integers of a range. A positive step counts up from `start` and
/// stops before `stop`; a negative one counts down from `start` and stops
/// before it would pass `stop + |step|`.
pub open spec fn range_values(start: int, stop: int, step: int) -> Seq<Value> {
    if step > 0 {
        ascending(start, stop, step)
    } else if step < 0 {
        descending(start, stop - step, -step)
    } else {
        Seq::empty()
    }
}

/// The list that a range expression makes of its three evaluated parts.
pub open spec fn range_of(start: Value, stop: Value, step: Value) -> Result<Value, Failure> {
    if !(is_integral(start) && is_integral(stop) && is_integral(step)) {
        Err(Failure::NotAnInteger)
    } else if int_of(step) == 0 {
        Err(Failure::ZeroIncrement)
    } else {
        Ok(Value::List(range_values(int_of(start), int_of(stop), int_of(step))))
    }
}

/// Whether `v` can stand in a list whose first element is `first`: both
/// are integers, reals, truth values or lists.
pub open spec fn same_list_kind(first: Value, v: Value) -> bool {
    first.kind() == v.kind() && v.kind() != Kind::Empty
}

/// Whether a value of kind `actual` is accepted for a parameter declared
/// with `declared`.
pub open spec fn accepts_argument(declared: Kind, actual: Kind) -> bool {
    declared == actual && actual != Kind::Empty
}

/// What a variable reference yields: the bound value, unless the name is
/// unbound or bound to a function.
pub open spec fn lookup(env: Bindings, name: Seq<char>) -> Result<Value, Failure> {
    if !env.contains_key(name) {
        Err(Failure::UnknownVariable(name))
    } else {
        match env[name] {
            Stored::CInt(i) => Ok(Value::CInt(i)),
            Stored::CReal(x) => Ok(Value::CReal(x)),
            Stored::Bool(b) => Ok(Value::Bool(b)),
            Stored::List(items) => Ok(Value::List(items)),
            Stored::Empty => Ok(Value::Empty),
            Stored::Func(..) => Err(Failure::UnknownVariable(name)),
        }
    }
}

/// The result of a call, given what its result expression evaluated to.
pub open spec fn checked_result(name: Seq<char>, declared: Kind, result: Outcome<Value>) -> Outcome<
    Value,
> {
    match result {
        Outcome::Done(v) => if v.kind() == declared {
            Outcome::Done(v)
        } else {
            Outcome::Failed(Failure::WrongReturnType(name))
        },
        other => other,
    }
}

/// The value of an expression in an environment.
pub open spec fn evaluate(e: Expr, env: Bindings, fuel: nat) -> Outcome<Value>
    decreases fuel, 0nat, e, 0nat,
{
    match e {
        Expr::CInt(i) => Outcome::Done(Value::CInt(i)),
        Expr::CReal(x) => Outcome::Done(Value::CReal(x)),
        Expr::Bool(b) => Outcome::Done(Value::Bool(b)),
        Expr::Empty => Outcome::Done(Value::Empty),
        Expr::Var(name) => match lookup(env, name) {
            Ok(v) => Outcome::Done(v),
            Err(f) => Outcome::Failed(f),
        },
        Expr::Binary(op, l, r) => match evaluate(*l, env, fuel) {
            Outcome::Done(lv) => match evaluate(*r, env, fuel) {
                Outcome::Done(rv) => match binary(op, lv, rv) {
                    Ok(v) => Outcome::Done(v),
                    Err(f) => Outcome::Failed(f),
                },
                Outcome::Failed(f) => Outcome::Failed(f),
                Outcome::OutOfFuel => Outcome::OutOfFuel,
            },
            Outcome::Failed(f) => Outcome::Failed(f),
            Outcome::OutOfFuel => Outcome::OutOfFuel,
        },
        Expr::List(items) => if items.len() == 0 {
            Outcome::Failed(Failure::EmptyList)
        } else {
            match evaluate_items(items, 0, Seq::empty(), env, fuel) {
                Outcome::Done(values) => Outcome::Done(Value::List(values)),
                Outcome::Failed(f) => Outcome::Failed(f),
                Outcome::OutOfFuel => Outcome::OutOfFuel,
            }
        },
        Expr::FuncCall(name, args) => if !env.contains_key(name) {
            Outcome::Failed(Failure::UndefinedFunction(name))
        } else {
            match env[name] {
                Stored::Func(declared, params, body, result) => if args.len() != params.len() {
                    Outcome::Failed(
                        Failure::WrongArgumentCount {
                            name,
                            expected: params.len(),
                            got: args.len(),
                        },
                    )
                } else {
                    match bind_arguments(params, args, 0, env, env, fuel) {
                        Outcome::Done(inner) => if fuel == 0 {
                            Outcome::OutOfFuel
                        } else {
                            match body {
                                Some(b) => match run(*b, inner, (fuel - 1) as nat) {
                                    Outcome::Done(after) => checked_result(
                                        name,
                                        declared.kind(),
                                        evaluate(result, after, (fuel - 1) as nat),
                                    ),
                                    Outcome::Failed(f) => Outcome::Failed(
                                        Failure::FunctionFailed(name, Box::new(f)),
                                    ),
                                    Outcome::OutOfFuel => Outcome::OutOfFuel,
                                },
                                None => checked_result(
                                    name,
                                    declared.kind(),
                                    evaluate(result, inner, (fuel - 1) as nat),
                                ),
                            }
                        },
                        Outcome::Failed(f) => Outcome::Failed(f),
                        Outcome::OutOfFuel => Outcome::OutOfFuel,
                    }
                },
                _ => Outcome::Failed(Failure::UndefinedFunction(name)),
            }
        },
        Expr::Range(start, stop, step) => match evaluate(*stop, env, fuel) {
            Outcome::Done(stop_value) => match evaluate_or(start, Value::CInt(0), env, fuel) {
                Outcome::Done(start_value) => match evaluate_or(step, Value::CInt(1), env, fuel) {
                    Outcome::Done(step_value) => match range_of(
                        start_value,
                        stop_value,
                        step_value,
                    ) {
                        Ok(v) => Outcome::Done(v),
                        Err(f) => Outcome::Failed(f),
                    },
                    Outcome::Failed(f) => Outcome::Failed(f),
                    Outcome::OutOfFuel => Outcome::OutOfFuel,
                },
                Outcome::Failed(f) => Outcome::Failed(f),
                Outcome::OutOfFuel => Outcome::OutOfFuel,
            },
            Outcome::Failed(f) => Outcome::Failed(f),
            Outcome::OutOfFuel => Outcome::OutOfFuel,
        },
    }
}

/// The value of an optional expression; `default` where there is none.
pub open spec fn evaluate_or(e: Option<Box<Expr>>, default: Value, env: Bindings, fuel: nat)
    -> Outcome<Value>
    decreases fuel, 0nat, e, 0nat,
{
    match e {
        Some(b) => evaluate(*b, env, fuel),
        None => Outcome::Done(default),
    }
}

/// The values of a list expression's elements from index `i` on, appended
/// to `done`, the values of those before. The first failure ends it: that
/// of an element, or an element that is not of the first one's kind.
pub open spec fn evaluate_items(
    items: Seq<Expr>,
    i: nat,
    done: Seq<Value>,
    env: Bindings,
    fuel: nat,
) -> Outcome<Seq<Value>>
    decreases fuel, 0nat, items, items.len() - i,
{
    if i >= items.len() {
        Outcome::Done(done)
    } else {
        match evaluate(items[i as int], env, fuel) {
            Outcome::Done(v) => {
                let first = if i == 0 {
                    v
                } else {
                    done[0]
                };
                if same_list_kind(first, v) {
                    evaluate_items(items, i + 1, done.push(v), env, fuel)
                } else {
                    Outcome::Failed(Failure::MixedList)
                }
            },
            Outcome::Failed(f) => Outcome::Failed(f),
            Outcome::OutOfFuel => Outcome::OutOfFuel,
        }
    }
}

/// The environment of a call: `inner`, which has the parameters before
/// index `i` bound, with those from `i` on bound to the values of their
/// arguments. The arguments are evaluated in the caller's environment `env`.
pub open spec fn bind_arguments(
    params: Params,
    args: Seq<Expr>,
    i: nat,
    inner: Bindings,
    env: Bindings,
    fuel: nat,
) -> Outcome<Bindings>
    decreases fuel, 0nat, args, args.len() - i,
{
    if i >= args.len() || i >= params.len() {
        Outcome::Done(inner)
    } else {
        match evaluate(args[i as int], env, fuel) {
            Outcome::Done(v) => {
                let declared = params[i as int].1.kind();
                if accepts_argument(declared, v.kind()) {
                    bind_arguments(
                        params,
                        args,
                        i + 1,
                        inner.insert(params[i as int].0, stored(v)),
                        env,
                        fuel,
                    )
                } else {
                    Outcome::Failed(Failure::MismatchedTypes(declared))
                }
            },
            Outcome::Failed(f) => Outcome::Failed(f),
            Outcome::OutOfFuel => Outcome::OutOfFuel,
        }
    }
}

/// The environment after a statement.
pub open spec fn run(s: Stmt, env: Bindings, fuel: nat) -> Outcome<Bindings>
    decreases fuel, 1nat, s, 0nat,
{
    match s {
        Stmt::VarDeclaration(_) => Outcome::Failed(Failure::NotImplemented),
        Stmt::ValDeclaration(_) => Outcome::Failed(Failure::NotImplemented),
        Stmt::Assignment(name, e) => match evaluate(e, env, fuel) {
            Outcome::Done(v) => Outcome::Done(env.insert(name, stored(v))),
            Outcome::Failed(f) => Outcome::Failed(f),
            Outcome::OutOfFuel => Outcome::OutOfFuel,
        },
        Stmt::IfThenElse(c, t, e) => match evaluate(c, env, fuel) {
            Outcome::Done(v) => if truthy(v) {
                run(*t, env, fuel)
            } else {
                run(*e, env, fuel)
            },
            Outcome::Failed(f) => Outcome::Failed(Failure::ConditionFailed(Box::new(f))),
            Outcome::OutOfFuel => Outcome::OutOfFuel,
        },
        Stmt::While(c, body) => match evaluate(c, env, fuel) {
            Outcome::Done(v) => if !truthy(v) {
                Outcome::Done(env)
            } else {
                match run(*body, env, fuel) {
                    Outcome::Done(next) => if fuel == 0 {
                        Outcome::OutOfFuel
                    } else {
                        run(s, next, (fuel - 1) as nat)
                    },
                    Outcome::Failed(f) => Outcome::Failed(f),
                    Outcome::OutOfFuel => Outcome::OutOfFuel,
                }
            },
            Outcome::Failed(f) => Outcome::Failed(Failure::ConditionFailed(Box::new(f))),
            Outcome::OutOfFuel => Outcome::OutOfFuel,
        },
        Stmt::For(var, e, body) => match evaluate(e, env, fuel) {
            Outcome::Done(v) => match v {
                Value::List(items) => match run_for(var, items, 0, *body, env, fuel) {
                    Outcome::Done(after) => Outcome::Done(after.remove(var)),
                    Outcome::Failed(f) => Outcome::Failed(f),
                    Outcome::OutOfFuel => Outcome::OutOfFuel,
                },
                _ => Outcome::Failed(Failure::NotIterable),
            },
            Outcome::Failed(f) => Outcome::Failed(f),
            Outcome::OutOfFuel => Outcome::OutOfFuel,
        },
        Stmt::Sequence(first, second) => match run(*first, env, fuel) {
            Outcome::Done(middle) => run(*second, middle, fuel),
            Outcome::Failed(f) => Outcome::Failed(f),
            Outcome::OutOfFuel => Outcome::OutOfFuel,
        },
        Stmt::Func(name, declared, params, body, result) => Outcome::Done(
            env.insert(name, Stored::Func(declared, params, body, result)),
        ),
    }
}

/// The environment after the rounds of a `for` loop from item `i` on: each
/// round binds the variable to the next item and runs the body.
pub open spec fn run_for(
    var: Seq<char>,
    items: Seq<Value>,
    i: nat,
    body: Stmt,
    env: Bindings,
    fuel: nat,
) -> Outcome<Bindings>
    decreases fuel, 1nat, body, items.len() - i + 1,
{
    if i >= items.len() {
        Outcome::Done(env)
    } else {
        match run(body, env.insert(var, stored(items[i as int])), fuel) {
            Outcome::Done(next) => run_for(var, items, i + 1, body, next, fuel),
            Outcome::Failed(f) => Outcome::Failed(f),
            Outcome::OutOfFuel => Outcome::OutOfFuel,
        }
    }
}

} // verus!

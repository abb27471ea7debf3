//! What holds of every evaluation and execution.

use crate::ast::{Expr, Operator, Stmt};
use crate::binary32::Real;
use crate::environment::Bindings;
use crate::environment::Stored;
use crate::error::{decimal, message_text, Failure};
use crate::interpreter::{evaluation, evaluation_ends, execution, execution_ends};
use crate::semantics::{
    ascending, binary, checked_result, descending, evaluate, is_scalar, repeat, run, wrap32,
    Outcome,
};
use crate::value::Value;
use vstd::prelude::*;

verus! {

/// The sum of two integer literals is their sum modulo `2^32`, in every
/// environment and under every bound.
pub proof fn law_integer_addition(a: i32, b: i32, env: Bindings, fuel: nat)
    ensures
        evaluate(
            Expr::Binary(Operator::Add, Box::new(Expr::CInt(a)), Box::new(Expr::CInt(b))),
            env,
            fuel,
        ) == Outcome::Done(Value::CInt(wrap32(a + b))),
        i32::MIN <= a + b <= i32::MAX ==> wrap32(a + b) == a + b,
{
    reveal_with_fuel(evaluate, 2);
}

/// An integer is converted to the real zero exactly if it is 0.
pub proof fn law_only_zero_converts_to_zero(i: i32)
    ensures
        Real::spec_from_i32(i).is_zero() <==> i == 0,
        Real::spec_from_i32(0) == Real::zero(false),
{
    if i != 0 {
        let size = vstd::math::abs(i as int) as nat;
        crate::binary32::lemma_bit_length_positive(size);
        assert(crate::binary32::bit_length(1) == 1) by {
            assert(crate::binary32::bit_length(1) == 1 + crate::binary32::bit_length(0));
        }
        assert(crate::binary32::ulp_exponent(size, 1, 0) >= -24);
    }
}

/// Whether a scalar is zero: the integer 0, `false`, or a real zero of
/// either sign.
pub open spec fn is_zero_scalar(v: Value) -> bool {
    match v {
        Value::CInt(i) => i == 0,
        Value::Bool(b) => !b,
        Value::CReal(x) => x.bits == 0 || x.bits == 0x8000_0000,
        _ => false,
    }
}

/// A division whose operands are scalars fails with `DivisionByZero`
/// exactly if the divisor is zero.
pub proof fn law_division_by_zero(l: Value, r: Value)
    requires
        is_scalar(l),
        is_scalar(r),
    ensures
        binary(Operator::Div, l, r) == Err::<Value, Failure>(Failure::DivisionByZero)
            <==> is_zero_scalar(r),
{
    match r {
        Value::CInt(i) => law_only_zero_converts_to_zero(i),
        _ => {},
    }
}

/// The quotient of two real literals with a zero divisor, and that of two
/// integer literals with divisor 0, fail with `DivisionByZero`.
pub proof fn law_literal_division_by_zero(env: Bindings, fuel: nat, x: Real, y: Real, a: i32)
    requires
        y.is_zero(),
    ensures
        evaluate(
            Expr::Binary(Operator::Div, Box::new(Expr::CReal(x)), Box::new(Expr::CReal(y))),
            env,
            fuel,
        ) == Outcome::<Value>::Failed(Failure::DivisionByZero),
        evaluate(
            Expr::Binary(Operator::Div, Box::new(Expr::CInt(a)), Box::new(Expr::CInt(0))),
            env,
            fuel,
        ) == Outcome::<Value>::Failed(Failure::DivisionByZero),
{
    reveal_with_fuel(evaluate, 2);
}

/// Adding two lists concatenates them, the left one first.
pub proof fn law_concatenation(a: Seq<Value>, b: Seq<Value>)
    ensures
        binary(Operator::Add, Value::List(a), Value::List(b)) == Ok::<Value, Failure>(
            Value::List(a + b),
        ),
{
}

/// A list times `n` has `n` times its length, and item `i` of the product
/// is item `i % len` of the list; a count of zero or less gives the empty list.
pub proof fn law_replication(items: Seq<Value>, n: int)
    ensures
        repeat(items, n).len() == (if n <= 0 {
            0
        } else {
            n * items.len()
        }),
        forall|i: int|
            0 <= i < repeat(items, n).len() ==> #[trigger] repeat(items, n)[i] == items[i
                % (items.len() as int)],
    decreases n,
{
    if n > 0 {
        law_replication(items, n - 1);
        let shorter = repeat(items, n - 1);
        let len = items.len() as int;
        assert(n * len == (n - 1) * len + len) by (nonlinear_arith);
        assert(n == 1 ==> (n - 1) * len == 0) by (nonlinear_arith);
        assert(shorter.len() == (n - 1) * len);
        assert(repeat(items, n).len() == shorter.len() + len);
        assert(n * items.len() == n * len);
        assert forall|i: int| 0 <= i < repeat(items, n).len() implies #[trigger] repeat(
            items,
            n,
        )[i] == items[i % len] by {
            if i >= shorter.len() {
                let j = i - shorter.len();
                assert(repeat(items, n)[i] == items[j]);
                vstd::arithmetic::div_mod::lemma_fundamental_div_mod_converse(i, len, n - 1, j);
            }
        }
    }
}

/// An ascending range holds `start + k * step` for every `k >= 0` with
/// `start + k * step < stop`, in this order, and nothing else.
pub proof fn law_ascending_range(start: int, stop: int, step: int)
    requires
        step > 0,
        i32::MIN <= start,
        stop <= i32::MAX,
    ensures
        ascending(start, stop, step).len() == (if start < stop {
            (stop - start + step - 1) / step
        } else {
            0
        }),
        forall|k: int|
            0 <= k < ascending(start, stop, step).len() ==> #[trigger] ascending(
                start,
                stop,
                step,
            )[k] == Value::CInt((start + k * step) as i32) && start + k * step < stop,
    decreases (if start < stop {
        stop - start
    } else {
        0
    }),
{
    if start < stop {
        let rest = ascending(start + step, stop, step);
        law_ascending_range(start + step, stop, step);
        if start + step < stop {
            assert((stop - start + step - 1) / step == (stop - (start + step) + step - 1) / step
                + 1) by {
                vstd::arithmetic::div_mod::lemma_div_plus_one(stop - start - 1, step);
            }
        } else {
            assert((stop - start + step - 1) / step == 1) by {
                vstd::arithmetic::div_mod::lemma_fundamental_div_mod_converse(
                    stop - start + step - 1,
                    step,
                    1,
                    stop - start - 1,
                );
            }
        }
        let all = ascending(start, stop, step);
        assert forall|k: int| 0 <= k < all.len() implies #[trigger] all[k] == Value::CInt(
            (start + k * step) as i32,
        ) && start + k * step < stop by {
            if k > 0 {
                assert(ascending(start, stop, step)[k] == rest[k - 1]);
                assert(start + step + (k - 1) * step == start + k * step) by (nonlinear_arith);
            }
        }
    }
}

/// A descending range holds `start - k * stride` for every `k >= 0` with
/// `start - k * stride >= low`, in this order, and nothing else.
pub proof fn law_descending_range(start: int, low: int, stride: int)
    requires
        stride > 0,
        start <= i32::MAX,
        i32::MIN <= low,
    ensures
        descending(start, low, stride).len() == (if start >= low {
            (start - low) / stride + 1
        } else {
            0
        }),
        forall|k: int|
            0 <= k < descending(start, low, stride).len() ==> #[trigger] descending(
                start,
                low,
                stride,
            )[k] == Value::CInt((start - k * stride) as i32) && start - k * stride >= low,
    decreases (if low <= start {
        start - low + 1
    } else {
        0
    }),
{
    if start >= low {
        let rest = descending(start - stride, low, stride);
        law_descending_range(start - stride, low, stride);
        if start - stride >= low {
            assert((start - low) / stride == (start - stride - low) / stride + 1) by {
                vstd::arithmetic::div_mod::lemma_div_plus_one(start - stride - low, stride);
            }
        } else {
            assert((start - low) / stride == 0) by {
                vstd::arithmetic::div_mod::lemma_basic_div(start - low, stride);
            }
        }
        let all = descending(start, low, stride);
        assert forall|k: int| 0 <= k < all.len() implies #[trigger] all[k] == Value::CInt(
            (start - k * stride) as i32,
        ) && start - k * stride >= low by {
            if k > 0 {
                assert(descending(start, low, stride)[k] == rest[k - 1]);
                assert(start - stride - (k - 1) * stride == start - k * stride)
                    by (nonlinear_arith);
            }
        }
    }
}

/// A list expression without elements fails.
pub proof fn law_empty_list(env: Bindings, fuel: nat)
    ensures
        evaluate(Expr::List(Seq::empty()), env, fuel) == Outcome::<Value>::Failed(
            Failure::EmptyList,
        ),
{
}

/// A call of a name that is unbound, or bound to a value, fails with
/// "<name> is not defined".
pub proof fn law_undefined_function(name: Seq<char>, args: Seq<Expr>, env: Bindings, fuel: nat)
    requires
        !env.contains_key(name) || !(env[name] is Func),
    ensures
        evaluate(Expr::FuncCall(name, args), env, fuel) == Outcome::<Value>::Failed(
            Failure::UndefinedFunction(name),
        ),
        message_text(Failure::UndefinedFunction(name)) == name + " is not defined"@,
{
}

/// A call with another number of arguments than the function has
/// parameters fails with "<name> requires <N> arguments, got <M>", both
/// numbers in decimal.
pub proof fn law_argument_count(name: Seq<char>, args: Seq<Expr>, env: Bindings, fuel: nat)
    requires
        env.contains_key(name),
        env[name] matches Stored::Func(_, params, _, _) && params.len() != args.len(),
    ensures
        evaluate(Expr::FuncCall(name, args), env, fuel) == Outcome::<Value>::Failed(
            Failure::WrongArgumentCount {
                name,
                expected: env[name]->Func_1.len(),
                got: args.len(),
            },
        ),
        message_text(
            Failure::WrongArgumentCount {
                name,
                expected: env[name]->Func_1.len(),
                got: args.len(),
            },
        ) == name + " requires "@ + decimal(env[name]->Func_1.len()) + " arguments, got "@
            + decimal(args.len()),
{
}

/// A call whose result is not of the declared kind fails with "<name>
/// returned a value different from specified type"; a result of the
/// declared kind is the value of the call.
pub proof fn law_return_type(name: Seq<char>, declared: Value, v: Value)
    ensures
        checked_result(name, declared.kind(), Outcome::Done(v)) == (if v.kind()
            == declared.kind() {
            Outcome::Done(v)
        } else {
            Outcome::Failed(Failure::WrongReturnType(name))
        }),
        message_text(Failure::WrongReturnType(name)) == name
            + " returned a value different from specified type"@,
{
}

/// After a `for` loop its variable is unbound, however often the body ran.
pub proof fn law_loop_variable_removed(
    var: Seq<char>,
    e: Expr,
    body: Stmt,
    env: Bindings,
    fuel: nat,
)
    ensures
        run(Stmt::For(var, e, Box::new(body)), env, fuel) matches Outcome::Done(after)
            ==> !after.contains_key(var),
{
}

/// A statement after a failed one does not run: the sequence fails as its
/// first statement does.
pub proof fn law_sequence_stops(first: Stmt, second: Stmt, env: Bindings, fuel: nat)
    ensures
        run(first, env, fuel) matches Outcome::Failed(f) ==> run(
            Stmt::Sequence(Box::new(first), Box::new(second)),
            env,
            fuel,
        ) == Outcome::<Bindings>::Failed(f),
{
}

/// Evaluating twice gives the same: an outcome that stands under one bound
/// is the outcome of the evaluation.
pub proof fn law_evaluation_is_a_function(e: Expr, env: Bindings, fuel: nat)
    requires
        !(evaluate(e, env, fuel) is OutOfFuel),
    ensures
        evaluation_ends(e, env),
        evaluation(e, env) == evaluate(e, env, fuel),
{
    let chosen = choose|f: nat| !(#[trigger] evaluate(e, env, f) is OutOfFuel);
    crate::determinism::lemma_evaluate_deterministic(e, env, fuel, chosen);
}

/// Executing twice from the same environment gives the same: an outcome
/// that stands under one bound is the outcome of the execution.
pub proof fn law_execution_is_a_function(s: Stmt, env: Bindings, fuel: nat)
    requires
        !(run(s, env, fuel) is OutOfFuel),
    ensures
        execution_ends(s, env),
        execution(s, env) == run(s, env, fuel),
{
    let chosen = choose|f: nat| !(#[trigger] run(s, env, f) is OutOfFuel);
    crate::determinism::lemma_run_deterministic(s, env, fuel, chosen);
}

} // verus!

//! Operations on computed values: arithmetic, lists, ranges, truth.

use crate::ast::Operator;
use crate::binary32::Real;
use crate::environment::{EnvValue, Environment};
use crate::error::{EvalError, Failure};
use crate::semantics::{
    ascending, binary, descending, int_of, is_integral, is_scalar, lookup, quotient, range_of,
    range_values, real_of, repeat, scalar_op, truthy, wrap32,
};
use crate::value::{clone_list, list_view, EvalResult, Value};
use vstd::prelude::*;

verus! {

/// The model of the result of an operation on values.
pub open spec fn result_model(r: Result<EvalResult, EvalError>) -> Result<Value, Failure> {
    match r {
        Ok(v) => Ok(v@),
        Err(e) => Err(e@),
    }
}

/// The model of a concatenation is the concatenation of the models.
pub proof fn lemma_list_view_concat(a: Seq<EvalResult>, b: Seq<EvalResult>)
    ensures
        list_view(a + b) == list_view(a) + list_view(b),
{
    assert(list_view(a + b) =~= list_view(a) + list_view(b));
}

fn int_value(v: &EvalResult) -> (i: i32)
    requires
        is_integral(v@),
    ensures
        i == int_of(v@),
{
    match v {
        EvalResult::CInt(i) => *i,
        EvalResult::Bool(b) => if *b {
            1
        } else {
            0
        },
        _ => 0,
    }
}

fn real_value(v: &EvalResult) -> (x: Real)
    requires
        is_scalar(v@),
    ensures
        x == real_of(v@),
{
    match v {
        EvalResult::CReal(x) => *x,
        EvalResult::CInt(i) => Real::from_i32(*i),
        EvalResult::Bool(b) => Real::from_bool(*b),
        _ => Real::from_bits(0),
    }
}

/// The quotient of two integers, rounded towards zero and wrapped to 32 bits.
pub fn int_quotient(x: i32, y: i32) -> (q: i32)
    requires
        y != 0,
    ensures
        q == wrap32(quotient(x as int, y as int)),
{
    let a: u64 = if x < 0 {
        (-(x as i64)) as u64
    } else {
        x as u64
    };
    let b: u64 = if y < 0 {
        (-(y as i64)) as u64
    } else {
        y as u64
    };
    let size: u64 = a / b;
    assert(size <= a) by {
        vstd::arithmetic::div_mod::lemma_div_nonincreasing(a as int, b as int);
    }
    if (x < 0) != (y < 0) {
        (-(size as i64)) as i32
    } else if size == 0x8000_0000 {
        i32::MIN
    } else {
        size as i32
    }
}

/// Arithmetic on two scalars.
pub fn apply_scalar(op: Operator, l: &EvalResult, r: &EvalResult) -> (res: Result<
    EvalResult,
    EvalError,
>)
    requires
        is_scalar(l@),
        is_scalar(r@),
    ensures
        result_model(res) == scalar_op(op, l@, r@),
{
    let promote = match (l, r) {
        (EvalResult::CReal(_), _) => true,
        (_, EvalResult::CReal(_)) => true,
        _ => false,
    };
    if promote {
        let x = real_value(l);
        let y = real_value(r);
        match op {
            Operator::Add => Ok(EvalResult::CReal(x.plus(y))),
            Operator::Sub => Ok(EvalResult::CReal(x.minus(y))),
            Operator::Mul => Ok(EvalResult::CReal(x.times(y))),
            Operator::Div => if y.is_zero() {
                Err(EvalError::DivisionByZero)
            } else {
                Ok(EvalResult::CReal(x.divided_by(y)))
            },
        }
    } else {
        let x = int_value(l);
        let y = int_value(r);
        match op {
            Operator::Add => Ok(EvalResult::CInt(x.wrapping_add(y))),
            Operator::Sub => Ok(EvalResult::CInt(x.wrapping_sub(y))),
            Operator::Mul => Ok(EvalResult::CInt(x.wrapping_mul(y))),
            Operator::Div => if y == 0 {
                Err(EvalError::DivisionByZero)
            } else {
                Ok(EvalResult::CInt(int_quotient(x, y)))
            },
        }
    }
}

/// `n` copies of a list in a row; none for `n <= 0`.
pub fn repeat_list(items: &Vec<EvalResult>, n: i32) -> (r: Vec<EvalResult>)
    ensures
        list_view(r@) == repeat(list_view(items@), n as int),
{
    let mut out: Vec<EvalResult> = Vec::new();
    let mut k: i32 = 0;
    assert(list_view(out@) =~= repeat(list_view(items@), 0));
    while k < n
        invariant
            0 <= k,
            k <= n || k == 0,
            list_view(out@) == repeat(list_view(items@), k as int),
        decreases n - k,
    {
        let mut copy = clone_list(items);
        proof {
            lemma_list_view_concat(out@, copy@);
        }
        out.append(&mut copy);
        k = k + 1;
    }
    out
}

/// An operator applied to two values.
pub fn apply(op: Operator, l: EvalResult, r: EvalResult) -> (res: Result<EvalResult, EvalError>)
    ensures
        result_model(res) == binary(op, l@, r@),
{
    match (l, r) {
        (EvalResult::List(mut a), EvalResult::List(mut b)) => match op {
            Operator::Add => {
                proof {
                    lemma_list_view_concat(a@, b@);
                }
                a.append(&mut b);
                Ok(EvalResult::List(a))
            },
            _ => Err(EvalError::ListOperand(op)),
        },
        (EvalResult::List(a), other) => match (op, &other) {
            (Operator::Mul, EvalResult::CInt(_)) => Ok(
                EvalResult::List(repeat_list(&a, int_value(&other))),
            ),
            (Operator::Mul, EvalResult::Bool(_)) => Ok(
                EvalResult::List(repeat_list(&a, int_value(&other))),
            ),
            _ => Err(EvalError::ListOperand(op)),
        },
        (other, EvalResult::List(b)) => match (op, &other) {
            (Operator::Mul, EvalResult::CInt(_)) => Ok(
                EvalResult::List(repeat_list(&b, int_value(&other))),
            ),
            (Operator::Mul, EvalResult::Bool(_)) => Ok(
                EvalResult::List(repeat_list(&b, int_value(&other))),
            ),
            _ => Err(EvalError::ListOperand(op)),
        },
        (EvalResult::Empty, _) => Err(EvalError::EmptyOperand(op)),
        (_, EvalResult::Empty) => Err(EvalError::EmptyOperand(op)),
        (l, r) => apply_scalar(op, &l, &r),
    }
}

/// Whether a value counts as true in a condition.
pub fn is_truthy(v: &EvalResult) -> (b: bool)
    ensures
        b == truthy(v@),
{
    match v {
        EvalResult::CInt(i) => *i != 0,
        EvalResult::CReal(x) => !x.is_zero(),
        EvalResult::Bool(b) => *b,
        EvalResult::List(items) => items.len() > 0,
        EvalResult::Empty => false,
    }
}

/// The integers of a range with a step other than zero.
pub fn range_list(start: i32, stop: i32, step: i32) -> (r: Vec<EvalResult>)
    requires
        step != 0,
    ensures
        list_view(r@) == range_values(start as int, stop as int, step as int),
{
    let mut out: Vec<EvalResult> = Vec::new();
    let mut cur: i64 = start as i64;
    if step > 0 {
        assert(list_view(out@) + ascending(cur as int, stop as int, step as int) =~= ascending(
            start as int,
            stop as int,
            step as int,
        ));
        while cur < stop as i64
            invariant
                step > 0,
                start <= cur,
                cur <= stop + step || cur == start,
                list_view(out@) + ascending(cur as int, stop as int, step as int) == ascending(
                    start as int,
                    stop as int,
                    step as int,
                ),
            decreases (if cur < stop { stop - cur } else { 0 }),
        {
            let ghost before = list_view(out@);
            let item = EvalResult::CInt(cur as i32);
            proof {
                crate::value::lemma_list_view_push(out@, item);
                assert((before.push(item@)) + ascending(cur + step, stop as int, step as int)
                    =~= before + ascending(cur as int, stop as int, step as int));
            }
            out.push(item);
            cur = cur + step as i64;
        }
        assert(list_view(out@) + Seq::<Value>::empty() =~= list_view(out@));
    } else {
        let low: i64 = stop as i64 - step as i64;
        let stride: i64 = -(step as i64);
        assert(list_view(out@) + descending(cur as int, low as int, stride as int) =~= descending(
            start as int,
            low as int,
            stride as int,
        ));
        while cur >= low
            invariant
                stride > 0,
                stride == -step,
                low == stop - step,
                cur <= start,
                low - stride <= cur || cur == start,
                list_view(out@) + descending(cur as int, low as int, stride as int) == descending(
                    start as int,
                    low as int,
                    stride as int,
                ),
            decreases (if cur >= low { cur - low + 1 } else { 0 }),
        {
            let ghost before = list_view(out@);
            let item = EvalResult::CInt(cur as i32);
            proof {
                crate::value::lemma_list_view_push(out@, item);
                assert((before.push(item@)) + descending(cur - stride, low as int, stride as int)
                    =~= before + descending(cur as int, low as int, stride as int));
            }
            out.push(item);
            cur = cur - stride;
        }
        assert(list_view(out@) + Seq::<Value>::empty() =~= list_view(out@));
    }
    out
}

/// The list that a range expression makes of its three evaluated parts.
pub fn make_range(start: &EvalResult, stop: &EvalResult, step: &EvalResult) -> (res: Result<
    EvalResult,
    EvalError,
>)
    ensures
        result_model(res) == range_of(start@, stop@, step@),
{
    let integral = match (start, stop, step) {
        (
            EvalResult::CInt(_) | EvalResult::Bool(_),
            EvalResult::CInt(_) | EvalResult::Bool(_),
            EvalResult::CInt(_) | EvalResult::Bool(_),
        ) => true,
        _ => false,
    };
    if !integral {
        return Err(EvalError::NotAnInteger);
    }
    let by = int_value(step);
    if by == 0 {
        Err(EvalError::ZeroIncrement)
    } else {
        Ok(EvalResult::List(range_list(int_value(start), int_value(stop), by)))
    }
}

/// What a variable reference yields.
pub fn variable(env: &Environment, name: &String) -> (res: Result<EvalResult, EvalError>)
    ensures
        result_model(res) == lookup(env@, name@),
{
    match env.lookup(name) {
        Some(EnvValue::CInt(i)) => Ok(EvalResult::CInt(*i)),
        Some(EnvValue::CReal(x)) => Ok(EvalResult::CReal(*x)),
        Some(EnvValue::Bool(b)) => Ok(EvalResult::Bool(*b)),
        Some(EnvValue::List(items)) => Ok(EvalResult::List(clone_list(items))),
        Some(EnvValue::Empty) => Ok(EvalResult::Empty),
        _ => Err(EvalError::UnknownVariable(name.clone())),
    }
}

} // verus!

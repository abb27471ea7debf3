//! The interpreter: evaluation of expressions and execution of statements.
//!
//! [`eval`] and [`execute`] run a program to its end, and so ask that it has
//! one. [`eval_within`] and [`execute_within`] take a limit on how deeply
//! calls and loop rounds may nest, and ask nothing.

use crate::ast::{
    clone_optional_params, clone_optional_stmt, exprs_view, lemma_exprs_view,
    optional_expr_view, optional_params_view, optional_stmt_view, params_view, Expr, Expression,
    Operator, Statement, Stmt,
};
use crate::determinism::{lemma_evaluate_deterministic, lemma_run_deterministic};
use crate::environment::{Bindings, EnvValue, Environment, Stored};
use crate::error::EvalError;
use crate::operations::{apply, is_truthy, make_range, variable};
use crate::semantics::{
    bind_arguments, checked_result, evaluate, evaluate_items, evaluate_or, run, run_for, Outcome,
};
use crate::value::{lemma_list_view_push, list_view, EvalResult, Kind, Name, Value};
use vstd::prelude::*;

verus! {

/// The model of the result of an evaluation.
pub open spec fn value_outcome(r: Result<EvalResult, EvalError>) -> Outcome<Value> {
    match r {
        Ok(v) => Outcome::Done(v@),
        Err(e) => Outcome::Failed(e@),
    }
}

/// The model of the result of an execution.
pub open spec fn env_outcome(r: Result<Environment, EvalError>) -> Outcome<Bindings> {
    match r {
        Ok(env) => Outcome::Done(env@),
        Err(e) => Outcome::Failed(e@),
    }
}

/// The model of the result of an evaluation within a limit.
pub open spec fn limited_value_outcome(r: Option<Result<EvalResult, EvalError>>) -> Outcome<
    Value,
> {
    match r {
        Some(inner) => value_outcome(inner),
        None => Outcome::OutOfFuel,
    }
}

/// The model of the result of an execution within a limit.
pub open spec fn limited_env_outcome(r: Option<Result<Environment, EvalError>>) -> Outcome<
    Bindings,
> {
    match r {
        Some(inner) => env_outcome(inner),
        None => Outcome::OutOfFuel,
    }
}

/// Whether the evaluation of `e` in `env` comes to an end.
pub open spec fn evaluation_ends(e: Expr, env: Bindings) -> bool {
    exists|fuel: nat| !(#[trigger] evaluate(e, env, fuel) is OutOfFuel)
}

/// Whether the execution of `s` in `env` comes to an end.
pub open spec fn execution_ends(s: Stmt, env: Bindings) -> bool {
    exists|fuel: nat| !(#[trigger] run(s, env, fuel) is OutOfFuel)
}

/// The outcome of evaluating `e` in `env`: that under any bound that
/// suffices, and `OutOfFuel` if there is none.
pub open spec fn evaluation(e: Expr, env: Bindings) -> Outcome<Value> {
    evaluate(e, env, choose|fuel: nat| !(#[trigger] evaluate(e, env, fuel) is OutOfFuel))
}

/// The outcome of executing `s` in `env`: that under any bound that
/// suffices, and `OutOfFuel` if there is none.
pub open spec fn execution(s: Stmt, env: Bindings) -> Outcome<Bindings> {
    run(s, env, choose|fuel: nat| !(#[trigger] run(s, env, fuel) is OutOfFuel))
}

/// Evaluates an expression in an environment, which it leaves as it is.
///
/// The evaluation of a call may not come to an end; this function returns
/// where it does, with its outcome.
pub fn eval(exp: &Expression, env: &Environment) -> (res: Result<EvalResult, EvalError>)
    requires
        evaluation_ends(exp@, env@),
    ensures
        value_outcome(res) == evaluation(exp@, env@),
        forall|fuel: nat|
            !(#[trigger] evaluate(exp@, env@, fuel) is OutOfFuel) ==> evaluate(exp@, env@, fuel)
                == value_outcome(res),
{
    let ghost fuel = choose|fuel: nat| !(#[trigger] evaluate(exp@, env@, fuel) is OutOfFuel);
    let res = eval_bounded(exp, env, None, Ghost(fuel));
    proof {
        assert forall|other: nat| !(#[trigger] evaluate(exp@, env@, other) is OutOfFuel) implies
            evaluate(exp@, env@, other) == value_outcome(res->Ok_0) by {
            lemma_evaluate_deterministic(exp@, env@, fuel, other);
        }
    }
    match res {
        Ok(r) => r,
        Err(_) => vstd::pervasive::unreached(),
    }
}

/// Executes a statement and returns the environment that it leaves.
///
/// A loop or a call may not come to an end; this function returns where
/// the execution does, with its outcome.
pub fn execute(stmt: &Statement, env: Environment) -> (res: Result<Environment, EvalError>)
    requires
        execution_ends(stmt@, env@),
    ensures
        env_outcome(res) == execution(stmt@, env@),
        forall|fuel: nat|
            !(#[trigger] run(stmt@, env@, fuel) is OutOfFuel) ==> run(stmt@, env@, fuel)
                == env_outcome(res),
{
    let ghost fuel = choose|fuel: nat| !(#[trigger] run(stmt@, env@, fuel) is OutOfFuel);
    let ghost before = env@;
    let res = execute_bounded(stmt, env, None, Ghost(fuel));
    proof {
        assert forall|other: nat| !(#[trigger] run(stmt@, before, other) is OutOfFuel) implies run(
            stmt@,
            before,
            other,
        ) == env_outcome(res->Ok_0) by {
            lemma_run_deterministic(stmt@, before, fuel, other);
        }
    }
    match res {
        Ok(r) => r,
        Err(_) => vstd::pervasive::unreached(),
    }
}

/// Evaluates an expression as far as calls nest at most `limit` deep.
///
/// Returns `None` where the limit is too small for the evaluation: a larger
/// one may do. Any other result is that of [`eval`].
pub fn eval_within(exp: &Expression, env: &Environment, limit: u64) -> (res: Option<
    Result<EvalResult, EvalError>,
>)
    ensures
        limited_value_outcome(res) == evaluate(exp@, env@, limit as nat),
        res is Some ==> evaluation_ends(exp@, env@) && value_outcome(res->Some_0) == evaluation(
            exp@,
            env@,
        ),
{
    let res = eval_bounded(exp, env, Some(limit), Ghost(limit as nat));
    match res {
        Ok(r) => {
            proof {
                crate::determinism::lemma_evaluation_known(exp@, env@, limit as nat);
            }
            Some(r)
        },
        Err(_) => None,
    }
}

/// Executes a statement as far as calls and loop rounds nest at most
/// `limit` deep.
///
/// Returns `None` where the limit is too small for the execution: a larger
/// one may do. Any other result is that of [`execute`].
pub fn execute_within(stmt: &Statement, env: Environment, limit: u64) -> (res: Option<
    Result<Environment, EvalError>,
>)
    ensures
        limited_env_outcome(res) == run(stmt@, env@, limit as nat),
        res is Some ==> execution_ends(stmt@, env@) && env_outcome(res->Some_0) == execution(
            stmt@,
            env@,
        ),
{
    let ghost before = env@;
    let res = execute_bounded(stmt, env, Some(limit), Ghost(limit as nat));
    match res {
        Ok(r) => {
            proof {
                crate::determinism::lemma_execution_known(stmt@, before, limit as nat);
            }
            Some(r)
        },
        Err(_) => None,
    }
}

/// The limit spent: an evaluation stopped because its limit was too small.
struct Spent;

/// What a bounded evaluation hands back: its result, or that the limit was
/// too small.
type Bounded<T> = Result<Result<T, EvalError>, Spent>;

spec fn bounded_value(r: Bounded<EvalResult>) -> Outcome<Value> {
    match r {
        Ok(inner) => value_outcome(inner),
        Err(_) => Outcome::OutOfFuel,
    }
}

spec fn bounded_env(r: Bounded<Environment>) -> Outcome<Bindings> {
    match r {
        Ok(inner) => env_outcome(inner),
        Err(_) => Outcome::OutOfFuel,
    }
}

/// Whether the executable limit agrees with the bound `fuel`: no limit
/// stands for a bound that is known to suffice.
spec fn agrees(limit: Option<u64>, fuel: nat) -> bool {
    limit matches Some(n) ==> n as nat == fuel
}

/// The limit for what nests one level deeper; none if the limit is spent.
fn deeper(limit: Option<u64>) -> (r: Option<Option<u64>>)
    ensures
        match limit {
            None => r == Some(None::<u64>),
            Some(n) => if n == 0 {
                r is None
            } else {
                r == Some(Some((n - 1) as u64))
            },
        },
{
    match limit {
        None => Some(None),
        Some(n) => if n == 0 {
            None
        } else {
            Some(Some(n - 1))
        },
    }
}

/// Checks the result of a call against the declared type.
fn check_result(name: &Name, declared: &EvalResult, result: Bounded<EvalResult>) -> (res: Bounded<
    EvalResult,
>)
    ensures
        bounded_value(res) == checked_result(name@, declared@.kind(), bounded_value(result)),
{
    match result {
        Ok(Ok(v)) => if v.kind() == declared.kind() {
            Ok(Ok(v))
        } else {
            Ok(Err(EvalError::WrongReturnType(name.clone())))
        },
        Ok(Err(e)) => Ok(Err(e)),
        Err(spent) => Err(spent),
    }
}

/// Whether `exp` applies `op` to `l` and `r`.
spec fn is_binary(exp: Expression, op: Operator, l: Box<Expression>, r: Box<Expression>) -> bool {
    match op {
        Operator::Add => exp == Expression::Add(l, r),
        Operator::Sub => exp == Expression::Sub(l, r),
        Operator::Mul => exp == Expression::Mul(l, r),
        Operator::Div => exp == Expression::Div(l, r),
    }
}

/// Evaluates an expression under the bound `fuel`.
fn eval_bounded(
    exp: &Expression,
    env: &Environment,
    limit: Option<u64>,
    Ghost(fuel): Ghost<nat>,
) -> (res: Bounded<EvalResult>)
    requires
        agrees(limit, fuel),
        limit is None ==> !(evaluate(exp@, env@, fuel) is OutOfFuel),
    ensures
        bounded_value(res) == evaluate(exp@, env@, fuel),
    decreases fuel, 0nat, exp, 2nat,
{
    match exp {
        Expression::CInt(i) => Ok(Ok(EvalResult::CInt(*i))),
        Expression::CReal(x) => Ok(Ok(EvalResult::CReal(*x))),
        Expression::Bool(b) => Ok(Ok(EvalResult::Bool(*b))),
        Expression::Empty => Ok(Ok(EvalResult::Empty)),
        Expression::Var(name) => Ok(variable(env, name)),
        Expression::Add(l, r) => eval_binary(exp, Operator::Add, l, r, env, limit, Ghost(fuel)),
        Expression::Sub(l, r) => eval_binary(exp, Operator::Sub, l, r, env, limit, Ghost(fuel)),
        Expression::Mul(l, r) => eval_binary(exp, Operator::Mul, l, r, env, limit, Ghost(fuel)),
        Expression::Div(l, r) => eval_binary(exp, Operator::Div, l, r, env, limit, Ghost(fuel)),
        Expression::List(items) => eval_list(exp, items, env, limit, Ghost(fuel)),
        Expression::FuncCall(name, args) => eval_call(exp, name, args, env, limit, Ghost(fuel)),
        Expression::Range(start, stop, step) => eval_range(
            exp,
            start,
            stop,
            step,
            env,
            limit,
            Ghost(fuel),
        ),
    }
}

/// Evaluates both operands, the left one first, and applies the operator.
fn eval_binary(
    exp: &Expression,
    op: Operator,
    l: &Box<Expression>,
    r: &Box<Expression>,
    env: &Environment,
    limit: Option<u64>,
    Ghost(fuel): Ghost<nat>,
) -> (res: Bounded<EvalResult>)
    requires
        is_binary(*exp, op, *l, *r),
        agrees(limit, fuel),
        limit is None ==> !(evaluate(exp@, env@, fuel) is OutOfFuel),
    ensures
        bounded_value(res) == evaluate(exp@, env@, fuel),
    decreases fuel, 0nat, exp, 0nat,
{
    assert(exp@ == Expr::Binary(op, Box::new((**l)@), Box::new((**r)@)));
    match eval_bounded(l, env, limit, Ghost(fuel)) {
        Ok(Ok(lv)) => match eval_bounded(r, env, limit, Ghost(fuel)) {
            Ok(Ok(rv)) => Ok(apply(op, lv, rv)),
            other => other,
        },
        other => other,
    }
}

/// Evaluates the elements of a list expression in order.
fn eval_list(
    exp: &Expression,
    items: &Vec<Expression>,
    env: &Environment,
    limit: Option<u64>,
    Ghost(fuel): Ghost<nat>,
) -> (res: Bounded<EvalResult>)
    requires
        *exp == Expression::List(*items),
        agrees(limit, fuel),
        limit is None ==> !(evaluate(exp@, env@, fuel) is OutOfFuel),
    ensures
        bounded_value(res) == evaluate(exp@, env@, fuel),
    decreases fuel, 0nat, exp, 0nat,
{
    let ghost models = exprs_view(items@);
    proof {
        lemma_exprs_view(items@);
        assert(exp@ == Expr::List(models));
    }
    if items.len() == 0 {
        return Ok(Err(EvalError::EmptyList));
    }
    let ghost target = evaluate_items(models, 0, Seq::empty(), env@, fuel);
    let mut values: Vec<EvalResult> = Vec::new();
    let mut i: usize = 0;
    assert(list_view(values@) =~= Seq::<Value>::empty());
    while i < items.len()
        invariant
            i <= items.len(),
            values.len() == i,
            *exp == Expression::List(*items),
            models == exprs_view(items@),
            agrees(limit, fuel),
            evaluate_items(models, i as nat, list_view(values@), env@, fuel) == target,
            limit is None ==> !(target is OutOfFuel),
            target is Failed ==> evaluate(exp@, env@, fuel) == Outcome::<Value>::Failed(
                target->Failed_0,
            ),
            target is OutOfFuel ==> evaluate(exp@, env@, fuel) is OutOfFuel,
        decreases items.len() - i,
    {
        proof {
            lemma_exprs_view(items@);
            assert(decreases_to!(*exp => exp->List_0));
        }
        match eval_bounded(&items[i], env, limit, Ghost(fuel)) {
            Ok(Ok(v)) => {
                let same = if i == 0 {
                    v.kind() != Kind::Empty
                } else {
                    values[0].kind() == v.kind() && v.kind() != Kind::Empty
                };
                if !same {
                    return Ok(Err(EvalError::MixedList));
                }
                proof {
                    lemma_list_view_push(values@, v);
                }
                values.push(v);
            },
            other => {
                return other;
            },
        }
        i += 1;
    }
    Ok(Ok(EvalResult::List(values)))
}

/// Calls a declared function: binds the parameters to the values of the
/// arguments, runs the body and evaluates the result expression.
fn eval_call(
    exp: &Expression,
    name: &Name,
    args: &Option<Vec<Expression>>,
    env: &Environment,
    limit: Option<u64>,
    Ghost(fuel): Ghost<nat>,
) -> (res: Bounded<EvalResult>)
    requires
        *exp == Expression::FuncCall(*name, *args),
        agrees(limit, fuel),
        limit is None ==> !(evaluate(exp@, env@, fuel) is OutOfFuel),
    ensures
        bounded_value(res) == evaluate(exp@, env@, fuel),
    decreases fuel, 0nat, exp, 0nat,
{
    match env.lookup(name) {
        Some(EnvValue::Func(declared, params, body, result)) => {
            let no_arguments: Vec<Expression> = Vec::new();
            let no_parameters: Vec<(Name, EvalResult)> = Vec::new();
            let arguments: &Vec<Expression> = match args {
                Some(a) => a,
                None => &no_arguments,
            };
            let parameters: &Vec<(Name, EvalResult)> = match params {
                Some(p) => p,
                None => &no_parameters,
            };
            let ghost models = exprs_view(arguments@);
            let ghost types = params_view(parameters@);
            proof {
                lemma_exprs_view(arguments@);
                assert(exp@ == Expr::FuncCall(name@, models)) by {
                    if args is None {
                        assert(models =~= Seq::<Expr>::empty());
                    }
                }
                assert(optional_params_view(*params) == types) by {
                    if params is None {
                        assert(types =~= Seq::empty());
                    }
                }
                assert(env@[name@] == Stored::Func(
                    (**declared)@,
                    types,
                    optional_stmt_view(*body),
                    (**result)@,
                ));
            }
            let expected = parameters.len();
            let got = arguments.len();
            if got != expected {
                return Ok(
                    Err(EvalError::WrongArgumentCount { name: name.clone(), expected, got }),
                );
            }
            let ghost target = bind_arguments(types, models, 0, env@, env@, fuel);
            let mut inner = env.clone();
            let mut i: usize = 0;
            while i < got
                invariant
                    i <= got,
                    got == arguments.len(),
                    got == parameters.len(),
                    got > 0 ==> *exp == Expression::FuncCall(*name, Some(*arguments)),
                    models == exprs_view(arguments@),
                    types == params_view(parameters@),
                    agrees(limit, fuel),
                    bind_arguments(types, models, i as nat, inner@, env@, fuel) == target,
                    limit is None ==> !(target is OutOfFuel),
                    target is Failed ==> evaluate(exp@, env@, fuel) == Outcome::<Value>::Failed(
                        target->Failed_0,
                    ),
                    target is OutOfFuel ==> evaluate(exp@, env@, fuel) is OutOfFuel,
                decreases got - i,
            {
                proof {
                    lemma_exprs_view(arguments@);
                    assert(decreases_to!(*exp => exp->FuncCall_1));
                    assert(decreases_to!(exp->FuncCall_1 => exp->FuncCall_1->0));
                }
                match eval_bounded(&arguments[i], env, limit, Ghost(fuel)) {
                    Ok(Ok(v)) => {
                        let declared_kind = parameters[i].1.kind();
                        if declared_kind != v.kind() || v.kind() == Kind::Empty {
                            return Ok(Err(EvalError::MismatchedTypes(declared_kind)));
                        }
                        inner.insert(parameters[i].0.clone(), EnvValue::from_result(v));
                    },
                    other => {
                        return other;
                    },
                }
                i += 1;
            }
            let rest = match deeper(limit) {
                Some(rest) => rest,
                None => {
                    return Err(Spent);
                },
            };
            let ghost less = (fuel - 1) as nat;
            match body {
                Some(b) => match execute_bounded(b, inner, rest, Ghost(less)) {
                    Ok(Ok(after)) => check_result(
                        name,
                        declared,
                        eval_bounded(result, &after, rest, Ghost(less)),
                    ),
                    Ok(Err(e)) => Ok(Err(EvalError::FunctionFailed(name.clone(), Box::new(e)))),
                    Err(spent) => Err(spent),
                },
                None => check_result(
                    name,
                    declared,
                    eval_bounded(result, &inner, rest, Ghost(less)),
                ),
            }
        },
        _ => Ok(Err(EvalError::UndefinedFunction(name.clone()))),
    }
}

/// Evaluates an optional part of a range.
fn eval_or(
    exp: &Expression,
    part: &Option<Box<Expression>>,
    default: i32,
    env: &Environment,
    limit: Option<u64>,
    Ghost(fuel): Ghost<nat>,
) -> (res: Bounded<EvalResult>)
    requires
        exp matches Expression::Range(start, _, step) && (*part == start || *part == step),
        agrees(limit, fuel),
        limit is None ==> !(evaluate_or(
            optional_expr_view(*part),
            Value::CInt(default),
            env@,
            fuel,
        ) is OutOfFuel),
    ensures
        bounded_value(res) == evaluate_or(
            optional_expr_view(*part),
            Value::CInt(default),
            env@,
            fuel,
        ),
    decreases fuel, 0nat, exp, 0nat,
{
    match part {
        Some(e) => {
            proof {
                assert(decreases_to!(*exp => exp->Range_0));
                assert(decreases_to!(*exp => exp->Range_2));
                assert(decreases_to!(*part => part->0));
            }
            eval_bounded(e, env, limit, Ghost(fuel))
        },
        None => Ok(Ok(EvalResult::CInt(default))),
    }
}

/// Evaluates the stop, the start and the step of a range, and lists it.
fn eval_range(
    exp: &Expression,
    start: &Option<Box<Expression>>,
    stop: &Box<Expression>,
    step: &Option<Box<Expression>>,
    env: &Environment,
    limit: Option<u64>,
    Ghost(fuel): Ghost<nat>,
) -> (res: Bounded<EvalResult>)
    requires
        *exp == Expression::Range(*start, *stop, *step),
        agrees(limit, fuel),
        limit is None ==> !(evaluate(exp@, env@, fuel) is OutOfFuel),
    ensures
        bounded_value(res) == evaluate(exp@, env@, fuel),
    decreases fuel, 0nat, exp, 1nat,
{
    assert(exp@ == Expr::Range(
        optional_expr_view(*start),
        Box::new((**stop)@),
        optional_expr_view(*step),
    ));
    match eval_bounded(stop, env, limit, Ghost(fuel)) {
        Ok(Ok(stop_value)) => match eval_or(exp, start, 0, env, limit, Ghost(fuel)) {
            Ok(Ok(start_value)) => match eval_or(exp, step, 1, env, limit, Ghost(fuel)) {
                Ok(Ok(step_value)) => Ok(make_range(&start_value, &stop_value, &step_value)),
                other => other,
            },
            other => other,
        },
        other => other,
    }
}

/// Executes a statement under the bound `fuel`.
fn execute_bounded(
    stmt: &Statement,
    env: Environment,
    limit: Option<u64>,
    Ghost(fuel): Ghost<nat>,
) -> (res: Bounded<Environment>)
    requires
        agrees(limit, fuel),
        limit is None ==> !(run(stmt@, env@, fuel) is OutOfFuel),
    ensures
        bounded_env(res) == run(stmt@, env@, fuel),
    decreases fuel, 1nat, stmt, 1nat,
{
    match stmt {
        Statement::VarDeclaration(_) => Ok(Err(EvalError::NotImplemented)),
        Statement::ValDeclaration(_) => Ok(Err(EvalError::NotImplemented)),
        Statement::Assignment(name, exp) => match eval_bounded(exp, &env, limit, Ghost(fuel)) {
            Ok(Ok(v)) => {
                let mut next = env;
                next.insert((**name).clone(), EnvValue::from_result(v));
                Ok(Ok(next))
            },
            Ok(Err(e)) => Ok(Err(e)),
            Err(spent) => Err(spent),
        },
        Statement::IfThenElse(cond, then_branch, else_branch) => match eval_bounded(
            cond,
            &env,
            limit,
            Ghost(fuel),
        ) {
            Ok(Ok(v)) => if is_truthy(&v) {
                execute_bounded(then_branch, env, limit, Ghost(fuel))
            } else {
                execute_bounded(else_branch, env, limit, Ghost(fuel))
            },
            Ok(Err(e)) => Ok(Err(EvalError::ConditionFailed(Box::new(e)))),
            Err(spent) => Err(spent),
        },
        Statement::While(cond, body) => execute_while(stmt, cond, body, env, limit, Ghost(fuel)),
        Statement::For(var, exp, body) => match eval_bounded(exp, &env, limit, Ghost(fuel)) {
            Ok(Ok(EvalResult::List(items))) => execute_for(
                stmt,
                var,
                &items,
                body,
                env,
                limit,
                Ghost(fuel),
            ),
            Ok(Ok(_)) => Ok(Err(EvalError::NotIterable)),
            Ok(Err(e)) => Ok(Err(e)),
            Err(spent) => Err(spent),
        },
        Statement::Sequence(first, second) => match execute_bounded(
            first,
            env,
            limit,
            Ghost(fuel),
        ) {
            Ok(Ok(middle)) => execute_bounded(second, middle, limit, Ghost(fuel)),
            other => other,
        },
        Statement::Func(name, declared, params, body, result) => {
            let mut next = env;
            next.insert(
                (**name).clone(),
                EnvValue::Func(
                    Box::new((**declared).clone()),
                    clone_optional_params(params),
                    clone_optional_stmt(body),
                    Box::new((**result).clone()),
                ),
            );
            Ok(Ok(next))
        },
    }
}

/// Runs a loop as long as its condition is true.
fn execute_while(
    stmt: &Statement,
    cond: &Box<Expression>,
    body: &Box<Statement>,
    env: Environment,
    limit: Option<u64>,
    Ghost(fuel): Ghost<nat>,
) -> (res: Bounded<Environment>)
    requires
        *stmt == Statement::While(*cond, *body),
        agrees(limit, fuel),
        limit is None ==> !(run(stmt@, env@, fuel) is OutOfFuel),
    ensures
        bounded_env(res) == run(stmt@, env@, fuel),
    decreases fuel, 1nat, stmt, 0nat,
{
    let ghost target = run(stmt@, env@, fuel);
    let ghost mut left = fuel;
    let mut remaining = limit;
    let mut current = env;
    assert(stmt@ == Stmt::While((**cond)@, Box::new((**body)@)));
    loop
        invariant
            left <= fuel,
            *stmt == Statement::While(*cond, *body),
            stmt@ == Stmt::While((**cond)@, Box::new((**body)@)),
            agrees(remaining, left),
            remaining is None <==> limit is None,
            run(stmt@, current@, left) == target,
            target == run(stmt@, env@, fuel),
            limit is None ==> !(target is OutOfFuel),
        decreases left,
    {
        match eval_bounded(cond, &current, remaining, Ghost(left)) {
            Ok(Ok(v)) => {
                if !is_truthy(&v) {
                    return Ok(Ok(current));
                }
                match execute_bounded(body, current, remaining, Ghost(left)) {
                    Ok(Ok(next)) => {
                        match deeper(remaining) {
                            Some(rest) => {
                                remaining = rest;
                            },
                            None => {
                                return Err(Spent);
                            },
                        }
                        current = next;
                        proof {
                            left = (left - 1) as nat;
                        }
                    },
                    other => {
                        return other;
                    },
                }
            },
            Ok(Err(e)) => {
                return Ok(Err(EvalError::ConditionFailed(Box::new(e))));
            },
            Err(spent) => {
                return Err(spent);
            },
        }
    }
}

/// Runs the body once for each item, with the variable bound to the item,
/// and removes the variable afterwards.
fn execute_for(
    stmt: &Statement,
    var: &Box<Name>,
    items: &Vec<EvalResult>,
    body: &Box<Statement>,
    env: Environment,
    limit: Option<u64>,
    Ghost(fuel): Ghost<nat>,
) -> (res: Bounded<Environment>)
    requires
        stmt matches Statement::For(v, _, b) && v == *var && b == *body,
        agrees(limit, fuel),
        limit is None ==> !(run_for((**var)@, list_view(items@), 0, (**body)@, env@, fuel)
            is OutOfFuel),
    ensures
        bounded_env(res) == (match run_for(
            (**var)@,
            list_view(items@),
            0,
            (**body)@,
            env@,
            fuel,
        ) {
            Outcome::Done(after) => Outcome::Done(after.remove((**var)@)),
            Outcome::Failed(f) => Outcome::Failed(f),
            Outcome::OutOfFuel => Outcome::OutOfFuel,
        }),
    decreases fuel, 1nat, stmt, 0nat,
{
    let ghost target = run_for((**var)@, list_view(items@), 0, (**body)@, env@, fuel);
    let mut current = env;
    let mut i: usize = 0;
    while i < items.len()
        invariant
            i <= items.len(),
            stmt matches Statement::For(v, _, b) && v == *var && b == *body,
            agrees(limit, fuel),
            run_for((**var)@, list_view(items@), i as nat, (**body)@, current@, fuel) == target,
            target == run_for((**var)@, list_view(items@), 0, (**body)@, env@, fuel),
            limit is None ==> !(target is OutOfFuel),
        decreases items.len() - i,
    {
        current.insert((**var).clone(), EnvValue::from_result(items[i].clone()));
        match execute_bounded(body, current, limit, Ghost(fuel)) {
            Ok(Ok(next)) => {
                current = next;
            },
            other => {
                return other;
            },
        }
        i += 1;
    }
    current.remove(var.as_str());
    Ok(Ok(current))
}

} // verus!

//! A bound that suffices fixes the outcome: more fuel changes nothing.

use crate::ast::{Expr, Params, Stmt};
use crate::environment::{stored, Bindings, Stored};
use crate::semantics::{
    accepts_argument, bind_arguments, evaluate, evaluate_items, evaluate_or, run, run_for,
    same_list_kind, truthy, Outcome,
};
use crate::value::Value;
use vstd::prelude::*;

verus! {

/// An evaluation that ends under `fuel` ends the same way under `more`.
pub proof fn lemma_evaluate_monotone(e: Expr, env: Bindings, fuel: nat, more: nat)
    requires
        fuel <= more,
        !(evaluate(e, env, fuel) is OutOfFuel),
    ensures
        evaluate(e, env, more) == evaluate(e, env, fuel),
    decreases fuel, 0nat, e, 0nat,
{
    match e {
        Expr::Binary(op, l, r) => {
            lemma_evaluate_monotone(*l, env, fuel, more);
            if evaluate(*l, env, fuel) is Done {
                lemma_evaluate_monotone(*r, env, fuel, more);
            }
        },
        Expr::List(items) => {
            if items.len() > 0 {
                lemma_items_monotone(items, 0, Seq::empty(), env, fuel, more);
            }
        },
        Expr::FuncCall(name, args) => {
            if env.contains_key(name) {
                match env[name] {
                    Stored::Func(declared, params, body, result) => {
                        if args.len() == params.len() {
                            lemma_bind_monotone(params, args, 0, env, env, fuel, more);
                            match bind_arguments(params, args, 0, env, env, fuel) {
                                Outcome::Done(inner) => {
                                    let less = (fuel - 1) as nat;
                                    let most = (more - 1) as nat;
                                    match body {
                                        Some(b) => {
                                            lemma_run_monotone(*b, inner, less, most);
                                            match run(*b, inner, less) {
                                                Outcome::Done(after) => {
                                                    lemma_evaluate_monotone(
                                                        result,
                                                        after,
                                                        less,
                                                        most,
                                                    );
                                                },
                                                _ => {},
                                            }
                                        },
                                        None => {
                                            lemma_evaluate_monotone(result, inner, less, most);
                                        },
                                    }
                                },
                                _ => {},
                            }
                        }
                    },
                    _ => {},
                }
            }
        },
        Expr::Range(start, stop, step) => {
            lemma_evaluate_monotone(*stop, env, fuel, more);
            if evaluate(*stop, env, fuel) is Done {
                lemma_evaluate_or_monotone(start, Value::CInt(0), env, fuel, more);
                if evaluate_or(start, Value::CInt(0), env, fuel) is Done {
                    lemma_evaluate_or_monotone(step, Value::CInt(1), env, fuel, more);
                }
            }
        },
        _ => {},
    }
}

proof fn lemma_evaluate_or_monotone(
    e: Option<Box<Expr>>,
    default: Value,
    env: Bindings,
    fuel: nat,
    more: nat,
)
    requires
        fuel <= more,
        !(evaluate_or(e, default, env, fuel) is OutOfFuel),
    ensures
        evaluate_or(e, default, env, more) == evaluate_or(e, default, env, fuel),
    decreases fuel, 0nat, e, 0nat,
{
    match e {
        Some(b) => lemma_evaluate_monotone(*b, env, fuel, more),
        None => {},
    }
}

proof fn lemma_items_monotone(
    items: Seq<Expr>,
    i: nat,
    done: Seq<Value>,
    env: Bindings,
    fuel: nat,
    more: nat,
)
    requires
        fuel <= more,
        !(evaluate_items(items, i, done, env, fuel) is OutOfFuel),
    ensures
        evaluate_items(items, i, done, env, more) == evaluate_items(items, i, done, env, fuel),
    decreases fuel, 0nat, items, items.len() - i,
{
    if i < items.len() {
        lemma_evaluate_monotone(items[i as int], env, fuel, more);
        match evaluate(items[i as int], env, fuel) {
            Outcome::Done(v) => {
                let first = if i == 0 {
                    v
                } else {
                    done[0]
                };
                if same_list_kind(first, v) {
                    lemma_items_monotone(items, i + 1, done.push(v), env, fuel, more);
                }
            },
            _ => {},
        }
    }
}

proof fn lemma_bind_monotone(
    params: Params,
    args: Seq<Expr>,
    i: nat,
    inner: Bindings,
    env: Bindings,
    fuel: nat,
    more: nat,
)
    requires
        fuel <= more,
        !(bind_arguments(params, args, i, inner, env, fuel) is OutOfFuel),
    ensures
        bind_arguments(params, args, i, inner, env, more) == bind_arguments(
            params,
            args,
            i,
            inner,
            env,
            fuel,
        ),
    decreases fuel, 0nat, args, args.len() - i,
{
    if i < args.len() && i < params.len() {
        lemma_evaluate_monotone(args[i as int], env, fuel, more);
        match evaluate(args[i as int], env, fuel) {
            Outcome::Done(v) => {
                if accepts_argument(params[i as int].1.kind(), v.kind()) {
                    lemma_bind_monotone(
                        params,
                        args,
                        i + 1,
                        inner.insert(params[i as int].0, stored(v)),
                        env,
                        fuel,
                        more,
                    );
                }
            },
            _ => {},
        }
    }
}

/// An execution that ends under `fuel` ends the same way under `more`.
pub proof fn lemma_run_monotone(s: Stmt, env: Bindings, fuel: nat, more: nat)
    requires
        fuel <= more,
        !(run(s, env, fuel) is OutOfFuel),
    ensures
        run(s, env, more) == run(s, env, fuel),
    decreases fuel, 1nat, s, 0nat,
{
    match s {
        Stmt::Assignment(name, e) => {
            lemma_evaluate_monotone(e, env, fuel, more);
        },
        Stmt::IfThenElse(c, t, e) => {
            lemma_evaluate_monotone(c, env, fuel, more);
            match evaluate(c, env, fuel) {
                Outcome::Done(v) => {
                    if truthy(v) {
                        lemma_run_monotone(*t, env, fuel, more);
                    } else {
                        lemma_run_monotone(*e, env, fuel, more);
                    }
                },
                _ => {},
            }
        },
        Stmt::While(c, body) => {
            lemma_evaluate_monotone(c, env, fuel, more);
            match evaluate(c, env, fuel) {
                Outcome::Done(v) => {
                    if truthy(v) {
                        lemma_run_monotone(*body, env, fuel, more);
                        match run(*body, env, fuel) {
                            Outcome::Done(next) => {
                                lemma_run_monotone(
                                    s,
                                    next,
                                    (fuel - 1) as nat,
                                    (more - 1) as nat,
                                );
                            },
                            _ => {},
                        }
                    }
                },
                _ => {},
            }
        },
        Stmt::For(var, e, body) => {
            lemma_evaluate_monotone(e, env, fuel, more);
            match evaluate(e, env, fuel) {
                Outcome::Done(Value::List(items)) => {
                    lemma_run_for_monotone(var, items, 0, *body, env, fuel, more);
                },
                _ => {},
            }
        },
        Stmt::Sequence(first, second) => {
            lemma_run_monotone(*first, env, fuel, more);
            match run(*first, env, fuel) {
                Outcome::Done(middle) => {
                    lemma_run_monotone(*second, middle, fuel, more);
                },
                _ => {},
            }
        },
        _ => {},
    }
}

proof fn lemma_run_for_monotone(
    var: Seq<char>,
    items: Seq<Value>,
    i: nat,
    body: Stmt,
    env: Bindings,
    fuel: nat,
    more: nat,
)
    requires
        fuel <= more,
        !(run_for(var, items, i, body, env, fuel) is OutOfFuel),
    ensures
        run_for(var, items, i, body, env, more) == run_for(var, items, i, body, env, fuel),
    decreases fuel, 1nat, body, items.len() - i + 1,
{
    if i < items.len() {
        let bound = env.insert(var, stored(items[i as int]));
        lemma_run_monotone(body, bound, fuel, more);
        match run(body, bound, fuel) {
            Outcome::Done(next) => {
                lemma_run_for_monotone(var, items, i + 1, body, next, fuel, more);
            },
            _ => {},
        }
    }
}

/// Evaluation is a function of the expression and the environment: two
/// bounds under which it ends give the same outcome.
pub proof fn lemma_evaluate_deterministic(e: Expr, env: Bindings, fuel: nat, other: nat)
    requires
        !(evaluate(e, env, fuel) is OutOfFuel),
        !(evaluate(e, env, other) is OutOfFuel),
    ensures
        evaluate(e, env, fuel) == evaluate(e, env, other),
{
    if fuel <= other {
        lemma_evaluate_monotone(e, env, fuel, other);
    } else {
        lemma_evaluate_monotone(e, env, other, fuel);
    }
}

/// Execution is a function of the statement and the environment: two
/// bounds under which it ends give the same outcome.
pub proof fn lemma_run_deterministic(s: Stmt, env: Bindings, fuel: nat, other: nat)
    requires
        !(run(s, env, fuel) is OutOfFuel),
        !(run(s, env, other) is OutOfFuel),
    ensures
        run(s, env, fuel) == run(s, env, other),
{
    if fuel <= other {
        lemma_run_monotone(s, env, fuel, other);
    } else {
        lemma_run_monotone(s, env, other, fuel);
    }
}

/// An outcome that stands under one bound is the outcome of the evaluation.
pub proof fn lemma_evaluation_known(e: Expr, env: Bindings, fuel: nat)
    requires
        !(evaluate(e, env, fuel) is OutOfFuel),
    ensures
        exists|f: nat| !(#[trigger] evaluate(e, env, f) is OutOfFuel),
        evaluate(e, env, choose|f: nat| !(#[trigger] evaluate(e, env, f) is OutOfFuel))
            == evaluate(e, env, fuel),
{
    let chosen = choose|f: nat| !(#[trigger] evaluate(e, env, f) is OutOfFuel);
    lemma_evaluate_deterministic(e, env, fuel, chosen);
}

/// An outcome that stands under one bound is the outcome of the execution.
pub proof fn lemma_execution_known(s: Stmt, env: Bindings, fuel: nat)
    requires
        !(run(s, env, fuel) is OutOfFuel),
    ensures
        exists|f: nat| !(#[trigger] run(s, env, f) is OutOfFuel),
        run(s, env, choose|f: nat| !(#[trigger] run(s, env, f) is OutOfFuel)) == run(
            s,
            env,
            fuel,
        ),
{
    let chosen = choose|f: nat| !(#[trigger] run(s, env, f) is OutOfFuel);
    lemma_run_deterministic(s, env, fuel, chosen);
}

} // verus!

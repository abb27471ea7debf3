//! Programs that certainly end: those without calls and `while` loops.

use crate::ast::{Expr, Stmt};
use crate::environment::{stored, Bindings};
use crate::interpreter::{evaluation_ends, execution_ends};
use crate::semantics::{evaluate, evaluate_items, evaluate_or, run, run_for, Outcome};
use crate::value::Value;
use vstd::prelude::*;

verus! {

/// Whether no call occurs in an expression.
pub open spec fn call_free(e: Expr) -> bool
    decreases e,
{
    match e {
        Expr::Binary(_, l, r) => call_free(*l) && call_free(*r),
        Expr::FuncCall(_, _) => false,
        Expr::List(items) => forall|i: int|
            0 <= i < items.len() ==> call_free(#[trigger] items[i]),
        Expr::Range(start, stop, step) => call_free(*stop) && (match start {
            Some(s) => call_free(*s),
            None => true,
        }) && (match step {
            Some(s) => call_free(*s),
            None => true,
        }),
        _ => true,
    }
}

/// Whether neither a call nor a `while` loop occurs in a statement. The
/// body of a declared function does not count: a declaration does not run it.
pub open spec fn loop_free(s: Stmt) -> bool
    decreases s,
{
    match s {
        Stmt::Assignment(_, e) => call_free(e),
        Stmt::IfThenElse(c, t, e) => call_free(c) && loop_free(*t) && loop_free(*e),
        Stmt::While(_, _) => false,
        Stmt::For(_, e, body) => call_free(e) && loop_free(*body),
        Stmt::Sequence(first, second) => loop_free(*first) && loop_free(*second),
        _ => true,
    }
}

/// The evaluation of an expression without calls comes to an end.
pub proof fn lemma_call_free_evaluation_ends(e: Expr, env: Bindings)
    requires
        call_free(e),
    ensures
        evaluation_ends(e, env),
{
    lemma_call_free_ends(e, env, 0);
}

/// The execution of a statement without calls and `while` loops comes to
/// an end.
pub proof fn lemma_loop_free_execution_ends(s: Stmt, env: Bindings)
    requires
        loop_free(s),
    ensures
        execution_ends(s, env),
{
    lemma_loop_free_ends(s, env, 0);
}

/// An expression without calls is evaluated under every bound.
pub proof fn lemma_call_free_ends(e: Expr, env: Bindings, fuel: nat)
    requires
        call_free(e),
    ensures
        !(evaluate(e, env, fuel) is OutOfFuel),
    decreases e, 0nat,
{
    match e {
        Expr::Binary(_, l, r) => {
            lemma_call_free_ends(*l, env, fuel);
            lemma_call_free_ends(*r, env, fuel);
        },
        Expr::List(items) => {
            lemma_call_free_items_end(items, 0, Seq::empty(), env, fuel);
        },
        Expr::Range(start, stop, step) => {
            lemma_call_free_ends(*stop, env, fuel);
            match start {
                Some(s) => lemma_call_free_ends(*s, env, fuel),
                None => {},
            }
            match step {
                Some(s) => lemma_call_free_ends(*s, env, fuel),
                None => {},
            }
            assert(!(evaluate_or(start, Value::CInt(0), env, fuel) is OutOfFuel));
            assert(!(evaluate_or(step, Value::CInt(1), env, fuel) is OutOfFuel));
        },
        _ => {},
    }
}

proof fn lemma_call_free_items_end(
    items: Seq<Expr>,
    i: nat,
    done: Seq<Value>,
    env: Bindings,
    fuel: nat,
)
    requires
        forall|j: int| 0 <= j < items.len() ==> call_free(#[trigger] items[j]),
    ensures
        !(evaluate_items(items, i, done, env, fuel) is OutOfFuel),
    decreases items, items.len() - i,
{
    if i < items.len() {
        lemma_call_free_ends(items[i as int], env, fuel);
        match evaluate(items[i as int], env, fuel) {
            Outcome::Done(v) => {
                lemma_call_free_items_end(items, i + 1, done.push(v), env, fuel);
            },
            _ => {},
        }
    }
}

/// A statement without calls and `while` loops is executed under every bound.
pub proof fn lemma_loop_free_ends(s: Stmt, env: Bindings, fuel: nat)
    requires
        loop_free(s),
    ensures
        !(run(s, env, fuel) is OutOfFuel),
    decreases s, 0nat,
{
    match s {
        Stmt::Assignment(_, e) => {
            lemma_call_free_ends(e, env, fuel);
        },
        Stmt::IfThenElse(c, t, e) => {
            lemma_call_free_ends(c, env, fuel);
            lemma_loop_free_ends(*t, env, fuel);
            lemma_loop_free_ends(*e, env, fuel);
        },
        Stmt::For(var, e, body) => {
            lemma_call_free_ends(e, env, fuel);
            match evaluate(e, env, fuel) {
                Outcome::Done(Value::List(items)) => {
                    lemma_loop_free_rounds_end(var, items, 0, *body, env, fuel);
                },
                _ => {},
            }
        },
        Stmt::Sequence(first, second) => {
            lemma_loop_free_ends(*first, env, fuel);
            match run(*first, env, fuel) {
                Outcome::Done(middle) => {
                    lemma_loop_free_ends(*second, middle, fuel);
                },
                _ => {},
            }
        },
        _ => {},
    }
}

proof fn lemma_loop_free_rounds_end(
    var: Seq<char>,
    items: Seq<Value>,
    i: nat,
    body: Stmt,
    env: Bindings,
    fuel: nat,
)
    requires
        loop_free(body),
    ensures
        !(run_for(var, items, i, body, env, fuel) is OutOfFuel),
    decreases body, items.len() - i + 1,
{
    if i < items.len() {
        let bound = env.insert(var, stored(items[i as int]));
        lemma_loop_free_ends(body, bound, fuel);
        match run(body, bound, fuel) {
            Outcome::Done(next) => {
                lemma_loop_free_rounds_end(var, items, i + 1, body, next, fuel);
            },
            _ => {},
        }
    }
}

} // verus!

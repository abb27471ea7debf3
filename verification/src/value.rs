//! Computed values: what an expression evaluates to.

use crate::binary32::Real;
use vstd::prelude::*;

verus! {

/// The name of a variable or of a function.
pub type Name = String;

/// The coarse variant of a value, by which lists and calls are type-checked.
#[derive(Clone, Copy, Debug, PartialEq, Eq, Structural)]
pub enum Kind {
    Int,
    Real,
    Bool,
    List,
    Empty,
}

/// The model of a computed value: a list is a sequence.
pub enum Value {
    CInt(i32),
    CReal(Real),
    Bool(bool),
    List(Seq<Value>),
    Empty,
}

impl Value {
    /// The kind of a value.
    pub open spec fn kind(self) -> Kind {
        match self {
            Value::CInt(_) => Kind::Int,
            Value::CReal(_) => Kind::Real,
            Value::Bool(_) => Kind::Bool,
            Value::List(_) => Kind::List,
            Value::Empty => Kind::Empty,
        }
    }
}

/// The result of evaluating an expression.
#[derive(Debug, PartialEq)]
pub enum EvalResult {
    CInt(i32),
    CReal(Real),
    Bool(bool),
    List(Vec<EvalResult>),
    Empty,
}

/// The models of the items of a list, in order.
pub open spec fn list_view(items: Seq<EvalResult>) -> Seq<Value>
    decreases items,
{
    Seq::new(
        items.len(),
        |i: int|
            if 0 <= i < items.len() {
                result_view(items[i])
            } else {
                Value::Empty
            },
    )
}

/// The model of a computed value.
pub open spec fn result_view(v: EvalResult) -> Value
    decreases v,
{
    match v {
        EvalResult::CInt(i) => Value::CInt(i),
        EvalResult::CReal(x) => Value::CReal(x),
        EvalResult::Bool(b) => Value::Bool(b),
        EvalResult::List(items) => Value::List(list_view(items@)),
        EvalResult::Empty => Value::Empty,
    }
}

impl View for EvalResult {
    type V = Value;

    open spec fn view(&self) -> Value {
        result_view(*self)
    }
}

/// The model of a list with one more item has the item's model at its end.
pub proof fn lemma_list_view_push(items: Seq<EvalResult>, last: EvalResult)
    ensures
        list_view(items.push(last)) == list_view(items).push(last@),
{
    assert(list_view(items.push(last)) =~= list_view(items).push(last@));
}

/// Copies a list item by item.
pub fn clone_list(items: &Vec<EvalResult>) -> (r: Vec<EvalResult>)
    ensures
        list_view(r@) == list_view(items@),
    decreases items,
{
    let mut out: Vec<EvalResult> = Vec::new();
    let mut i: usize = 0;
    while i < items.len()
        invariant
            i <= items.len(),
            out.len() == i,
            forall|j: int| 0 <= j < i ==> out@[j]@ == items@[j]@,
        decreases items.len() - i,
    {
        out.push(items[i].clone());
        i += 1;
    }
    assert(list_view(out@) =~= list_view(items@));
    out
}

impl Clone for EvalResult {
    fn clone(&self) -> (r: EvalResult)
        ensures
            r@ == self@,
        decreases self,
    {
        match self {
            EvalResult::CInt(i) => EvalResult::CInt(*i),
            EvalResult::CReal(x) => EvalResult::CReal(*x),
            EvalResult::Bool(b) => EvalResult::Bool(*b),
            EvalResult::List(items) => EvalResult::List(clone_list(items)),
            EvalResult::Empty => EvalResult::Empty,
        }
    }
}

impl EvalResult {
    /// The kind of a value.
    pub fn kind(&self) -> (k: Kind)
        ensures
            k == self@.kind(),
    {
        match self {
            EvalResult::CInt(_) => Kind::Int,
            EvalResult::CReal(_) => Kind::Real,
            EvalResult::Bool(_) => Kind::Bool,
            EvalResult::List(_) => Kind::List,
            EvalResult::Empty => Kind::Empty,
        }
    }
}

} // verus!

//! The environment: the bindings of names to stored values.

use crate::ast::{
    clone_optional_params, clone_optional_stmt, expr_view, optional_params_view,
    optional_stmt_view, Expr, Expression, Params, Statement, Stmt,
};
use crate::binary32::Real;
use crate::value::{clone_list, list_view, result_view, EvalResult, Name, Value};
use vstd::prelude::*;
use vstd::string::StringExecFns;

verus! {

/// What a name can be bound to: a computed value or a function.
#[derive(Debug, PartialEq)]
pub enum EnvValue {
    CInt(i32),
    CReal(Real),
    Bool(bool),
    List(Vec<EvalResult>),
    /// `Func(return type, parameters, body, result)`.
    Func(
        Box<EvalResult>,
        Option<Vec<(Name, EvalResult)>>,
        Option<Box<Statement>>,
        Box<Expression>,
    ),
    Empty,
}

/// The model of a stored value.
pub enum Stored {
    CInt(i32),
    CReal(Real),
    Bool(bool),
    List(Seq<Value>),
    Func(Value, Params, Option<Box<Stmt>>, Expr),
    Empty,
}

/// The model of an environment.
pub type Bindings = Map<Seq<char>, Stored>;

impl View for EnvValue {
    type V = Stored;

    open spec fn view(&self) -> Stored {
        match *self {
            EnvValue::CInt(i) => Stored::CInt(i),
            EnvValue::CReal(x) => Stored::CReal(x),
            EnvValue::Bool(b) => Stored::Bool(b),
            EnvValue::List(items) => Stored::List(list_view(items@)),
            EnvValue::Func(kind, params, body, result) => Stored::Func(
                result_view(*kind),
                optional_params_view(params),
                optional_stmt_view(body),
                expr_view(*result),
            ),
            EnvValue::Empty => Stored::Empty,
        }
    }
}

impl Clone for EnvValue {
    fn clone(&self) -> (r: EnvValue)
        ensures
            r@ == self@,
    {
        match self {
            EnvValue::CInt(i) => EnvValue::CInt(*i),
            EnvValue::CReal(x) => EnvValue::CReal(*x),
            EnvValue::Bool(b) => EnvValue::Bool(*b),
            EnvValue::List(items) => EnvValue::List(clone_list(items)),
            EnvValue::Func(kind, params, body, result) => EnvValue::Func(
                Box::new((**kind).clone()),
                clone_optional_params(params),
                clone_optional_stmt(body),
                Box::new((**result).clone()),
            ),
            EnvValue::Empty => EnvValue::Empty,
        }
    }
}

/// The stored form of a computed value.
pub open spec fn stored(v: Value) -> Stored {
    match v {
        Value::CInt(i) => Stored::CInt(i),
        Value::CReal(x) => Stored::CReal(x),
        Value::Bool(b) => Stored::Bool(b),
        Value::List(items) => Stored::List(items),
        Value::Empty => Stored::Empty,
    }
}

impl EnvValue {
    /// The stored form of a computed value.
    pub fn from_result(v: EvalResult) -> (r: EnvValue)
        ensures
            r@ == stored(v@),
    {
        match v {
            EvalResult::CInt(i) => EnvValue::CInt(i),
            EvalResult::CReal(x) => EnvValue::CReal(x),
            EvalResult::Bool(b) => EnvValue::Bool(b),
            EvalResult::List(items) => EnvValue::List(items),
            EvalResult::Empty => EnvValue::Empty,
        }
    }
}

/// Whether entry `i` is the binding of `name`.
pub open spec fn binds(entries: Seq<(Name, EnvValue)>, name: Seq<char>, i: int) -> bool {
    0 <= i < entries.len() && entries[i].0@ == name
}

/// No name is bound twice.
pub open spec fn distinct_names(entries: Seq<(Name, EnvValue)>) -> bool {
    forall|i: int, j: int|
        0 <= i < j < entries.len() ==> #[trigger] entries[i].0@ != #[trigger] entries[j].0@
}

/// The bindings that a list of entries stands for.
pub open spec fn entries_view(entries: Seq<(Name, EnvValue)>) -> Bindings {
    Map::new(
        |name: Seq<char>| exists|i: int| binds(entries, name, i),
        |name: Seq<char>| entries[choose|i: int| binds(entries, name, i)].1@,
    )
}

proof fn lemma_bound(entries: Seq<(Name, EnvValue)>, i: int)
    requires
        distinct_names(entries),
        0 <= i < entries.len(),
    ensures
        entries_view(entries).contains_key(entries[i].0@),
        entries_view(entries)[entries[i].0@] == entries[i].1@,
{
    let name = entries[i].0@;
    assert(binds(entries, name, i));
    let j = choose|j: int| binds(entries, name, j);
    assert(j == i);
}

/// A mapping from names to stored values; every name is bound at most once.
#[derive(Debug)]
pub struct Environment {
    entries: Vec<(Name, EnvValue)>,
}

impl View for Environment {
    type V = Bindings;

    closed spec fn view(&self) -> Bindings {
        entries_view(self.entries@)
    }
}

impl Environment {
    #[verifier::type_invariant]
    spec fn well_formed(self) -> bool {
        distinct_names(self.entries@)
    }

    /// The environment without bindings.
    pub fn new() -> (env: Environment)
        ensures
            env@ == Map::<Seq<char>, Stored>::empty(),
    {
        let env = Environment { entries: Vec::new() };
        assert(env@ =~= Map::<Seq<char>, Stored>::empty());
        env
    }

    fn position(&self, name: &String) -> (r: Option<usize>)
        ensures
            match r {
                Some(i) => binds(self.entries@, name@, i as int),
                None => forall|i: int| !binds(self.entries@, name@, i),
            },
    {
        let mut i: usize = 0;
        while i < self.entries.len()
            invariant
                i <= self.entries.len(),
                forall|j: int| 0 <= j < i ==> !binds(self.entries@, name@, j),
            decreases self.entries.len() - i,
        {
            if self.entries[i].0 == *name {
                return Some(i);
            }
            i += 1;
        }
        None
    }

    /// The value bound to `name`, where there is one.
    pub fn lookup(&self, name: &String) -> (r: Option<&EnvValue>)
        ensures
            match r {
                Some(v) => self@.contains_key(name@) && v@ == self@[name@],
                None => !self@.contains_key(name@),
            },
    {
        proof {
            use_type_invariant(self);
        }
        match self.position(name) {
            Some(i) => {
                proof {
                    lemma_bound(self.entries@, i as int);
                }
                Some(&self.entries[i].1)
            },
            None => None,
        }
    }

    /// The value bound to `name`, where there is one.
    pub fn get(&self, name: &str) -> (r: Option<&EnvValue>)
        ensures
            match r {
                Some(v) => self@.contains_key(name@) && v@ == self@[name@],
                None => !self@.contains_key(name@),
            },
    {
        let owned = String::from_str(name);
        self.lookup(&owned)
    }

    /// Whether `name` is bound.
    pub fn contains_key(&self, name: &str) -> (r: bool)
        ensures
            r == self@.contains_key(name@),
    {
        self.get(name).is_some()
    }

    /// Binds `name` to `value`, in place of what it was bound to.
    pub fn insert(&mut self, name: Name, value: EnvValue)
        ensures
            final(self)@ == old(self)@.insert(name@, value@),
    {
        proof {
            use_type_invariant(&*self);
        }
        let found = self.position(&name);
        let mut entries: Vec<(Name, EnvValue)> = Vec::new();
        core::mem::swap(&mut entries, &mut self.entries);
        let ghost before = entries@;
        let ghost key = name@;
        let ghost val = value@;
        match found {
            Some(i) => {
                entries.set(i, (name, value));
                proof {
                    let after = entries@;
                    assert(distinct_names(after));
                    assert forall|k: Seq<char>| #[trigger]
                        entries_view(after).contains_key(k) == entries_view(before).insert(
                            key,
                            val,
                        ).contains_key(k) by {
                        if entries_view(after).contains_key(k) {
                            let j = choose|j: int| binds(after, k, j);
                            assert(binds(before, k, j));
                        }
                        if entries_view(before).contains_key(k) {
                            let j = choose|j: int| binds(before, k, j);
                            assert(binds(after, k, j));
                        }
                        if k == key {
                            assert(binds(after, k, i as int));
                        }
                    }
                    assert forall|k: Seq<char>| #[trigger]
                        entries_view(after).contains_key(k) implies entries_view(after)[k]
                        == entries_view(before).insert(key, val)[k] by {
                        let j = choose|j: int| binds(after, k, j);
                        lemma_bound(after, j);
                        lemma_bound(before, j);
                    }
                    assert(entries_view(after) =~= entries_view(before).insert(key, val));
                }
            },
            None => {
                entries.push((name, value));
                proof {
                    let after = entries@;
                    let last = before.len() as int;
                    assert(distinct_names(after)) by {
                        assert forall|i: int, j: int| 0 <= i < j < after.len() implies #[trigger]
                            after[i].0@ != #[trigger] after[j].0@ by {
                            if j == last {
                                assert(!binds(before, key, i));
                            }
                        }
                    }
                    assert forall|k: Seq<char>| #[trigger]
                        entries_view(after).contains_key(k) == entries_view(before).insert(
                            key,
                            val,
                        ).contains_key(k) by {
                        if entries_view(after).contains_key(k) {
                            let j = choose|j: int| binds(after, k, j);
                            if j != last {
                                assert(binds(before, k, j));
                            }
                        }
                        if entries_view(before).contains_key(k) {
                            let j = choose|j: int| binds(before, k, j);
                            assert(binds(after, k, j));
                        }
                        if k == key {
                            assert(binds(after, k, last));
                        }
                    }
                    assert forall|k: Seq<char>| #[trigger]
                        entries_view(after).contains_key(k) implies entries_view(after)[k]
                        == entries_view(before).insert(key, val)[k] by {
                        let j = choose|j: int| binds(after, k, j);
                        lemma_bound(after, j);
                        if j != last {
                            lemma_bound(before, j);
                        }
                    }
                    assert(entries_view(after) =~= entries_view(before).insert(key, val));
                }
            },
        }
        self.entries = entries;
    }

    /// Removes the binding of `name`, if there is one.
    pub fn remove(&mut self, name: &str)
        ensures
            final(self)@ == old(self)@.remove(name@),
    {
        proof {
            use_type_invariant(&*self);
        }
        let owned = String::from_str(name);
        let found = self.position(&owned);
        let ghost key = name@;
        match found {
            Some(i) => {
                let mut entries: Vec<(Name, EnvValue)> = Vec::new();
                core::mem::swap(&mut entries, &mut self.entries);
                let ghost before = entries@;
                let _ = entries.remove(i);
                proof {
                    let after = entries@;
                    assert(distinct_names(after));
                    assert forall|k: Seq<char>| #[trigger]
                        entries_view(after).contains_key(k) == entries_view(before).remove(
                            key,
                        ).contains_key(k) by {
                        if entries_view(after).contains_key(k) {
                            let j = choose|j: int| binds(after, k, j);
                            if j < i {
                                assert(binds(before, k, j));
                            } else {
                                assert(binds(before, k, j + 1));
                            }
                        }
                        if entries_view(before).contains_key(k) && k != key {
                            let j = choose|j: int| binds(before, k, j);
                            if j < i {
                                assert(binds(after, k, j));
                            } else {
                                assert(binds(after, k, j - 1));
                            }
                        }
                    }
                    assert forall|k: Seq<char>| #[trigger]
                        entries_view(after).contains_key(k) implies entries_view(after)[k]
                        == entries_view(before).remove(key)[k] by {
                        let j = choose|j: int| binds(after, k, j);
                        lemma_bound(after, j);
                        if j < i {
                            lemma_bound(before, j);
                        } else {
                            lemma_bound(before, j + 1);
                        }
                    }
                    assert(entries_view(after) =~= entries_view(before).remove(key));
                }
                self.entries = entries;
            },
            None => {
                assert(self@ =~= self@.remove(key));
            },
        }
    }

    /// The number of bindings.
    pub fn len(&self) -> (n: usize)
        ensures
            n == self@.len(),
    {
        proof {
            use_type_invariant(self);
            lemma_count(self.entries@);
        }
        self.entries.len()
    }
}

impl Clone for Environment {
    fn clone(&self) -> (r: Environment)
        ensures
            r@ == self@,
    {
        proof {
            use_type_invariant(self);
        }
        let mut out: Vec<(Name, EnvValue)> = Vec::new();
        let mut i: usize = 0;
        while i < self.entries.len()
            invariant
                i <= self.entries.len(),
                out.len() == i,
                forall|j: int|
                    0 <= j < i ==> out@[j].0@ == self.entries@[j].0@ && out@[j].1@
                        == self.entries@[j].1@,
            decreases self.entries.len() - i,
        {
            out.push((self.entries[i].0.clone(), self.entries[i].1.clone()));
            i += 1;
        }
        proof {
            let before = self.entries@;
            let after = out@;
            assert(distinct_names(after));
            assert forall|k: Seq<char>| #[trigger]
                entries_view(after).contains_key(k) == entries_view(before).contains_key(k) by {
                if entries_view(after).contains_key(k) {
                    let j = choose|j: int| binds(after, k, j);
                    assert(binds(before, k, j));
                }
                if entries_view(before).contains_key(k) {
                    let j = choose|j: int| binds(before, k, j);
                    assert(binds(after, k, j));
                }
            }
            assert forall|k: Seq<char>| #[trigger]
                entries_view(after).contains_key(k) implies entries_view(after)[k] == entries_view(
                before,
            )[k] by {
                let j = choose|j: int| binds(after, k, j);
                lemma_bound(after, j);
                lemma_bound(before, j);
            }
            assert(entries_view(after) =~= entries_view(before));
        }
        Environment { entries: out }
    }
}

/// Distinct names bind as many names as there are entries.
proof fn lemma_count(entries: Seq<(Name, EnvValue)>)
    requires
        distinct_names(entries),
    ensures
        entries_view(entries).dom().finite(),
        entries_view(entries).len() == entries.len(),
    decreases entries.len(),
{
    if entries.len() == 0 {
        assert(entries_view(entries) =~= Map::<Seq<char>, Stored>::empty());
    } else {
        let rest = entries.drop_last();
        let last = entries.last();
        lemma_count(rest);
        assert forall|k: Seq<char>| #[trigger]
            entries_view(entries).dom().contains(k) == entries_view(rest).dom().insert(
                last.0@,
            ).contains(k) by {
            if entries_view(entries).dom().contains(k) {
                let j = choose|j: int| binds(entries, k, j);
                if j < rest.len() {
                    assert(binds(rest, k, j));
                }
            }
            if entries_view(rest).dom().contains(k) {
                let j = choose|j: int| binds(rest, k, j);
                assert(binds(entries, k, j));
            }
            if k == last.0@ {
                assert(binds(entries, k, entries.len() - 1));
            }
        }
        assert(entries_view(entries).dom() =~= entries_view(rest).dom().insert(last.0@));
        if entries_view(rest).dom().contains(last.0@) {
            let j = choose|j: int| binds(rest, last.0@, j);
            assert(entries[j].0@ != entries[entries.len() - 1].0@);
        }
    }
}

} // verus!

//! The syntax tree: expressions and statements, and their models.

use crate::binary32::Real;
use crate::value::{result_view, EvalResult, Name, Value};
use vstd::prelude::*;

verus! {

/// The four arithmetic operators.
#[derive(Clone, Copy, Debug, PartialEq, Eq, Structural)]
pub enum Operator {
    Add,
    Sub,
    Mul,
    Div,
}

/// An expression of the language.
#[derive(Debug, PartialEq)]
pub enum Expression {
    CInt(i32),
    CReal(Real),
    Bool(bool),
    Empty,
    Var(Name),
    Add(Box<Expression>, Box<Expression>),
    Sub(Box<Expression>, Box<Expression>),
    Mul(Box<Expression>, Box<Expression>),
    Div(Box<Expression>, Box<Expression>),
    /// A call of a declared function; no argument list stands for an empty one.
    FuncCall(Name, Option<Vec<Expression>>),
    List(Vec<Expression>),
    /// `Range(start, stop, step)`: start defaults to 0 and step to 1.
    Range(Option<Box<Expression>>, Box<Expression>, Option<Box<Expression>>),
}

/// A statement of the language.
#[derive(Debug, PartialEq)]
pub enum Statement {
    VarDeclaration(Box<Name>),
    ValDeclaration(Box<Name>),
    Assignment(Box<Name>, Box<Expression>),
    IfThenElse(Box<Expression>, Box<Statement>, Box<Statement>),
    While(Box<Expression>, Box<Statement>),
    For(Box<Name>, Box<Expression>, Box<Statement>),
    Sequence(Box<Statement>, Box<Statement>),
    /// `Func(name, return type, parameters, body, result)`: a type is given
    /// by any value of its kind, and the parameters are bound in this order.
    Func(
        Box<Name>,
        Box<EvalResult>,
        Option<Vec<(Name, EvalResult)>>,
        Option<Box<Statement>>,
        Box<Expression>,
    ),
}

/// The model of an expression: names are sequences of characters, the four
/// operators share one form, and a call without an argument list has the
/// empty one.
pub enum Expr {
    CInt(i32),
    CReal(Real),
    Bool(bool),
    Empty,
    Var(Seq<char>),
    Binary(Operator, Box<Expr>, Box<Expr>),
    FuncCall(Seq<char>, Seq<Expr>),
    List(Seq<Expr>),
    Range(Option<Box<Expr>>, Box<Expr>, Option<Box<Expr>>),
}

/// The declared parameters of a function: name and type, in order.
pub type Params = Seq<(Seq<char>, Value)>;

/// The model of a statement.
pub enum Stmt {
    VarDeclaration(Seq<char>),
    ValDeclaration(Seq<char>),
    Assignment(Seq<char>, Expr),
    IfThenElse(Expr, Box<Stmt>, Box<Stmt>),
    While(Expr, Box<Stmt>),
    For(Seq<char>, Expr, Box<Stmt>),
    Sequence(Box<Stmt>, Box<Stmt>),
    Func(Seq<char>, Value, Params, Option<Box<Stmt>>, Expr),
}

/// The models of a list of expressions, in order.
pub open spec fn exprs_view(items: Seq<Expression>) -> Seq<Expr>
    decreases items,
{
    Seq::new(
        items.len(),
        |i: int|
            if 0 <= i < items.len() {
                expr_view(items[i])
            } else {
                Expr::Empty
            },
    )
}

/// The model of an optional expression.
pub open spec fn optional_expr_view(e: Option<Box<Expression>>) -> Option<Box<Expr>>
    decreases e,
{
    match e {
        Some(b) => Some(Box::new(expr_view(*b))),
        None => None,
    }
}

/// The model of an expression.
pub open spec fn expr_view(e: Expression) -> Expr
    decreases e,
{
    match e {
        Expression::CInt(i) => Expr::CInt(i),
        Expression::CReal(x) => Expr::CReal(x),
        Expression::Bool(b) => Expr::Bool(b),
        Expression::Empty => Expr::Empty,
        Expression::Var(name) => Expr::Var(name@),
        Expression::Add(l, r) => Expr::Binary(
            Operator::Add,
            Box::new(expr_view(*l)),
            Box::new(expr_view(*r)),
        ),
        Expression::Sub(l, r) => Expr::Binary(
            Operator::Sub,
            Box::new(expr_view(*l)),
            Box::new(expr_view(*r)),
        ),
        Expression::Mul(l, r) => Expr::Binary(
            Operator::Mul,
            Box::new(expr_view(*l)),
            Box::new(expr_view(*r)),
        ),
        Expression::Div(l, r) => Expr::Binary(
            Operator::Div,
            Box::new(expr_view(*l)),
            Box::new(expr_view(*r)),
        ),
        Expression::FuncCall(name, args) => Expr::FuncCall(
            name@,
            match args {
                Some(items) => exprs_view(items@),
                None => Seq::empty(),
            },
        ),
        Expression::List(items) => Expr::List(exprs_view(items@)),
        Expression::Range(start, stop, step) => Expr::Range(
            optional_expr_view(start),
            Box::new(expr_view(*stop)),
            optional_expr_view(step),
        ),
    }
}

/// The models of a list are the models of its items.
pub proof fn lemma_exprs_view(items: Seq<Expression>)
    ensures
        exprs_view(items).len() == items.len(),
        forall|i: int| 0 <= i < items.len() ==> #[trigger] exprs_view(items)[i] == items[i]@,
{
}

impl View for Expression {
    type V = Expr;

    open spec fn view(&self) -> Expr {
        expr_view(*self)
    }
}

/// The model of a parameter list.
pub open spec fn params_view(params: Seq<(Name, EvalResult)>) -> Params {
    Seq::new(params.len(), |i: int| (params[i].0@, result_view(params[i].1)))
}

/// The model of an optional parameter list: none stands for the empty one.
pub open spec fn optional_params_view(params: Option<Vec<(Name, EvalResult)>>) -> Params {
    match params {
        Some(p) => params_view(p@),
        None => Seq::empty(),
    }
}

/// The model of an optional statement.
pub open spec fn optional_stmt_view(s: Option<Box<Statement>>) -> Option<Box<Stmt>>
    decreases s,
{
    match s {
        Some(b) => Some(Box::new(stmt_view(*b))),
        None => None,
    }
}

/// The model of a statement.
pub open spec fn stmt_view(s: Statement) -> Stmt
    decreases s,
{
    match s {
        Statement::VarDeclaration(name) => Stmt::VarDeclaration((*name)@),
        Statement::ValDeclaration(name) => Stmt::ValDeclaration((*name)@),
        Statement::Assignment(name, e) => Stmt::Assignment((*name)@, expr_view(*e)),
        Statement::IfThenElse(c, t, e) => Stmt::IfThenElse(
            expr_view(*c),
            Box::new(stmt_view(*t)),
            Box::new(stmt_view(*e)),
        ),
        Statement::While(c, body) => Stmt::While(expr_view(*c), Box::new(stmt_view(*body))),
        Statement::For(name, e, body) => Stmt::For(
            (*name)@,
            expr_view(*e),
            Box::new(stmt_view(*body)),
        ),
        Statement::Sequence(first, second) => Stmt::Sequence(
            Box::new(stmt_view(*first)),
            Box::new(stmt_view(*second)),
        ),
        Statement::Func(name, kind, params, body, result) => Stmt::Func(
            (*name)@,
            result_view(*kind),
            optional_params_view(params),
            optional_stmt_view(body),
            expr_view(*result),
        ),
    }
}

impl View for Statement {
    type V = Stmt;

    open spec fn view(&self) -> Stmt {
        stmt_view(*self)
    }
}

/// Copies a list of expressions item by item.
pub fn clone_exprs(items: &Vec<Expression>) -> (r: Vec<Expression>)
    ensures
        exprs_view(r@) == exprs_view(items@),
    decreases items,
{
    let mut out: Vec<Expression> = Vec::new();
    let mut i: usize = 0;
    while i < items.len()
        invariant
            i <= items.len(),
            out.len() == i,
            forall|j: int| 0 <= j < i ==> out@[j]@ == items@[j]@,
        decreases items.len() - i,
    {
        out.push(items[i].clone());
        i += 1;
    }
    assert(exprs_view(out@) =~= exprs_view(items@));
    out
}

fn clone_optional_expr(e: &Option<Box<Expression>>) -> (r: Option<Box<Expression>>)
    ensures
        optional_expr_view(r) == optional_expr_view(*e),
    decreases e,
{
    match e {
        Some(b) => Some(Box::new((**b).clone())),
        None => None,
    }
}

impl Clone for Expression {
    fn clone(&self) -> (r: Expression)
        ensures
            r@ == self@,
        decreases self,
    {
        match self {
            Expression::CInt(i) => Expression::CInt(*i),
            Expression::CReal(x) => Expression::CReal(*x),
            Expression::Bool(b) => Expression::Bool(*b),
            Expression::Empty => Expression::Empty,
            Expression::Var(name) => Expression::Var(name.clone()),
            Expression::Add(l, r) => Expression::Add(
                Box::new((**l).clone()),
                Box::new((**r).clone()),
            ),
            Expression::Sub(l, r) => Expression::Sub(
                Box::new((**l).clone()),
                Box::new((**r).clone()),
            ),
            Expression::Mul(l, r) => Expression::Mul(
                Box::new((**l).clone()),
                Box::new((**r).clone()),
            ),
            Expression::Div(l, r) => Expression::Div(
                Box::new((**l).clone()),
                Box::new((**r).clone()),
            ),
            Expression::FuncCall(name, args) => Expression::FuncCall(
                name.clone(),
                match args {
                    Some(items) => Some(clone_exprs(items)),
                    None => None,
                },
            ),
            Expression::List(items) => Expression::List(clone_exprs(items)),
            Expression::Range(start, stop, step) => Expression::Range(
                clone_optional_expr(start),
                Box::new((**stop).clone()),
                clone_optional_expr(step),
            ),
        }
    }
}

/// Copies a parameter list item by item.
pub fn clone_params(params: &Vec<(Name, EvalResult)>) -> (r: Vec<(Name, EvalResult)>)
    ensures
        params_view(r@) == params_view(params@),
{
    let mut out: Vec<(Name, EvalResult)> = Vec::new();
    let mut i: usize = 0;
    while i < params.len()
        invariant
            i <= params.len(),
            out.len() == i,
            forall|j: int|
                0 <= j < i ==> out@[j].0@ == params@[j].0@ && out@[j].1@ == params@[j].1@,
        decreases params.len() - i,
    {
        out.push((params[i].0.clone(), params[i].1.clone()));
        i += 1;
    }
    assert(params_view(out@) =~= params_view(params@));
    out
}

/// Copies an optional parameter list.
pub fn clone_optional_params(params: &Option<Vec<(Name, EvalResult)>>) -> (r: Option<
    Vec<(Name, EvalResult)>,
>)
    ensures
        optional_params_view(r) == optional_params_view(*params),
{
    match params {
        Some(p) => Some(clone_params(p)),
        None => None,
    }
}

/// Copies an optional statement.
pub fn clone_optional_stmt(s: &Option<Box<Statement>>) -> (r: Option<Box<Statement>>)
    ensures
        optional_stmt_view(r) == optional_stmt_view(*s),
    decreases s,
{
    match s {
        Some(b) => Some(Box::new((**b).clone())),
        None => None,
    }
}

impl Clone for Statement {
    fn clone(&self) -> (r: Statement)
        ensures
            r@ == self@,
        decreases self,
    {
        match self {
            Statement::VarDeclaration(name) => Statement::VarDeclaration(
                Box::new((**name).clone()),
            ),
            Statement::ValDeclaration(name) => Statement::ValDeclaration(
                Box::new((**name).clone()),
            ),
            Statement::Assignment(name, e) => Statement::Assignment(
                Box::new((**name).clone()),
                Box::new((**e).clone()),
            ),
            Statement::IfThenElse(c, t, e) => Statement::IfThenElse(
                Box::new((**c).clone()),
                Box::new((**t).clone()),
                Box::new((**e).clone()),
            ),
            Statement::While(c, body) => Statement::While(
                Box::new((**c).clone()),
                Box::new((**body).clone()),
            ),
            Statement::For(name, e, body) => Statement::For(
                Box::new((**name).clone()),
                Box::new((**e).clone()),
                Box::new((**body).clone()),
            ),
            Statement::Sequence(first, second) => Statement::Sequence(
                Box::new((**first).clone()),
                Box::new((**second).clone()),
            ),
            Statement::Func(name, kind, params, body, result) => Statement::Func(
                Box::new((**name).clone()),
                Box::new((**kind).clone()),
                clone_optional_params(params),
                clone_optional_stmt(body),
                Box::new((**result).clone()),
            ),
        }
    }
}

} // verus!

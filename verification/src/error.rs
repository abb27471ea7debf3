//! The ways in which evaluation fails, and their messages.

use crate::ast::Operator;
use crate::value::{Kind, Name};
use vstd::prelude::*;
use vstd::string::StringExecFns;

verus! {

/// A failure of evaluation or execution.
#[derive(Debug, PartialEq)]
pub enum EvalError {
    /// A list was written without elements.
    EmptyList,
    /// The elements of a list are not all of the first one's kind.
    MixedList,
    /// The name is not bound to a value.
    UnknownVariable(Name),
    /// An operand of the operator is the empty marker.
    EmptyOperand(Operator),
    /// One operand of the operator is a list, and the operator has no
    /// meaning for the pair.
    ListOperand(Operator),
    DivisionByZero,
    /// The name is not bound to a function.
    UndefinedFunction(Name),
    /// The function takes `expected` arguments and was called with `got`.
    WrongArgumentCount { name: Name, expected: usize, got: usize },
    /// An argument is not of the declared kind.
    MismatchedTypes(Kind),
    /// The body of the function failed.
    FunctionFailed(Name, Box<EvalError>),
    /// The function's result is not of its declared kind.
    WrongReturnType(Name),
    /// A bound of a range is neither an integer nor a truth value.
    NotAnInteger,
    /// The step of a range is zero.
    ZeroIncrement,
    /// The condition of a branch or a loop failed.
    ConditionFailed(Box<EvalError>),
    /// A loop runs over what is not a list.
    NotIterable,
    /// A declaration without a value.
    NotImplemented,
}

/// The model of a failure.
pub enum Failure {
    EmptyList,
    MixedList,
    UnknownVariable(Seq<char>),
    EmptyOperand(Operator),
    ListOperand(Operator),
    DivisionByZero,
    UndefinedFunction(Seq<char>),
    WrongArgumentCount { name: Seq<char>, expected: nat, got: nat },
    MismatchedTypes(Kind),
    FunctionFailed(Seq<char>, Box<Failure>),
    WrongReturnType(Seq<char>),
    NotAnInteger,
    ZeroIncrement,
    ConditionFailed(Box<Failure>),
    NotIterable,
    NotImplemented,
}

/// The model of a failure.
pub open spec fn error_view(e: EvalError) -> Failure
    decreases e,
{
    match e {
        EvalError::EmptyList => Failure::EmptyList,
        EvalError::MixedList => Failure::MixedList,
        EvalError::UnknownVariable(name) => Failure::UnknownVariable(name@),
        EvalError::EmptyOperand(op) => Failure::EmptyOperand(op),
        EvalError::ListOperand(op) => Failure::ListOperand(op),
        EvalError::DivisionByZero => Failure::DivisionByZero,
        EvalError::UndefinedFunction(name) => Failure::UndefinedFunction(name@),
        EvalError::WrongArgumentCount { name, expected, got } => Failure::WrongArgumentCount {
            name: name@,
            expected: expected as nat,
            got: got as nat,
        },
        EvalError::MismatchedTypes(kind) => Failure::MismatchedTypes(kind),
        EvalError::FunctionFailed(name, inner) => Failure::FunctionFailed(
            name@,
            Box::new(error_view(*inner)),
        ),
        EvalError::WrongReturnType(name) => Failure::WrongReturnType(name@),
        EvalError::NotAnInteger => Failure::NotAnInteger,
        EvalError::ZeroIncrement => Failure::ZeroIncrement,
        EvalError::ConditionFailed(inner) => Failure::ConditionFailed(
            Box::new(error_view(*inner)),
        ),
        EvalError::NotIterable => Failure::NotIterable,
        EvalError::NotImplemented => Failure::NotImplemented,
    }
}

impl View for EvalError {
    type V = Failure;

    open spec fn view(&self) -> Failure {
        error_view(*self)
    }
}

/// The character of a decimal digit.
pub open spec fn digit(d: nat) -> char
    recommends
        d < 10,
{
    if d == 0 {
        '0'
    } else if d == 1 {
        '1'
    } else if d == 2 {
        '2'
    } else if d == 3 {
        '3'
    } else if d == 4 {
        '4'
    } else if d == 5 {
        '5'
    } else if d == 6 {
        '6'
    } else if d == 7 {
        '7'
    } else if d == 8 {
        '8'
    } else {
        '9'
    }
}

/// The decimal numeral of `n`, without leading zeros.
pub open spec fn decimal(n: nat) -> Seq<char>
    decreases n,
{
    if n < 10 {
        seq![digit(n)]
    } else {
        decimal(n / 10).push(digit(n % 10))
    }
}

/// The name of an operator in messages.
pub open spec fn operator_text(op: Operator) -> Seq<char> {
    match op {
        Operator::Add => "Add"@,
        Operator::Sub => "Sub"@,
        Operator::Mul => "Mul"@,
        Operator::Div => "Div"@,
    }
}

/// How a declared type is written in messages: as the zero value of its kind.
pub open spec fn kind_text(kind: Kind) -> Seq<char> {
    match kind {
        Kind::Int => "CInt(0)"@,
        Kind::Real => "CReal(0.0)"@,
        Kind::Bool => "Bool(false)"@,
        Kind::List => "List([])"@,
        Kind::Empty => "None"@,
    }
}

/// The text of a failure.
pub open spec fn message_text(f: Failure) -> Seq<char>
    decreases f,
{
    match f {
        Failure::EmptyList => "List initialization must have at least one element"@,
        Failure::MixedList => "List must be homogeneous"@,
        Failure::UnknownVariable(name) => "Variable "@ + name + " not found"@,
        Failure::EmptyOperand(op) => operator_text(op) + " is not supported for 'None'"@,
        Failure::ListOperand(op) => match op {
            Operator::Add => "Can only concatenate list to list"@,
            Operator::Mul => "Cannot multiply list by non-integer value"@,
            _ => operator_text(op) + " not supported for list"@,
        },
        Failure::DivisionByZero => "Division by zero"@,
        Failure::UndefinedFunction(name) => name + " is not defined"@,
        Failure::WrongArgumentCount { name, expected, got } => name + " requires "@ + decimal(
            expected,
        ) + " arguments, got "@ + decimal(got),
        Failure::MismatchedTypes(kind) => "Mismatched types for "@ + kind_text(kind),
        Failure::FunctionFailed(name, inner) => name + " generated an error: "@ + message_text(
            *inner,
        ),
        Failure::WrongReturnType(name) => name
            + " returned a value different from specified type"@,
        Failure::NotAnInteger => "Parameters cannot be converted to integer"@,
        Failure::ZeroIncrement => "Increment cannot be zero"@,
        Failure::ConditionFailed(inner) => "Condition resulted in an error: "@ + message_text(
            *inner,
        ),
        Failure::NotIterable => "Expression must be an iterable object"@,
        Failure::NotImplemented => "not implemented yet"@,
    }
}

fn digit_text(d: usize) -> (r: &'static str)
    requires
        d < 10,
    ensures
        r@ == seq![digit(d as nat)],
{
    proof {
        reveal_strlit("0");
        reveal_strlit("1");
        reveal_strlit("2");
        reveal_strlit("3");
        reveal_strlit("4");
        reveal_strlit("5");
        reveal_strlit("6");
        reveal_strlit("7");
        reveal_strlit("8");
        reveal_strlit("9");
    }
    let r = if d == 0 {
        "0"
    } else if d == 1 {
        "1"
    } else if d == 2 {
        "2"
    } else if d == 3 {
        "3"
    } else if d == 4 {
        "4"
    } else if d == 5 {
        "5"
    } else if d == 6 {
        "6"
    } else if d == 7 {
        "7"
    } else if d == 8 {
        "8"
    } else {
        "9"
    };
    assert(r@ =~= seq![digit(d as nat)]);
    r
}

/// Appends the decimal numeral of `n`.
fn append_decimal(text: &mut String, n: usize)
    ensures
        final(text)@ == old(text)@ + decimal(n as nat),
    decreases n,
{
    if n >= 10 {
        append_decimal(text, n / 10);
    }
    text.append(digit_text(n % 10));
    assert(final(text)@ =~= old(text)@ + decimal(n as nat));
}

fn operator_name(op: Operator) -> (r: &'static str)
    ensures
        r@ == operator_text(op),
{
    match op {
        Operator::Add => "Add",
        Operator::Sub => "Sub",
        Operator::Mul => "Mul",
        Operator::Div => "Div",
    }
}

fn kind_name(kind: Kind) -> (r: &'static str)
    ensures
        r@ == kind_text(kind),
{
    match kind {
        Kind::Int => "CInt(0)",
        Kind::Real => "CReal(0.0)",
        Kind::Bool => "Bool(false)",
        Kind::List => "List([])",
        Kind::Empty => "None",
    }
}

impl EvalError {
    /// Appends the text of this failure.
    fn append_message(&self, text: &mut String)
        ensures
            final(text)@ == old(text)@ + message_text(self@),
        decreases self,
    {
        match self {
            EvalError::EmptyList => text.append(
                "List initialization must have at least one element",
            ),
            EvalError::MixedList => text.append("List must be homogeneous"),
            EvalError::UnknownVariable(name) => {
                text.append("Variable ");
                text.append(name.as_str());
                text.append(" not found");
            },
            EvalError::EmptyOperand(op) => {
                text.append(operator_name(*op));
                text.append(" is not supported for 'None'");
            },
            EvalError::ListOperand(op) => match op {
                Operator::Add => text.append("Can only concatenate list to list"),
                Operator::Mul => text.append("Cannot multiply list by non-integer value"),
                _ => {
                    text.append(operator_name(*op));
                    text.append(" not supported for list");
                },
            },
            EvalError::DivisionByZero => text.append("Division by zero"),
            EvalError::UndefinedFunction(name) => {
                text.append(name.as_str());
                text.append(" is not defined");
            },
            EvalError::WrongArgumentCount { name, expected, got } => {
                text.append(name.as_str());
                text.append(" requires ");
                append_decimal(text, *expected);
                text.append(" arguments, got ");
                append_decimal(text, *got);
            },
            EvalError::MismatchedTypes(kind) => {
                text.append("Mismatched types for ");
                text.append(kind_name(*kind));
            },
            EvalError::FunctionFailed(name, inner) => {
                text.append(name.as_str());
                text.append(" generated an error: ");
                inner.append_message(text);
            },
            EvalError::WrongReturnType(name) => {
                text.append(name.as_str());
                text.append(" returned a value different from specified type");
            },
            EvalError::NotAnInteger => text.append("Parameters cannot be converted to integer"),
            EvalError::ZeroIncrement => text.append("Increment cannot be zero"),
            EvalError::ConditionFailed(inner) => {
                text.append("Condition resulted in an error: ");
                inner.append_message(text);
            },
            EvalError::NotIterable => text.append("Expression must be an iterable object"),
            EvalError::NotImplemented => text.append("not implemented yet"),
        }
        assert(final(text)@ =~= old(text)@ + message_text(self@));
    }

    /// The text of this failure.
    pub fn message(&self) -> (text: String)
        ensures
            text@ == message_text(self@),
    {
        let mut text = String::new();
        self.append_message(&mut text);
        assert(text@ =~= message_text(self@));
        text
    }
}

} // verus!

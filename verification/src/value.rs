//! Runtime values and the errors an evaluation can end in.
use vstd::prelude::*;

verus! {

/// What an evaluation produces.
#[derive(Debug, PartialEq)]
pub enum Value {
    String(String),
    Number(i32),
    Bool(bool),
    /// No value: a conditional whose condition was false.
    Ignore(),
}

/// The mathematical value of a [`Value`].
pub ghost enum Val {
    String(Seq<char>),
    Number(i32),
    Bool(bool),
    Ignore,
}

impl View for Value {
    type V = Val;

    open spec fn view(&self) -> Val {
        match self {
            Value::String(text) => Val::String(text@),
            Value::Number(n) => Val::Number(*n),
            Value::Bool(b) => Val::Bool(*b),
            Value::Ignore() => Val::Ignore,
        }
    }
}

impl Clone for Value {
    fn clone(&self) -> (res: Value)
        ensures
            res@ == self@,
    {
        match self {
            Value::String(text) => Value::String(text.clone()),
            Value::Number(n) => Value::Number(*n),
            Value::Bool(b) => Value::Bool(*b),
            Value::Ignore() => Value::Ignore(),
        }
    }
}

/// Why an evaluation failed.
#[derive(Debug, PartialEq, Eq, Clone, Copy, Structural)]
pub enum RuntimeError {
    /// An identifier has no binding in the current frame.
    UndefinedVariable,
    /// A call names a function that was never defined, or one without statements.
    UndefinedFunction,
    /// Arithmetic on a value that is not a number.
    TypeMismatch,
    /// An equality test on anything but two numbers or two booleans.
    IncompatibleTypes,
    /// A statement wraps something other than a definition or a return.
    UnknownStatement,
    /// An expression wraps a node that is no expression.
    UnknownExpression,
    /// A conditional with an even number of conditions.
    InvalidConditionCount,
    /// A node that has no evaluation rule, arithmetic on fewer than two operands, or a
    /// definition outside any call.
    UnhandledNode,
    /// Arithmetic with an operator other than `+ - * / ^`.
    UndefinedOperator,
    /// The condition of a conditional is not a boolean.
    ConditionNotBool,
    /// A division whose divisor is zero.
    DivisionByZero,
    /// An arithmetic result that does not fit in 32 bits.
    Overflow,
    /// More nested calls than the evaluator allows.
    CallDepthExceeded,
}

impl RuntimeError {
    /// The text of each error.
    pub open spec fn text(self) -> Seq<char> {
        match self {
            RuntimeError::UndefinedVariable => "Undefined variable"@,
            RuntimeError::UndefinedFunction => "Undefined function"@,
            RuntimeError::TypeMismatch => "Cannot do math on String or Bool"@,
            RuntimeError::IncompatibleTypes => "Incompatible types"@,
            RuntimeError::UnknownStatement => "Unknown Statement"@,
            RuntimeError::UnknownExpression => "Unknown Expression"@,
            RuntimeError::InvalidConditionCount => "Invalid amount of conditions"@,
            RuntimeError::UnhandledNode => "Unhandled Node"@,
            RuntimeError::UndefinedOperator => "Undefined operator"@,
            RuntimeError::ConditionNotBool => "Why isn't this a bool"@,
            RuntimeError::DivisionByZero => "Division by zero"@,
            RuntimeError::Overflow => "Arithmetic overflow"@,
            RuntimeError::CallDepthExceeded => "Call depth exceeded"@,
        }
    }

    /// A short description of the error.
    pub fn message(&self) -> (res: &'static str)
        ensures
            res@ == self.text(),
    {
        match self {
            RuntimeError::UndefinedVariable => "Undefined variable",
            RuntimeError::UndefinedFunction => "Undefined function",
            RuntimeError::TypeMismatch => "Cannot do math on String or Bool",
            RuntimeError::IncompatibleTypes => "Incompatible types",
            RuntimeError::UnknownStatement => "Unknown Statement",
            RuntimeError::UnknownExpression => "Unknown Expression",
            RuntimeError::InvalidConditionCount => "Invalid amount of conditions",
            RuntimeError::UnhandledNode => "Unhandled Node",
            RuntimeError::UndefinedOperator => "Undefined operator",
            RuntimeError::ConditionNotBool => "Why isn't this a bool",
            RuntimeError::DivisionByZero => "Division by zero",
            RuntimeError::Overflow => "Arithmetic overflow",
            RuntimeError::CallDepthExceeded => "Call depth exceeded",
        }
    }
}

/// The mathematical value of an evaluation's result.
pub open spec fn result_view(r: Result<Value, RuntimeError>) -> Result<Val, RuntimeError> {
    match r {
        Ok(v) => Ok(v@),
        Err(e) => Err(e),
    }
}

} // verus!

//! What evaluating a syntax tree means, as mathematical functions on trees and maps.
use crate::ast::Ast;
use crate::value::{RuntimeError, Val};
use vstd::arithmetic::power::pow;
use vstd::prelude::*;

verus! {

/// A function of the evaluated program: its parameters and its statements.
pub ghost struct Function {
    pub parameters: Seq<Ast>,
    pub body: Seq<Ast>,
}

/// A frame: the variables of one active call.
pub type Frame = Map<Seq<char>, Val>;

/// The evaluator's state: the function table, and one frame for each active call, the
/// innermost last.
pub ghost struct State {
    pub functions: Map<Seq<char>, Function>,
    pub stack: Seq<Frame>,
}

/// The state after evaluating a node, and what the node evaluated to.
pub ghost struct Outcome {
    pub state: State,
    pub result: Result<Val, RuntimeError>,
}

/// The state after evaluating the arguments of a call, and the frame they fill.
pub ghost struct Bound {
    pub state: State,
    pub result: Result<Frame, RuntimeError>,
}

/// The state of an evaluator that has seen nothing.
pub open spec fn initial_state() -> State {
    State { functions: Map::empty(), stack: Seq::empty() }
}

/// `st` with `name` defined as `function`.
pub open spec fn define(st: State, name: Seq<char>, function: Function) -> State {
    State { functions: st.functions.insert(name, function), stack: st.stack }
}

/// `st` with `frame` as the innermost frame.
pub open spec fn push_frame(st: State, frame: Frame) -> State {
    State { functions: st.functions, stack: st.stack.push(frame) }
}

/// `st` without its innermost frame.
pub open spec fn pop_frame(st: State) -> State {
    if st.stack.len() == 0 {
        st
    } else {
        State { functions: st.functions, stack: st.stack.drop_last() }
    }
}

/// `st` with `name` bound to `value` in the innermost frame.
pub open spec fn bind(st: State, name: Seq<char>, value: Val) -> State
    recommends
        st.stack.len() > 0,
{
    State {
        functions: st.functions,
        stack: st.stack.update(st.stack.len() - 1, st.stack.last().insert(name, value)),
    }
}

/// What `name` is bound to in the innermost frame.
pub open spec fn lookup(st: State, name: Seq<char>) -> Result<Val, RuntimeError> {
    if st.stack.len() > 0 && st.stack.last().contains_key(name) {
        Ok(st.stack.last()[name])
    } else {
        Err(RuntimeError::UndefinedVariable)
    }
}

/// The name that a declared parameter binds: that of an identifier, bare or wrapped in an
/// expression.
pub open spec fn parameter_name(parameter: Ast) -> Option<Seq<char>> {
    match parameter {
        Ast::Identifier { name } => Some(name),
        Ast::Expression { inner } => match *inner {
            Ast::Identifier { name } => Some(name),
            _ => None,
        },
        _ => None,
    }
}

/// `frame` after a call has handed `value` to `parameter`.
pub open spec fn bind_parameter(frame: Frame, parameter: Ast, value: Val) -> Frame {
    match parameter_name(parameter) {
        Some(name) => frame.insert(name, value),
        None => frame,
    }
}

/// Whether `n` is a 32-bit signed integer.
pub open spec fn fits(n: int) -> bool {
    i32::MIN <= n <= i32::MAX
}

/// The number `n` as a result: an overflow where it does not fit in 32 bits.
pub open spec fn number(n: int) -> Result<Val, RuntimeError> {
    if fits(n) {
        Ok(Val::Number(n as i32))
    } else {
        Err(RuntimeError::Overflow)
    }
}

/// The quotient of `a` by `b`, rounded towards zero.
pub open spec fn truncated_quotient(a: int, b: int) -> int
    recommends
        b != 0,
{
    if a >= 0 && b > 0 {
        a / b
    } else if a < 0 && b < 0 {
        (-a) / (-b)
    } else if a < 0 {
        -((-a) / b)
    } else {
        -(a / (-b))
    }
}

/// `base` multiplied by itself `exponent` times; 1 where `exponent` is not positive.
pub open spec fn power(base: int, exponent: int) -> int {
    if exponent <= 0 {
        1
    } else {
        pow(base, exponent as nat)
    }
}

/// The result of the arithmetic operator `operator` on the values `left` and `right`.
pub open spec fn arithmetic(operator: Seq<char>, left: Val, right: Val) -> Result<
    Val,
    RuntimeError,
> {
    match (left, right) {
        (Val::Number(l), Val::Number(r)) => {
            if operator.len() != 1 {
                Err(RuntimeError::UndefinedOperator)
            } else if operator[0] == '+' {
                number(l + r)
            } else if operator[0] == '-' {
                number(l - r)
            } else if operator[0] == '*' {
                number(l * r)
            } else if operator[0] == '/' {
                if r == 0 {
                    Err(RuntimeError::DivisionByZero)
                } else {
                    number(truncated_quotient(l as int, r as int))
                }
            } else if operator[0] == '^' {
                number(power(l as int, r as int))
            } else {
                Err(RuntimeError::UndefinedOperator)
            }
        },
        _ => Err(RuntimeError::TypeMismatch),
    }
}

/// The result of testing `left` and `right` for equality.
pub open spec fn equality(left: Val, right: Val) -> Result<Val, RuntimeError> {
    match (left, right) {
        (Val::Number(l), Val::Number(r)) => Ok(Val::Bool(l == r)),
        (Val::Bool(l), Val::Bool(r)) => Ok(Val::Bool(l == r)),
        _ => Err(RuntimeError::IncompatibleTypes),
    }
}

/// Whether a statement may wrap `node`.
pub open spec fn is_statement_form(node: Ast) -> bool {
    node is VariableDefine || node is FunctionReturn
}

/// Whether an expression may wrap `node`.
pub open spec fn is_expression_form(node: Ast) -> bool {
    node is If || node is MathExpression || node is Number || node is FunctionCall
        || node is String || node is Bool || node is Identifier
}

/// The name of the function that an evaluation starts with.
pub open spec fn entry_point() -> Seq<char> {
    "main"@
}

/// `st` after the registration pass has seen the top-level node `child`: a function
/// definition is registered under its name, a bare expression or statement becomes the
/// body of the entry point.
pub open spec fn register(child: Ast, st: State) -> State {
    match child {
        Ast::FunctionDefine { name, parameters, body } => define(
            st,
            name,
            Function { parameters, body },
        ),
        Ast::Expression { .. } => define(
            st,
            entry_point(),
            Function {
                parameters: Seq::empty(),
                body: seq![Ast::FunctionReturn { expression: Box::new(child) }],
            },
        ),
        Ast::Statement { .. } => define(
            st,
            entry_point(),
            Function { parameters: Seq::empty(), body: seq![child] },
        ),
        _ => st,
    }
}

/// `st` after the registration pass has seen the first `count` nodes of `children`.
pub open spec fn register_all(children: Seq<Ast>, count: nat, st: State) -> State
    decreases count,
{
    if count == 0 || count > children.len() {
        st
    } else {
        register(children[count - 1], register_all(children, (count - 1) as nat, st))
    }
}

/// The outcome `result` in the state `st`.
pub open spec fn done(st: State, result: Result<Val, RuntimeError>) -> Outcome {
    Outcome { state: st, result }
}

/// The outcome of evaluating `node` in the state `st`, with `depth` nested calls allowed.
pub open spec fn eval(node: Ast, st: State, depth: nat) -> Outcome
    decreases depth, node, 0nat,
{
    match node {
        Ast::Program { children } => done(
            register_all(children, children.len(), st),
            Ok(Val::Bool(true)),
        ),
        Ast::FunctionDefine { .. } => done(register(node, st), Ok(Val::Bool(true))),
        Ast::Number { value } => done(st, Ok(Val::Number(value))),
        Ast::Bool { value } => done(st, Ok(Val::Bool(value))),
        Ast::String { value } => done(st, Ok(Val::String(value))),
        Ast::Identifier { name } => done(st, lookup(st, name)),
        Ast::FunctionReturn { expression } => eval(*expression, st, depth),
        Ast::Statement { inner } => if is_statement_form(*inner) {
            eval(*inner, st, depth)
        } else {
            done(st, Err(RuntimeError::UnknownStatement))
        },
        Ast::Expression { inner } => if is_expression_form(*inner) {
            eval(*inner, st, depth)
        } else {
            done(st, Err(RuntimeError::UnknownExpression))
        },
        Ast::VariableDefine { name, expression } => {
            let value = eval(*expression, st, depth);
            match value.result {
                Err(_) => value,
                Ok(v) => if value.state.stack.len() == 0 {
                    done(value.state, Err(RuntimeError::UnhandledNode))
                } else {
                    done(bind(value.state, name, v), Ok(v))
                },
            }
        },
        Ast::MathExpression { operator, operands } => if operands.len() < 2 {
            done(st, Err(RuntimeError::UnhandledNode))
        } else {
            let left = eval(operands[0], st, depth);
            match left.result {
                Err(_) => left,
                Ok(l) => {
                    let right = eval(operands[1], left.state, depth);
                    match right.result {
                        Err(_) => right,
                        Ok(r) => done(right.state, arithmetic(operator, l, r)),
                    }
                },
            }
        },
        Ast::TestEquality { lhs, rhs } => {
            let left = eval(*lhs, st, depth);
            match left.result {
                Err(_) => left,
                Ok(l) => {
                    let right = eval(*rhs, left.state, depth);
                    match right.result {
                        Err(_) => right,
                        Ok(r) => done(right.state, equality(l, r)),
                    }
                },
            }
        },
        Ast::If { condition, then_branch } => if condition.len() % 2 != 1 {
            done(st, Err(RuntimeError::InvalidConditionCount))
        } else {
            let tested = eval(condition[0], st, depth);
            match tested.result {
                Err(_) => tested,
                Ok(Val::Bool(true)) => eval(*then_branch, tested.state, depth),
                Ok(Val::Bool(false)) => done(tested.state, Ok(Val::Ignore)),
                Ok(_) => done(tested.state, Err(RuntimeError::ConditionNotBool)),
            }
        },
        Ast::FunctionCall { name, arguments } => if !st.functions.contains_key(name) {
            done(st, Err(RuntimeError::UndefinedFunction))
        } else if depth == 0 {
            done(st, Err(RuntimeError::CallDepthExceeded))
        } else {
            let function = st.functions[name];
            let bound = bind_arguments(
                function.parameters,
                arguments,
                arguments.len(),
                st,
                depth,
            );
            match bound.result {
                Err(e) => done(bound.state, Err(e)),
                Ok(frame) => {
                    let ran = run_body(
                        function.body,
                        function.body.len(),
                        push_frame(bound.state, frame),
                        (depth - 1) as nat,
                    );
                    done(pop_frame(ran.state), ran.result)
                },
            }
        },
        _ => done(st, Err(RuntimeError::UnhandledNode)),
    }
}

/// `frame` after a call has handed `value` to the parameter at `position`, if there is
/// one.
pub open spec fn bind_at(frame: Frame, parameters: Seq<Ast>, position: int, value: Val) -> Frame {
    if 0 <= position < parameters.len() {
        bind_parameter(frame, parameters[position], value)
    } else {
        frame
    }
}

/// The outcome of evaluating the first `count` of `arguments` in order, in the caller's
/// state, each bound to the parameter at its position. A parameter without an argument
/// stays unbound.
pub open spec fn bind_arguments(
    parameters: Seq<Ast>,
    arguments: Seq<Ast>,
    count: nat,
    st: State,
    depth: nat,
) -> Bound
    decreases depth, arguments, count,
{
    if count == 0 || count > arguments.len() {
        Bound { state: st, result: Ok(Map::empty()) }
    } else {
        let earlier = bind_arguments(parameters, arguments, (count - 1) as nat, st, depth);
        match earlier.result {
            Err(_) => earlier,
            Ok(frame) => {
                let value = eval(arguments[count - 1], earlier.state, depth);
                match value.result {
                    Err(e) => Bound { state: value.state, result: Err(e) },
                    Ok(v) => Bound {
                        state: value.state,
                        result: Ok(bind_at(frame, parameters, count - 1, v)),
                    },
                }
            },
        }
    }
}

/// The outcome of executing the first `count` statements of `body` in order: that of the
/// last one, or of the first that fails. A body without statements is no function.
pub open spec fn run_body(body: Seq<Ast>, count: nat, st: State, depth: nat) -> Outcome
    decreases depth, body, count,
{
    if count == 0 || count > body.len() {
        done(st, Err(RuntimeError::UndefinedFunction))
    } else if count == 1 {
        eval(body[0], st, depth)
    } else {
        let earlier = run_body(body, (count - 1) as nat, st, depth);
        match earlier.result {
            Err(_) => earlier,
            Ok(_) => eval(body[count - 1], earlier.state, depth),
        }
    }
}

/// The call that starts a program.
pub open spec fn entry_call() -> Ast {
    Ast::FunctionCall { name: entry_point(), arguments: Seq::empty() }
}

/// The result of a program: `node` is evaluated by a fresh evaluator, which then calls the
/// entry point without arguments. Of the first evaluation only the state counts.
pub open spec fn run_program(node: Ast) -> Result<Val, RuntimeError> {
    let registered = eval(node, initial_state(), crate::MAX_CALL_DEPTH as nat);
    eval(entry_call(), registered.state, crate::MAX_CALL_DEPTH as nat).result
}

} // verus!

//! A parser and a tree-walking evaluator for a small expression language.
//!
//! [`program`] turns a source text into a syntax tree, and [`run`] evaluates a tree. What
//! each rule of the grammar reads is stated in [`grammar`], what each node evaluates to in
//! [`semantics`].
use vstd::prelude::*;

pub mod arithmetic;
pub mod ast;
pub mod grammar;
pub mod laws;
pub mod lexer;
pub mod parser;
pub mod progress;
pub mod runtime;
pub mod semantics;
pub mod table;
pub mod text;
pub mod value;

pub use ast::Node;
pub use grammar::Rule;
pub use lexer::{ParseError, ParseResult};
pub use parser::{
    arguments, binary, boolean, condition, condition_end, equality_math, expression,
    function_call, function_definition, function_return, identifier, if_stmt, integer, integer0,
    integer1, l1, l1_infix, l2, l2_infix, l3, l3_infix, l4, math_expression, number, octal,
    other_arg, parenthetical_condition, parenthetical_expression, program, statement, string,
    variable_define,
};
pub use runtime::{run, Runtime};
pub use value::{RuntimeError, Value};

verus! {

/// The largest number of nested function calls an evaluation may reach.
pub const MAX_CALL_DEPTH: u32 = 200;

} // verus!

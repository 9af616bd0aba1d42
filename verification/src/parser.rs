//! The parser: one function for each rule of the grammar.
//!
//! Each function reads a prefix of its input and returns the rest with the node it built,
//! or the failure of the step that did not match.
use crate::ast::{view_all, Ast, Node};
use crate::grammar;
use crate::grammar::{Repeated, Rule};
use crate::lexer::{
    decimal_run, digits, expect, is_fatal, list_view, parsed_view, skip_class, take_digit,
    text_run, text_view, word, ParseError, ParseResult,
};
use crate::text::{lemma_leading, Class};
use vstd::prelude::*;

verus! {

/// What a repeated rule returns: the rest of the input with the nodes in order.
pub type ParseList<'a> = Result<(&'a str, Vec<Node>), ParseError<'a>>;

/// An identifier: one or more letters and digits.
pub fn identifier<'a>(input: &'a str) -> (res: ParseResult<'a>)
    ensures
        parsed_view(res) == grammar::identifier(input@),
        res matches Ok((rest, _)) ==> rest@.len() < input@.len(),
{
    match word(input) {
        Ok((rest, name)) => Ok((rest, Node::Identifier { name: String::from_str(name) })),
        Err(e) => Err(e),
    }
}

/// A number in the base of `class`, after the prefix `0` and `letter`.
fn prefixed<'a>(input: &'a str, letter: &str, class: Class) -> (res: ParseResult<'a>)
    requires
        class is Binary || class is Octal || class is Decimal,
    ensures
        parsed_view(res) == grammar::prefixed(input@, letter@, class),
        res matches Ok((rest, _)) ==> rest@.len() < input@.len(),
{
    proof {
        reveal(grammar::prefixed);
    }
    let after_zero = match expect(input, "0") {
        Ok(rest) => rest,
        Err(e) => {
            return Err(e);
        },
    };
    let rest = match expect(after_zero, letter) {
        Ok(rest) => rest,
        Err(e) => {
            return Err(e);
        },
    };
    digits(rest, class)
}

/// A binary number: `0b` and binary digits.
pub fn binary<'a>(input: &'a str) -> (res: ParseResult<'a>)
    ensures
        parsed_view(res) == grammar::binary(input@),
        res matches Ok((rest, _)) ==> rest@.len() < input@.len(),
{
    proof {
        reveal(grammar::binary);
    }
    prefixed(input, "b", Class::Binary)
}

/// An octal number: `0o` and octal digits.
pub fn octal<'a>(input: &'a str) -> (res: ParseResult<'a>)
    ensures
        parsed_view(res) == grammar::octal(input@),
        res matches Ok((rest, _)) ==> rest@.len() < input@.len(),
{
    proof {
        reveal(grammar::octal);
    }
    prefixed(input, "o", Class::Octal)
}

/// The digit `0`.
pub fn integer0<'a>(input: &'a str) -> (res: ParseResult<'a>)
    ensures
        parsed_view(res) == grammar::integer0(input@),
        res matches Ok((rest, _)) ==> rest@.len() < input@.len(),
{
    proof {
        reveal(grammar::integer0);
    }
    match expect(input, "0") {
        Ok(rest) => Ok((rest, Node::Number { value: 0 })),
        Err(e) => Err(e),
    }
}

/// A decimal number that starts with one of the digits `1` to `9`.
pub fn integer1<'a>(input: &'a str) -> (res: ParseResult<'a>)
    ensures
        parsed_view(res) == grammar::integer1(input@),
        res matches Ok((rest, _)) ==> rest@.len() < input@.len(),
{
    proof {
        reveal(grammar::integer1);
        reveal(grammar::digits);
    }
    if take_digit(input, 1, 9).is_none() {
        return Err(ParseError { rule: Rule::Tag, rest: input });
    }
    proof {
        lemma_leading(input@, Class::Decimal);
    }
    match decimal_run(input) {
        None => Err(ParseError { rule: Rule::Tag, rest: input }),
        Some((rest, matched)) => {
            proof {
                lemma_leading(matched@, Class::Decimal);
                assert(matched@.take(matched@.len() as int) =~= matched@);
            }
            match digits(matched, Class::Decimal) {
                Ok((_, node)) => Ok((rest, node)),
                Err(e) => Err(ParseError { rule: e.rule, rest: input }),
            }
        },
    }
}

/// A decimal number: `0`, or digits that do not start with `0`.
pub fn integer<'a>(input: &'a str) -> (res: ParseResult<'a>)
    ensures
        parsed_view(res) == grammar::integer(input@),
        res matches Ok((rest, _)) ==> rest@.len() < input@.len(),
{
    proof {
        reveal(grammar::integer);
    }
    match integer0(input) {
        Ok(found) => Ok(found),
        Err(e) => if is_fatal(&e) {
            Err(e)
        } else {
            integer1(input)
        },
    }
}

/// A number: binary, octal or decimal.
pub fn number<'a>(input: &'a str) -> (res: ParseResult<'a>)
    ensures
        parsed_view(res) == grammar::number(input@),
        res matches Ok((rest, _)) ==> rest@.len() < input@.len(),
{
    proof {
        reveal(grammar::number);
    }
    match binary(input) {
        Ok(found) => Ok(found),
        Err(e) => if is_fatal(&e) {
            Err(e)
        } else {
            match octal(input) {
                Ok(found) => Ok(found),
                Err(e) => if is_fatal(&e) {
                    Err(e)
                } else {
                    integer(input)
                },
            }
        },
    }
}

/// A boolean: `true` or `false`.
pub fn boolean<'a>(input: &'a str) -> (res: ParseResult<'a>)
    ensures
        parsed_view(res) == grammar::boolean(input@),
        res matches Ok((rest, _)) ==> rest@.len() < input@.len(),
{
    proof {
        reveal(grammar::boolean);
    }
    match expect(input, "true") {
        Ok(rest) => Ok((rest, Node::Bool { value: true })),
        Err(_) => match expect(input, "false") {
            Ok(rest) => Ok((rest, Node::Bool { value: false })),
            Err(e) => Err(e),
        },
    }
}

/// A string: letters, digits and spaces, at least one, between double quotes.
pub fn string<'a>(input: &'a str) -> (res: ParseResult<'a>)
    ensures
        parsed_view(res) == grammar::string(input@),
        res matches Ok((rest, _)) ==> rest@.len() < input@.len(),
{
    proof {
        reveal(grammar::string);
    }
    let opened = match expect(input, "\"") {
        Ok(rest) => rest,
        Err(e) => {
            return Err(e);
        },
    };
    let (after_text, value) = text_run(opened);
    if value.as_str().is_empty() {
        return Err(ParseError { rule: Rule::Tag, rest: opened });
    }
    match expect(after_text, "\"") {
        Ok(rest) => Ok((rest, Node::String { value })),
        Err(e) => Err(e),
    }
}

/// The rest of `input` after one of the operators `first` and `second`, with that
/// operator.
fn operator<'a>(input: &'a str, first: &'static str, second: &'static str) -> (res: Result<
    (&'a str, &'static str),
    ParseError<'a>,
>)
    ensures
        text_view(res) == grammar::operator(input@, first@, second@),
{
    match expect(input, first) {
        Ok(rest) => Ok((rest, first)),
        Err(_) => match expect(input, second) {
            Ok(rest) => Ok((rest, second)),
            Err(e) => Err(e),
        },
    }
}

/// The rest of `input` after an operator of the level `level`, with that operator.
fn level_operator<'a>(input: &'a str, level: u8) -> (res: Result<
    (&'a str, &'static str),
    ParseError<'a>,
>)
    ensures
        text_view(res) == grammar::level_operator(input@, level as nat),
{
    if level == 1 {
        operator(input, "+", "-")
    } else if level == 2 {
        operator(input, "*", "/")
    } else {
        operator(input, "^", "^")
    }
}

/// The node of `head`, an operator and an operand, where `continuation` holds the last
/// two.
fn fold(head: Node, continuation: Node) -> (res: Node)
    ensures
        res@ == grammar::fold(head@, continuation@),
{
    match continuation {
        Node::MathExpression { operator, operands } => {
            let mut operands = operands;
            let ghost right = view_all(operands@);
            operands.insert(0, head);
            assert(view_all(operands@) =~= seq![head@] + right);
            Node::MathExpression { operator, operands }
        },
        _ => head,
    }
}

/// A function call: a name, and between parentheses nothing or a list of arguments.
pub fn function_call<'a>(input: &'a str) -> (res: ParseResult<'a>)
    ensures
        parsed_view(res) == grammar::function_call(input@),
        res matches Ok((rest, _)) ==> rest@.len() < input@.len(),
    decreases input@.len(), 0nat,
{
    let (after_name, name) = match word(input) {
        Ok(found) => found,
        Err(e) => {
            return Err(e);
        },
    };
    let opened = match expect(after_name, "(") {
        Ok(rest) => rest,
        Err(e) => {
            return Err(e);
        },
    };
    let (after_list, list) = match optional_arguments(opened) {
        Ok(found) => found,
        Err(e) => {
            return Err(e);
        },
    };
    match expect(after_list, ")") {
        Ok(rest) => Ok(
            (rest, Node::FunctionCall { name: String::from_str(name), arguments: list }),
        ),
        Err(e) => Err(e),
    }
}

/// A list of arguments, or nothing where no list starts at `input`.
fn optional_arguments<'a>(input: &'a str) -> (res: ParseList<'a>)
    ensures
        list_view(res) == grammar::optional_arguments(input@),
        res matches Ok((rest, _)) ==> rest@.len() <= input@.len(),
    decreases input@.len(), 31nat,
{
    match arguments(input) {
        Ok((rest, Node::FunctionArguments { children })) => Ok((rest, children)),
        Ok((rest, _)) => {
            let none: Vec<Node> = Vec::new();
            assert(view_all(none@) =~= Seq::empty());
            Ok((rest, none))
        },
        Err(e) => if is_fatal(&e) {
            Err(e)
        } else {
            let none: Vec<Node> = Vec::new();
            assert(view_all(none@) =~= Seq::empty());
            Ok((input, none))
        },
    }
}

/// A list of arguments: expressions separated by commas.
pub fn arguments<'a>(input: &'a str) -> (res: ParseResult<'a>)
    ensures
        parsed_view(res) == grammar::arguments(input@),
        res matches Ok((rest, _)) ==> rest@.len() < input@.len(),
    decreases input@.len(), 30nat,
{
    let (after_first, first) = match expression(input) {
        Ok(found) => found,
        Err(e) => {
            return Err(e);
        },
    };
    match many0(Repeated::OtherArgument, after_first) {
        Ok((rest, others)) => {
            let mut children = others;
            let ghost tail = view_all(children@);
            children.insert(0, first);
            assert(view_all(children@) =~= seq![first@] + tail);
            Ok((rest, Node::FunctionArguments { children }))
        },
        Err(e) => Err(e),
    }
}

/// A comma and an expression.
pub fn other_arg<'a>(input: &'a str) -> (res: ParseResult<'a>)
    ensures
        parsed_view(res) == grammar::other_arg(input@),
        res matches Ok((rest, _)) ==> rest@.len() < input@.len(),
    decreases input@.len(), 0nat,
{
    match expect(input, ",") {
        Ok(rest) => expression(rest),
        Err(e) => Err(e),
    }
}

/// An arithmetic expression between parentheses, with spaces around each of them.
pub fn parenthetical_expression<'a>(input: &'a str) -> (res: ParseResult<'a>)
    ensures
        parsed_view(res) == grammar::parenthetical_expression(input@),
        res matches Ok((rest, _)) ==> rest@.len() < input@.len(),
    decreases input@.len(), 0nat,
{
    let opened = match expect(skip_class(input, Class::Space), "(") {
        Ok(rest) => rest,
        Err(e) => {
            return Err(e);
        },
    };
    let (after_inner, inner) = match climb(skip_class(opened, Class::Space), 1) {
        Ok(found) => found,
        Err(e) => {
            return Err(e);
        },
    };
    match expect(skip_class(after_inner, Class::Space), ")") {
        Ok(closed) => Ok((skip_class(closed, Class::Space), inner)),
        Err(e) => Err(e),
    }
}

/// An operand of arithmetic: a call, a number, an identifier or an expression between
/// parentheses.
pub fn l4<'a>(input: &'a str) -> (res: ParseResult<'a>)
    ensures
        parsed_view(res) == grammar::l4(input@),
        res matches Ok((rest, _)) ==> rest@.len() < input@.len(),
    decreases input@.len(), 1nat,
{
    match function_call(input) {
        Ok(found) => {
            return Ok(found);
        },
        Err(e) => if is_fatal(&e) {
            return Err(e);
        },
    }
    match number(input) {
        Ok(found) => {
            return Ok(found);
        },
        Err(e) => if is_fatal(&e) {
            return Err(e);
        },
    }
    match identifier(input) {
        Ok(found) => {
            return Ok(found);
        },
        Err(e) => if is_fatal(&e) {
            return Err(e);
        },
    }
    parenthetical_expression(input)
}

/// An operand of the level `level`.
fn operand<'a>(input: &'a str, level: u8) -> (res: ParseResult<'a>)
    requires
        1 <= level <= 3,
    ensures
        parsed_view(res) == grammar::operand(input@, level as nat),
        res matches Ok((rest, _)) ==> rest@.len() < input@.len(),
    decreases input@.len(), 2 * (4 - level) + 2,
{
    if level < 3 {
        climb(input, level + 1)
    } else {
        l4(input)
    }
}

/// An arithmetic expression of the level `level`: an operand, and the continuations of
/// that level that follow it, each folded into the node to its left.
fn climb<'a>(input: &'a str, level: u8) -> (res: ParseResult<'a>)
    requires
        1 <= level <= 3,
    ensures
        parsed_view(res) == grammar::climb(input@, level as nat),
        res matches Ok((rest, _)) ==> rest@.len() < input@.len(),
    decreases input@.len(), 2 * (4 - level) + 3,
{
    let (after_head, first) = match operand(input, level) {
        Ok(found) => found,
        Err(e) => {
            return Err(e);
        },
    };
    let ghost start = after_head@;
    let ghost first_view = first@;
    let mut current = after_head;
    let mut head = first;
    loop
        invariant
            1 <= level <= 3,
            current@.len() <= start.len(),
            start.len() < input@.len(),
            grammar::climb(input@, level as nat) == grammar::continuations(
                start,
                level as nat,
                first_view,
            ),
            grammar::continuations(start, level as nat, first_view) == grammar::continuations(
                current@,
                level as nat,
                head@,
            ),
        decreases current@.len(),
    {
        match infix(current, level) {
            Ok((rest, continuation)) => {
                head = fold(head, continuation);
                current = rest;
            },
            Err(e) => {
                if is_fatal(&e) {
                    return Err(e);
                }
                return Ok((current, head));
            },
        }
    }
}

/// A continuation of the level `level`: an operator of the level with spaces around it,
/// and an operand of the level.
fn infix<'a>(input: &'a str, level: u8) -> (res: ParseResult<'a>)
    requires
        1 <= level <= 3,
    ensures
        parsed_view(res) == grammar::infix(input@, level as nat),
        res matches Ok((rest, _)) ==> rest@.len() < input@.len(),
    decreases input@.len(), 0nat,
{
    let (after_operator, symbol) = match level_operator(skip_class(input, Class::Space), level) {
        Ok(found) => found,
        Err(e) => {
            return Err(e);
        },
    };
    match operand(skip_class(after_operator, Class::Space), level) {
        Ok((rest, right)) => {
            let mut operands: Vec<Node> = Vec::new();
            operands.push(right);
            assert(view_all(operands@) =~= seq![right@]);
            Ok((rest, Node::MathExpression { operator: String::from_str(symbol), operands }))
        },
        Err(e) => Err(e),
    }
}

/// A continuation with `^`.
pub fn l3_infix<'a>(input: &'a str) -> (res: ParseResult<'a>)
    ensures
        parsed_view(res) == grammar::infix(input@, 3),
        res matches Ok((rest, _)) ==> rest@.len() < input@.len(),
{
    infix(input, 3)
}

/// Arithmetic with `^`, and what binds more tightly.
pub fn l3<'a>(input: &'a str) -> (res: ParseResult<'a>)
    ensures
        parsed_view(res) == grammar::climb(input@, 3),
        res matches Ok((rest, _)) ==> rest@.len() < input@.len(),
{
    climb(input, 3)
}

/// A continuation with `*` or `/`.
pub fn l2_infix<'a>(input: &'a str) -> (res: ParseResult<'a>)
    ensures
        parsed_view(res) == grammar::infix(input@, 2),
        res matches Ok((rest, _)) ==> rest@.len() < input@.len(),
{
    infix(input, 2)
}

/// Arithmetic with `*` and `/`, and what binds more tightly.
pub fn l2<'a>(input: &'a str) -> (res: ParseResult<'a>)
    ensures
        parsed_view(res) == grammar::climb(input@, 2),
        res matches Ok((rest, _)) ==> rest@.len() < input@.len(),
{
    climb(input, 2)
}

/// A continuation with `+` or `-`.
pub fn l1_infix<'a>(input: &'a str) -> (res: ParseResult<'a>)
    ensures
        parsed_view(res) == grammar::infix(input@, 1),
        res matches Ok((rest, _)) ==> rest@.len() < input@.len(),
{
    infix(input, 1)
}

/// Arithmetic with `+` and `-`, and what binds more tightly.
pub fn l1<'a>(input: &'a str) -> (res: ParseResult<'a>)
    ensures
        parsed_view(res) == grammar::climb(input@, 1),
        res matches Ok((rest, _)) ==> rest@.len() < input@.len(),
{
    climb(input, 1)
}

/// An arithmetic expression.
pub fn math_expression<'a>(input: &'a str) -> (res: ParseResult<'a>)
    ensures
        parsed_view(res) == grammar::climb(input@, 1),
        res matches Ok((rest, _)) ==> rest@.len() < input@.len(),
{
    climb(input, 1)
}

/// One side of an equality test: a boolean or an arithmetic expression.
fn side<'a>(input: &'a str) -> (res: ParseResult<'a>)
    ensures
        parsed_view(res) == grammar::side(input@),
        res matches Ok((rest, _)) ==> rest@.len() < input@.len(),
    decreases input@.len(), 10nat,
{
    match boolean(input) {
        Ok(found) => Ok(found),
        Err(e) => if is_fatal(&e) {
            Err(e)
        } else {
            climb(input, 1)
        },
    }
}

/// An equality test: two sides around `==`.
pub fn equality_math<'a>(input: &'a str) -> (res: ParseResult<'a>)
    ensures
        parsed_view(res) == grammar::equality_math(input@),
        res matches Ok((rest, _)) ==> rest@.len() < input@.len(),
    decreases input@.len(), 11nat,
{
    match side(input) {
        Ok((after_left, left)) => equal_to(after_left, left),
        Err(e) => Err(e),
    }
}

/// The equality test of `left` with what follows `==` at the start of `input`.
fn equal_to<'a>(input: &'a str, left: Node) -> (res: ParseResult<'a>)
    ensures
        parsed_view(res) == grammar::equal_to(input@, left@),
        res matches Ok((rest, _)) ==> rest@.len() < input@.len(),
    decreases input@.len(), 11nat,
{
    let after_sign = match expect(skip_class(input, Class::Space), "==") {
        Ok(rest) => rest,
        Err(e) => {
            return Err(e);
        },
    };
    match side(skip_class(after_sign, Class::Space)) {
        Ok((rest, right)) => Ok(
            (rest, Node::TestEquality { lhs: Box::new(left), rhs: Box::new(right) }),
        ),
        Err(e) => Err(e),
    }
}

/// A condition between parentheses, with spaces around each of them.
pub fn parenthetical_condition<'a>(input: &'a str) -> (res: ParseResult<'a>)
    ensures
        parsed_view(res) == grammar::parenthetical_condition(input@),
        res matches Ok((rest, _)) ==> rest@.len() < input@.len(),
    decreases input@.len(), 0nat,
{
    let opened = match expect(skip_class(input, Class::Space), "(") {
        Ok(rest) => rest,
        Err(e) => {
            return Err(e);
        },
    };
    let (after_inner, inner) = match condition(skip_class(opened, Class::Space)) {
        Ok(found) => found,
        Err(e) => {
            return Err(e);
        },
    };
    match expect(skip_class(after_inner, Class::Space), ")") {
        Ok(closed) => Ok((skip_class(closed, Class::Space), inner)),
        Err(e) => Err(e),
    }
}

/// What a condition starts with: a condition between parentheses, an equality test, a
/// boolean or a call.
fn first_condition<'a>(input: &'a str) -> (res: ParseResult<'a>)
    ensures
        parsed_view(res) == grammar::first_condition(input@),
        res matches Ok((rest, _)) ==> rest@.len() < input@.len(),
    decreases input@.len(), 12nat,
{
    match parenthetical_condition(input) {
        Ok(found) => {
            return Ok(found);
        },
        Err(e) => if is_fatal(&e) {
            return Err(e);
        },
    }
    match equality_math(input) {
        Ok(found) => {
            return Ok(found);
        },
        Err(e) => if is_fatal(&e) {
            return Err(e);
        },
    }
    match boolean(input) {
        Ok(found) => {
            return Ok(found);
        },
        Err(e) => if is_fatal(&e) {
            return Err(e);
        },
    }
    function_call(input)
}

/// A condition: a first condition, and the combined conditions that follow it. The node
/// keeps the first condition only.
pub fn condition<'a>(input: &'a str) -> (res: ParseResult<'a>)
    ensures
        parsed_view(res) == grammar::condition(input@),
        res matches Ok((rest, _)) ==> rest@.len() < input@.len(),
    decreases input@.len(), 13nat,
{
    let (after_first, first) = match first_condition(input) {
        Ok(found) => found,
        Err(e) => {
            return Err(e);
        },
    };
    match many0(Repeated::ConditionEnd, after_first) {
        Ok((rest, _)) => {
            let mut conditions: Vec<Node> = Vec::new();
            conditions.push(first);
            assert(view_all(conditions@) =~= seq![first@]);
            Ok((rest, Node::Condition { conditions }))
        },
        Err(e) => Err(e),
    }
}

/// The rest of `input` after one of the combinators `&&`, `&`, `||` and `|`, with that
/// combinator.
fn combinator<'a>(input: &'a str) -> (res: Result<(&'a str, &'static str), ParseError<'a>>)
    ensures
        text_view(res) == grammar::combinator(input@),
{
    match operator(input, "&&", "&") {
        Ok(found) => Ok(found),
        Err(_) => operator(input, "||", "|"),
    }
}

/// A combined condition: a combinator with spaces around it, and a condition.
pub fn condition_end<'a>(input: &'a str) -> (res: ParseResult<'a>)
    ensures
        parsed_view(res) == grammar::condition_end(input@),
        res matches Ok((rest, _)) ==> rest@.len() < input@.len(),
    decreases input@.len(), 0nat,
{
    let (after_combinator, symbol) = match combinator(skip_class(input, Class::Space)) {
        Ok(found) => found,
        Err(e) => {
            return Err(e);
        },
    };
    match condition(skip_class(after_combinator, Class::Space)) {
        Ok((rest, right)) => Ok(
            (
                rest,
                Node::ConditionExpression {
                    operator: String::from_str(symbol),
                    rhs: Box::new(right),
                },
            ),
        ),
        Err(e) => Err(e),
    }
}

/// What a statement or an expression wraps; a copy of any other node.
fn unwrapped(node: &Node) -> (res: Node)
    ensures
        res@ == grammar::unwrapped(node@),
{
    match node {
        Node::Expression { inner } => (&**inner).clone(),
        Node::Statement { inner } => (&**inner).clone(),
        _ => node.clone(),
    }
}

/// The conditions that a conditional keeps of the condition `node`.
fn conditions_of(node: Node) -> (res: Vec<Node>)
    ensures
        view_all(res@) == grammar::conditions_of(node@),
{
    match node {
        Node::Condition { conditions } => conditions,
        other => {
            let mut conditions: Vec<Node> = Vec::new();
            let ghost kept = other@;
            conditions.push(other);
            assert(view_all(conditions@) =~= seq![kept]);
            conditions
        },
    }
}

/// A conditional: `if`, a condition, and between braces one or more statements and
/// expressions. The node keeps the first of them only, without its wrapper.
pub fn if_stmt<'a>(input: &'a str) -> (res: ParseResult<'a>)
    ensures
        parsed_view(res) == grammar::if_stmt(input@),
        res matches Ok((rest, _)) ==> rest@.len() < input@.len(),
    decreases input@.len(), 0nat,
{
    let after_if = match expect(skip_class(input, Class::Blank), "if ") {
        Ok(rest) => rest,
        Err(e) => {
            return Err(e);
        },
    };
    let (after_condition, tested) = match condition(skip_class(after_if, Class::Space)) {
        Ok(found) => found,
        Err(e) => {
            return Err(e);
        },
    };
    let opened = match expect(skip_class(after_condition, Class::Space), "{") {
        Ok(rest) => rest,
        Err(e) => {
            return Err(e);
        },
    };
    let (after_items, items) = match many1(Repeated::BranchItem, skip_class(opened, Class::Blank)) {
        Ok(found) => found,
        Err(e) => {
            return Err(e);
        },
    };
    assert(view_all(items@)[0] == items[0]@);
    match expect(skip_class(after_items, Class::Blank), "}") {
        Ok(closed) => Ok(
            (
                skip_class(closed, Class::Blank),
                Node::If {
                    condition: conditions_of(tested),
                    then_branch: Box::new(unwrapped(&items[0])),
                },
            ),
        ),
        Err(e) => Err(e),
    }
}

/// What an expression wraps: a boolean, a conditional, arithmetic, a call, a number, a
/// string or an identifier, the first of these that matches.
fn expression_form<'a>(input: &'a str) -> (res: ParseResult<'a>)
    ensures
        parsed_view(res) == grammar::expression_form(input@),
        res matches Ok((rest, _)) ==> rest@.len() < input@.len(),
    decreases input@.len(), 14nat,
{
    match boolean(input) {
        Ok(found) => {
            return Ok(found);
        },
        Err(e) => if is_fatal(&e) {
            return Err(e);
        },
    }
    match if_stmt(input) {
        Ok(found) => {
            return Ok(found);
        },
        Err(e) => if is_fatal(&e) {
            return Err(e);
        },
    }
    match climb(input, 1) {
        Ok(found) => {
            return Ok(found);
        },
        Err(e) => if is_fatal(&e) {
            return Err(e);
        },
    }
    match function_call(input) {
        Ok(found) => {
            return Ok(found);
        },
        Err(e) => if is_fatal(&e) {
            return Err(e);
        },
    }
    match number(input) {
        Ok(found) => {
            return Ok(found);
        },
        Err(e) => if is_fatal(&e) {
            return Err(e);
        },
    }
    match string(input) {
        Ok(found) => {
            return Ok(found);
        },
        Err(e) => if is_fatal(&e) {
            return Err(e);
        },
    }
    identifier(input)
}

/// An expression.
pub fn expression<'a>(input: &'a str) -> (res: ParseResult<'a>)
    ensures
        parsed_view(res) == grammar::expression(input@),
        res matches Ok((rest, _)) ==> rest@.len() < input@.len(),
    decreases input@.len(), 15nat,
{
    match expression_form(input) {
        Ok((rest, inner)) => Ok((rest, Node::Expression { inner: Box::new(inner) })),
        Err(e) => Err(e),
    }
}

/// What a return hands back: a call, an expression or an identifier, the first of these
/// that matches.
fn returned<'a>(input: &'a str) -> (res: ParseResult<'a>)
    ensures
        parsed_view(res) == grammar::returned(input@),
        res matches Ok((rest, _)) ==> rest@.len() < input@.len(),
    decreases input@.len(), 16nat,
{
    match function_call(input) {
        Ok(found) => {
            return Ok(found);
        },
        Err(e) => if is_fatal(&e) {
            return Err(e);
        },
    }
    match expression(input) {
        Ok(found) => {
            return Ok(found);
        },
        Err(e) => if is_fatal(&e) {
            return Err(e);
        },
    }
    identifier(input)
}

/// A return: `return` and what it hands back.
pub fn function_return<'a>(input: &'a str) -> (res: ParseResult<'a>)
    ensures
        parsed_view(res) == grammar::function_return(input@),
        res matches Ok((rest, _)) ==> rest@.len() < input@.len(),
    decreases input@.len(), 17nat,
{
    let after_keyword = match expect(input, "return ") {
        Ok(rest) => rest,
        Err(e) => {
            return Err(e);
        },
    };
    match returned(after_keyword) {
        Ok((rest, value)) => Ok((rest, Node::FunctionReturn { expression: Box::new(value) })),
        Err(e) => Err(e),
    }
}

/// A variable definition: `let`, a name, `=` with spaces around it, and an expression.
pub fn variable_define<'a>(input: &'a str) -> (res: ParseResult<'a>)
    ensures
        parsed_view(res) == grammar::variable_define(input@),
        res matches Ok((rest, _)) ==> rest@.len() < input@.len(),
    decreases input@.len(), 17nat,
{
    let after_keyword = match expect(input, "let ") {
        Ok(rest) => rest,
        Err(e) => {
            return Err(e);
        },
    };
    let (after_name, name) = match word(after_keyword) {
        Ok(found) => found,
        Err(e) => {
            return Err(e);
        },
    };
    let after_sign = match expect(skip_class(after_name, Class::Space), "=") {
        Ok(rest) => rest,
        Err(e) => {
            return Err(e);
        },
    };
    match expression(skip_class(after_sign, Class::Space)) {
        Ok((rest, value)) => Ok(
            (
                rest,
                Node::VariableDefine { name: String::from_str(name), expression: Box::new(value) },
            ),
        ),
        Err(e) => Err(e),
    }
}

/// What a statement wraps: a variable definition or a return.
fn statement_form<'a>(input: &'a str) -> (res: ParseResult<'a>)
    ensures
        parsed_view(res) == grammar::statement_form(input@),
        res matches Ok((rest, _)) ==> rest@.len() < input@.len(),
    decreases input@.len(), 18nat,
{
    match variable_define(input) {
        Ok(found) => Ok(found),
        Err(e) => if is_fatal(&e) {
            Err(e)
        } else {
            function_return(input)
        },
    }
}

/// A statement: blanks, a definition or a return, `;`, spaces and then line feeds.
pub fn statement<'a>(input: &'a str) -> (res: ParseResult<'a>)
    ensures
        parsed_view(res) == grammar::statement(input@),
        res matches Ok((rest, _)) ==> rest@.len() < input@.len(),
    decreases input@.len(), 19nat,
{
    let (after_inner, inner) = match statement_form(skip_class(input, Class::Blank)) {
        Ok(found) => found,
        Err(e) => {
            return Err(e);
        },
    };
    match expect(after_inner, ";") {
        Ok(after_semicolon) => Ok(
            (
                skip_class(skip_class(after_semicolon, Class::Space), Class::Newline),
                Node::Statement { inner: Box::new(inner) },
            ),
        ),
        Err(e) => Err(e),
    }
}

/// A function definition: `fn`, a name, the parameters between parentheses, and between
/// braces one or more statements and conditionals.
pub fn function_definition<'a>(input: &'a str) -> (res: ParseResult<'a>)
    ensures
        parsed_view(res) == grammar::function_definition(input@),
        res matches Ok((rest, _)) ==> rest@.len() < input@.len(),
    decreases input@.len(), 24nat,
{
    let after_keyword = match expect(input, "fn ") {
        Ok(rest) => rest,
        Err(e) => {
            return Err(e);
        },
    };
    let (after_name, name) = match word(after_keyword) {
        Ok(found) => found,
        Err(e) => {
            return Err(e);
        },
    };
    let opened = match expect(after_name, "(") {
        Ok(rest) => rest,
        Err(e) => {
            return Err(e);
        },
    };
    let (after_list, parameters) = match optional_arguments(opened) {
        Ok(found) => found,
        Err(e) => {
            return Err(e);
        },
    };
    let closed = match expect(after_list, ")") {
        Ok(rest) => rest,
        Err(e) => {
            return Err(e);
        },
    };
    let in_body = match expect(skip_class(closed, Class::Space), "{") {
        Ok(rest) => rest,
        Err(e) => {
            return Err(e);
        },
    };
    let (after_body, body) = match many1(Repeated::BodyItem, skip_class(in_body, Class::Newline)) {
        Ok(found) => found,
        Err(e) => {
            return Err(e);
        },
    };
    match expect(after_body, "}") {
        Ok(rest) => Ok(
            (
                skip_class(rest, Class::SpaceOrNewline),
                Node::FunctionDefine { name: String::from_str(name), parameters, body },
            ),
        ),
        Err(e) => Err(e),
    }
}

/// One item of the repeated rule `kind`: the first of its alternatives that matches.
fn item<'a>(kind: Repeated, input: &'a str) -> (res: ParseResult<'a>)
    ensures
        parsed_view(res) == grammar::item(kind, input@),
        res matches Ok((rest, _)) ==> rest@.len() < input@.len(),
    decreases input@.len(), 40nat,
{
    match kind {
        Repeated::OtherArgument => other_arg(input),
        Repeated::ConditionEnd => condition_end(input),
        Repeated::BranchItem => match statement(input) {
            Ok(found) => Ok(found),
            Err(e) => if is_fatal(&e) {
                Err(e)
            } else {
                expression(input)
            },
        },
        Repeated::BodyItem => match statement(input) {
            Ok(found) => Ok(found),
            Err(e) => if is_fatal(&e) {
                Err(e)
            } else {
                if_stmt(input)
            },
        },
        Repeated::ProgramItem => {
            match function_definition(input) {
                Ok(found) => {
                    return Ok(found);
                },
                Err(e) => if is_fatal(&e) {
                    return Err(e);
                },
            }
            match statement(input) {
                Ok(found) => {
                    return Ok(found);
                },
                Err(e) => if is_fatal(&e) {
                    return Err(e);
                },
            }
            expression(input)
        },
    }
}

/// The list `list` after the nodes `front`.
pub open spec fn after(front: Seq<Ast>, list: grammar::ParsedList) -> grammar::ParsedList {
    match list {
        Ok((rest, others)) => Ok((rest, front + others)),
        Err(failure) => Err(failure),
    }
}

/// As many items of the rule `kind` as follow one another at the start of `input`.
fn many0<'a>(kind: Repeated, input: &'a str) -> (res: ParseList<'a>)
    ensures
        list_view(res) == grammar::many0(kind, input@),
        res matches Ok((rest, _)) ==> rest@.len() <= input@.len(),
    decreases input@.len(), 41nat,
{
    let mut nodes: Vec<Node> = Vec::new();
    let mut current = input;
    assert(view_all(nodes@) =~= Seq::empty());
    assert(after(Seq::empty(), grammar::many0(kind, input@)) == grammar::many0(kind, input@)) by {
        match grammar::many0(kind, input@) {
            Ok((rest, others)) => {
                assert(Seq::<Ast>::empty() + others =~= others);
            },
            Err(_) => {},
        }
    }
    loop
        invariant
            current@.len() <= input@.len(),
            grammar::many0(kind, input@) == after(view_all(nodes@), grammar::many0(kind, current@)),
        decreases current@.len(),
    {
        let ghost front = view_all(nodes@);
        match item(kind, current) {
            Ok((rest, node)) => {
                proof {
                    let tail = grammar::many0(kind, rest@);
                    assert(grammar::many0(kind, current@) == grammar::cons(node@, tail));
                    match tail {
                        Ok((last, others)) => {
                            assert(front + (seq![node@] + others) =~= front.push(node@) + others);
                        },
                        Err(_) => {},
                    }
                }
                nodes.push(node);
                assert(view_all(nodes@) =~= front.push(node@));
                current = rest;
            },
            Err(e) => {
                if is_fatal(&e) {
                    return Err(e);
                }
                assert(front + Seq::<Ast>::empty() =~= front);
                return Ok((current, nodes));
            },
        }
    }
}

/// One or more items of the rule `kind`.
fn many1<'a>(kind: Repeated, input: &'a str) -> (res: ParseList<'a>)
    ensures
        list_view(res) == grammar::many1(kind, input@),
        res matches Ok((rest, _)) ==> rest@.len() < input@.len(),
        res matches Ok((_, nodes)) ==> nodes.len() > 0,
    decreases input@.len(), 42nat,
{
    let (after_first, first) = match item(kind, input) {
        Ok(found) => found,
        Err(e) => {
            return Err(e);
        },
    };
    match many0(kind, after_first) {
        Ok((rest, others)) => {
            let mut nodes = others;
            let ghost tail = view_all(nodes@);
            nodes.insert(0, first);
            assert(view_all(nodes@) =~= seq![first@] + tail);
            Ok((rest, nodes))
        },
        Err(e) => Err(e),
    }
}

/// A program: one or more function definitions, statements and expressions.
pub fn program<'a>(input: &'a str) -> (res: ParseResult<'a>)
    ensures
        parsed_view(res) == grammar::program(input@),
        res matches Ok((rest, _)) ==> rest@.len() < input@.len(),
{
    match many1(Repeated::ProgramItem, input) {
        Ok((rest, children)) => Ok((rest, Node::Program { children })),
        Err(e) => Err(e),
    }
}

} // verus!

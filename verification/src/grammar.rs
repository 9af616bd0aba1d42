//! The grammar, as mathematical functions from an input to what a rule reads from it.
//!
//! A rule applied to an input either matches a prefix of it, and yields the rest of the
//! input with the tree it built, or fails. Alternatives are tried in order, and the first
//! that matches wins; where none matches, the failure is that of the last one. A malformed
//! number ends the whole parse: no alternative is tried after it.
//!
//! No rule matches without reading at least one character. Where one rule follows another
//! the definitions test that with [`consuming`], which lets them be defined by recursion on
//! the length of the input; the module `progress` shows that the test never fails.
use crate::ast::Ast;
use crate::text::{leading, numeral, radix, skip, span, Class};
use vstd::prelude::*;

verus! {

/// The step at which a rule failed.
#[derive(Debug, PartialEq, Eq, Clone, Copy, Structural)]
pub enum Rule {
    /// A fixed text was expected.
    Tag,
    /// A letter or a digit was expected.
    Alphanumeric,
    /// A literal has a base prefix and no digits after it.
    MissingDigits,
    /// A literal is larger than any 32-bit signed integer.
    NumberTooLarge,
    /// A rule matched without reading anything. No rule of this grammar does.
    Stalled,
}

/// A failed match: the step that failed, and the input that was left at that point.
pub ghost struct Failure {
    pub rule: Rule,
    pub rest: Seq<char>,
}

/// What a rule yields: the rest of the input with a tree, or a failure.
pub type Parsed = Result<(Seq<char>, Ast), Failure>;

/// What a repeated rule yields: the rest of the input with the trees in order.
pub type ParsedList = Result<(Seq<char>, Seq<Ast>), Failure>;

/// Whether a failure ends the whole parse: no alternative is tried after a malformed
/// literal.
pub open spec fn fatal(failure: Failure) -> bool {
    failure.rule == Rule::MissingDigits || failure.rule == Rule::NumberTooLarge
}

/// The failure of `rule` at `rest`.
pub open spec fn failed(rule: Rule, rest: Seq<char>) -> Failure {
    Failure { rule, rest }
}

/// The result `p` of a rule applied to `s`, which must have read something.
pub open spec fn consuming(p: Parsed, s: Seq<char>) -> Parsed {
    match p {
        Ok((rest, _)) => if rest.len() < s.len() {
            p
        } else {
            Err(failed(Rule::Stalled, s))
        },
        Err(_) => p,
    }
}

/// The result `p` of a repeated rule applied to `s`, which cannot leave more than `s`.
pub open spec fn consuming_list(p: ParsedList, s: Seq<char>) -> ParsedList {
    match p {
        Ok((rest, _)) => if rest.len() <= s.len() {
            p
        } else {
            Err(failed(Rule::Stalled, s))
        },
        Err(_) => p,
    }
}

/// The first of two alternatives that matches; the failure of the second where neither
/// does, unless the first failed fatally.
pub open spec fn either(first: Parsed, second: Parsed) -> Parsed {
    match first {
        Ok(_) => first,
        Err(failure) => if fatal(failure) {
            first
        } else {
            second
        },
    }
}

/// The rest of `s` after the text `text`, which is not empty.
pub open spec fn expect(s: Seq<char>, text: Seq<char>) -> Result<Seq<char>, Failure> {
    if text.len() > 0 && text.is_prefix_of(s) {
        Ok(s.skip(text.len() as int))
    } else {
        Err(failed(Rule::Tag, s))
    }
}

/// The letters and digits that `s` starts with, at least one, and the rest of `s`.
pub open spec fn word(s: Seq<char>) -> Result<(Seq<char>, Seq<char>), Failure> {
    if leading(s, Class::Alphanumeric) > 0 {
        Ok((skip(s, Class::Alphanumeric), span(s, Class::Alphanumeric)))
    } else {
        Err(failed(Rule::Alphanumeric, s))
    }
}

/// An identifier: one or more letters and digits.
pub open spec fn identifier(s: Seq<char>) -> Parsed {
    match word(s) {
        Ok((rest, name)) => Ok((rest, Ast::Identifier { name })),
        Err(failure) => Err(failure),
    }
}

/// The digits of `class` that `s` starts with, read as a number in the base of the class.
#[verifier::opaque]
pub open spec fn digits(s: Seq<char>, class: Class) -> Parsed {
    let value = numeral(span(s, class), radix(class));
    if leading(s, class) == 0 {
        Err(failed(Rule::MissingDigits, s))
    } else if value > i32::MAX {
        Err(failed(Rule::NumberTooLarge, s))
    } else {
        Ok((skip(s, class), Ast::Number { value: value as i32 }))
    }
}

/// A number in base `class`, after the prefix `0` and the letter `letter`.
#[verifier::opaque]
pub open spec fn prefixed(s: Seq<char>, letter: Seq<char>, class: Class) -> Parsed {
    match expect(s, "0"@) {
        Err(failure) => Err(failure),
        Ok(after_zero) => match expect(after_zero, letter) {
            Err(failure) => Err(failure),
            Ok(rest) => digits(rest, class),
        },
    }
}

/// A binary number: `0b` and binary digits.
#[verifier::opaque]
pub open spec fn binary(s: Seq<char>) -> Parsed {
    prefixed(s, "b"@, Class::Binary)
}

/// An octal number: `0o` and octal digits.
#[verifier::opaque]
pub open spec fn octal(s: Seq<char>) -> Parsed {
    prefixed(s, "o"@, Class::Octal)
}

/// The digit `0`.
#[verifier::opaque]
pub open spec fn integer0(s: Seq<char>) -> Parsed {
    match expect(s, "0"@) {
        Err(failure) => Err(failure),
        Ok(rest) => Ok((rest, Ast::Number { value: 0 })),
    }
}

/// A decimal number that starts with one of the digits `1` to `9`.
#[verifier::opaque]
pub open spec fn integer1(s: Seq<char>) -> Parsed {
    if s.len() > 0 && '1' <= s[0] <= '9' {
        digits(s, Class::Decimal)
    } else {
        Err(failed(Rule::Tag, s))
    }
}

/// A decimal number: `0`, or digits that do not start with `0`.
#[verifier::opaque]
pub open spec fn integer(s: Seq<char>) -> Parsed {
    either(integer0(s), integer1(s))
}

/// A number: binary, octal or decimal.
#[verifier::opaque]
pub open spec fn number(s: Seq<char>) -> Parsed {
    either(binary(s), either(octal(s), integer(s)))
}

/// A boolean: `true` or `false`.
#[verifier::opaque]
pub open spec fn boolean(s: Seq<char>) -> Parsed {
    match expect(s, "true"@) {
        Ok(rest) => Ok((rest, Ast::Bool { value: true })),
        Err(_) => match expect(s, "false"@) {
            Ok(rest) => Ok((rest, Ast::Bool { value: false })),
            Err(failure) => Err(failure),
        },
    }
}

/// A string: letters, digits and spaces, at least one, between double quotes.
#[verifier::opaque]
pub open spec fn string(s: Seq<char>) -> Parsed {
    match expect(s, "\""@) {
        Err(failure) => Err(failure),
        Ok(opened) => if leading(opened, Class::Text) == 0 {
            Err(failed(Rule::Tag, opened))
        } else {
            match expect(skip(opened, Class::Text), "\""@) {
                Err(failure) => Err(failure),
                Ok(rest) => Ok((rest, Ast::String { value: span(opened, Class::Text) })),
            }
        },
    }
}

/// The rest of `s` after one of the operators `first` and `second`, with that operator.
pub open spec fn operator(s: Seq<char>, first: Seq<char>, second: Seq<char>) -> Result<
    (Seq<char>, Seq<char>),
    Failure,
> {
    match expect(s, first) {
        Ok(rest) => Ok((rest, first)),
        Err(_) => match expect(s, second) {
            Ok(rest) => Ok((rest, second)),
            Err(failure) => Err(failure),
        },
    }
}

/// The rest of `s` after an operator of the level `level`, with that operator: `+ -` at
/// level 1, `* /` at level 2, `^` at level 3.
pub open spec fn level_operator(s: Seq<char>, level: nat) -> Result<
    (Seq<char>, Seq<char>),
    Failure,
> {
    if level == 1 {
        operator(s, "+"@, "-"@)
    } else if level == 2 {
        operator(s, "*"@, "/"@)
    } else {
        operator(s, "^"@, "^"@)
    }
}

/// The tree of `head`, an operator and an operand, where `continuation` holds the last two.
pub open spec fn fold(head: Ast, continuation: Ast) -> Ast {
    match continuation {
        Ast::MathExpression { operator, operands } => Ast::MathExpression {
            operator,
            operands: seq![head] + operands,
        },
        _ => head,
    }
}

/// A function call: a name, and between parentheses nothing or a list of arguments.
pub open spec fn function_call(s: Seq<char>) -> Parsed
    decreases s.len(), 0nat,
{
    match word(s) {
        Err(failure) => Err(failure),
        Ok((after_name, name)) => match expect(after_name, "("@) {
            Err(failure) => Err(failure),
            Ok(opened) => match optional_arguments(opened) {
                Err(failure) => Err(failure),
                Ok((after_list, list)) => match expect(after_list, ")"@) {
                    Err(failure) => Err(failure),
                    Ok(rest) => Ok((rest, Ast::FunctionCall { name, arguments: list })),
                },
            },
        },
    }
}

/// A list of arguments, or nothing: the expressions of the list, none where no list starts
/// at `s`.
pub open spec fn optional_arguments(s: Seq<char>) -> ParsedList
    decreases s.len(), 31nat,
{
    match arguments(s) {
        Ok((rest, Ast::FunctionArguments { children })) => Ok((rest, children)),
        Ok((rest, _)) => Ok((rest, Seq::empty())),
        Err(failure) => if fatal(failure) {
            Err(failure)
        } else {
            Ok((s, Seq::empty()))
        },
    }
}

/// A list of arguments: expressions separated by commas.
pub open spec fn arguments(s: Seq<char>) -> Parsed
    decreases s.len(), 30nat,
{
    match consuming(expression(s), s) {
        Err(failure) => Err(failure),
        Ok((after_first, first)) => match many0(Repeated::OtherArgument, after_first) {
            Err(failure) => Err(failure),
            Ok((rest, others)) => Ok(
                (rest, Ast::FunctionArguments { children: seq![first] + others }),
            ),
        },
    }
}

/// A comma and an expression.
pub open spec fn other_arg(s: Seq<char>) -> Parsed
    decreases s.len(), 0nat,
{
    match expect(s, ","@) {
        Err(failure) => Err(failure),
        Ok(rest) => expression(rest),
    }
}

/// An arithmetic expression between parentheses, with spaces around each of them.
pub open spec fn parenthetical_expression(s: Seq<char>) -> Parsed
    decreases s.len(), 0nat,
{
    match expect(skip(s, Class::Space), "("@) {
        Err(failure) => Err(failure),
        Ok(opened) => match climb(skip(opened, Class::Space), 1) {
            Err(failure) => Err(failure),
            Ok((after_inner, inner)) => match expect(skip(after_inner, Class::Space), ")"@) {
                Err(failure) => Err(failure),
                Ok(closed) => Ok((skip(closed, Class::Space), inner)),
            },
        },
    }
}

/// An operand of arithmetic: a call, a number, an identifier or an expression between
/// parentheses.
pub open spec fn l4(s: Seq<char>) -> Parsed
    decreases s.len(), 1nat,
{
    either(
        function_call(s),
        either(number(s), either(identifier(s), parenthetical_expression(s))),
    )
}

/// An operand of the level `level`: what binds more tightly than the operators of the
/// level.
pub open spec fn operand(s: Seq<char>, level: nat) -> Parsed
    decreases s.len(), 2 * (4 - level) + 2,
{
    if 1 <= level < 3 {
        climb(s, level + 1)
    } else if level == 3 {
        l4(s)
    } else {
        Err(failed(Rule::Stalled, s))
    }
}

/// An arithmetic expression of the level `level`: an operand, and as many continuations
/// of that level as follow, each folded into the tree to its left.
pub open spec fn climb(s: Seq<char>, level: nat) -> Parsed
    decreases s.len(), 2 * (4 - level) + 3,
{
    if 1 <= level <= 3 {
        match consuming(operand(s, level), s) {
            Err(failure) => Err(failure),
            Ok((rest, head)) => continuations(rest, level, head),
        }
    } else {
        Err(failed(Rule::Stalled, s))
    }
}

/// The tree of `head` and the continuations of the level `level` that `s` starts with.
pub open spec fn continuations(s: Seq<char>, level: nat, head: Ast) -> Parsed
    decreases s.len(), 1nat,
{
    if 1 <= level <= 3 {
        match consuming(infix(s, level), s) {
            Err(failure) => if fatal(failure) {
                Err(failure)
            } else {
                Ok((s, head))
            },
            Ok((rest, continuation)) => continuations(rest, level, fold(head, continuation)),
        }
    } else {
        Ok((s, head))
    }
}

/// A continuation of the level `level`: an operator of the level with spaces around it,
/// and an operand of the level.
pub open spec fn infix(s: Seq<char>, level: nat) -> Parsed
    decreases s.len(), 0nat,
{
    match level_operator(skip(s, Class::Space), level) {
        Err(failure) => Err(failure),
        Ok((after_operator, symbol)) => match operand(
            skip(after_operator, Class::Space),
            level,
        ) {
            Err(failure) => Err(failure),
            Ok((rest, right)) => Ok(
                (rest, Ast::MathExpression { operator: symbol, operands: seq![right] }),
            ),
        },
    }
}

/// One side of an equality test: a boolean or an arithmetic expression.
pub open spec fn side(s: Seq<char>) -> Parsed
    decreases s.len(), 10nat,
{
    either(boolean(s), climb(s, 1))
}

/// An equality test: two sides around `==`.
pub open spec fn equality_math(s: Seq<char>) -> Parsed
    decreases s.len(), 11nat,
{
    match consuming(side(s), s) {
        Err(failure) => Err(failure),
        Ok((after_left, left)) => equal_to(after_left, left),
    }
}

/// The equality test of `left` with what follows `==` at the start of `s`.
pub open spec fn equal_to(s: Seq<char>, left: Ast) -> Parsed
    decreases s.len(), 11nat,
{
    match expect(skip(s, Class::Space), "=="@) {
        Err(failure) => Err(failure),
        Ok(after_sign) => match side(skip(after_sign, Class::Space)) {
            Err(failure) => Err(failure),
            Ok((rest, right)) => Ok(
                (rest, Ast::TestEquality { lhs: Box::new(left), rhs: Box::new(right) }),
            ),
        },
    }
}

/// A condition between parentheses, with spaces around each of them.
pub open spec fn parenthetical_condition(s: Seq<char>) -> Parsed
    decreases s.len(), 0nat,
{
    match expect(skip(s, Class::Space), "("@) {
        Err(failure) => Err(failure),
        Ok(opened) => match condition(skip(opened, Class::Space)) {
            Err(failure) => Err(failure),
            Ok((after_inner, inner)) => match expect(skip(after_inner, Class::Space), ")"@) {
                Err(failure) => Err(failure),
                Ok(closed) => Ok((skip(closed, Class::Space), inner)),
            },
        },
    }
}

/// What a condition starts with: a condition between parentheses, an equality test, a
/// boolean or a call.
pub open spec fn first_condition(s: Seq<char>) -> Parsed
    decreases s.len(), 12nat,
{
    either(
        parenthetical_condition(s),
        either(equality_math(s), either(boolean(s), function_call(s))),
    )
}

/// A condition: a first condition, and as many combined conditions as follow. The tree
/// keeps the first condition only.
pub open spec fn condition(s: Seq<char>) -> Parsed
    decreases s.len(), 13nat,
{
    match consuming(first_condition(s), s) {
        Err(failure) => Err(failure),
        Ok((after_first, first)) => match many0(Repeated::ConditionEnd, after_first) {
            Err(failure) => Err(failure),
            Ok((rest, _)) => Ok((rest, Ast::Condition { conditions: seq![first] })),
        },
    }
}

/// The rest of `s` after one of the combinators `&&`, `&`, `||` and `|`, with that
/// combinator.
pub open spec fn combinator(s: Seq<char>) -> Result<(Seq<char>, Seq<char>), Failure> {
    match operator(s, "&&"@, "&"@) {
        Ok(found) => Ok(found),
        Err(_) => operator(s, "||"@, "|"@),
    }
}

/// A combined condition: a combinator with spaces around it, and a condition.
pub open spec fn condition_end(s: Seq<char>) -> Parsed
    decreases s.len(), 0nat,
{
    match combinator(skip(s, Class::Space)) {
        Err(failure) => Err(failure),
        Ok((after_combinator, symbol)) => match condition(skip(after_combinator, Class::Space)) {
            Err(failure) => Err(failure),
            Ok((rest, right)) => Ok(
                (rest, Ast::ConditionExpression { operator: symbol, rhs: Box::new(right) }),
            ),
        },
    }
}

/// What a statement or an expression wraps; any other node itself.
pub open spec fn unwrapped(node: Ast) -> Ast {
    match node {
        Ast::Expression { inner } => *inner,
        Ast::Statement { inner } => *inner,
        _ => node,
    }
}

/// The conditions that a conditional keeps of the condition `node`.
pub open spec fn conditions_of(node: Ast) -> Seq<Ast> {
    match node {
        Ast::Condition { conditions } => conditions,
        _ => seq![node],
    }
}

/// A conditional: `if`, a condition, and between braces one or more statements and
/// expressions. The tree keeps the first of them only, without its wrapper.
pub open spec fn if_stmt(s: Seq<char>) -> Parsed
    decreases s.len(), 0nat,
{
    match expect(skip(s, Class::Blank), "if "@) {
        Err(failure) => Err(failure),
        Ok(after_if) => match consuming(condition(skip(after_if, Class::Space)), after_if) {
            Err(failure) => Err(failure),
            Ok((after_condition, tested)) => match expect(
                skip(after_condition, Class::Space),
                "{"@,
            ) {
                Err(failure) => Err(failure),
                Ok(opened) => match many1(Repeated::BranchItem, skip(opened, Class::Blank)) {
                    Err(failure) => Err(failure),
                    Ok((after_items, items)) => match expect(
                        skip(after_items, Class::Blank),
                        "}"@,
                    ) {
                        Err(failure) => Err(failure),
                        Ok(closed) => Ok(
                            (
                                skip(closed, Class::Blank),
                                Ast::If {
                                    condition: conditions_of(tested),
                                    then_branch: Box::new(unwrapped(items[0])),
                                },
                            ),
                        ),
                    },
                },
            },
        },
    }
}

/// What an expression wraps: a boolean, a conditional, arithmetic, a call, a number, a
/// string or an identifier, the first of these that matches.
pub open spec fn expression_form(s: Seq<char>) -> Parsed
    decreases s.len(), 14nat,
{
    either(
        boolean(s),
        either(
            if_stmt(s),
            either(
                climb(s, 1),
                either(function_call(s), either(number(s), either(string(s), identifier(s)))),
            ),
        ),
    )
}

/// An expression.
pub open spec fn expression(s: Seq<char>) -> Parsed
    decreases s.len(), 15nat,
{
    match expression_form(s) {
        Err(failure) => Err(failure),
        Ok((rest, inner)) => Ok((rest, Ast::Expression { inner: Box::new(inner) })),
    }
}

/// What a return hands back: a call, an expression or an identifier, the first of these
/// that matches.
pub open spec fn returned(s: Seq<char>) -> Parsed
    decreases s.len(), 16nat,
{
    either(function_call(s), either(expression(s), identifier(s)))
}

/// A return: `return` and what it hands back.
pub open spec fn function_return(s: Seq<char>) -> Parsed
    decreases s.len(), 17nat,
{
    match expect(s, "return "@) {
        Err(failure) => Err(failure),
        Ok(after_keyword) => match returned(after_keyword) {
            Err(failure) => Err(failure),
            Ok((rest, value)) => Ok(
                (rest, Ast::FunctionReturn { expression: Box::new(value) }),
            ),
        },
    }
}

/// A variable definition: `let`, a name, `=` with spaces around it, and an expression.
pub open spec fn variable_define(s: Seq<char>) -> Parsed
    decreases s.len(), 17nat,
{
    match expect(s, "let "@) {
        Err(failure) => Err(failure),
        Ok(after_keyword) => match word(after_keyword) {
            Err(failure) => Err(failure),
            Ok((after_name, name)) => match expect(skip(after_name, Class::Space), "="@) {
                Err(failure) => Err(failure),
                Ok(after_sign) => match expression(skip(after_sign, Class::Space)) {
                    Err(failure) => Err(failure),
                    Ok((rest, value)) => Ok(
                        (rest, Ast::VariableDefine { name, expression: Box::new(value) }),
                    ),
                },
            },
        },
    }
}

/// What a statement wraps: a variable definition or a return.
pub open spec fn statement_form(s: Seq<char>) -> Parsed
    decreases s.len(), 18nat,
{
    either(variable_define(s), function_return(s))
}

/// A statement: blanks, a definition or a return, `;`, spaces and then line feeds.
pub open spec fn statement(s: Seq<char>) -> Parsed
    decreases s.len(), 19nat,
{
    match statement_form(skip(s, Class::Blank)) {
        Err(failure) => Err(failure),
        Ok((after_inner, inner)) => match expect(after_inner, ";"@) {
            Err(failure) => Err(failure),
            Ok(after_semicolon) => Ok(
                (
                    skip(skip(after_semicolon, Class::Space), Class::Newline),
                    Ast::Statement { inner: Box::new(inner) },
                ),
            ),
        },
    }
}

/// A function definition: `fn`, a name, the parameters between parentheses, and between
/// braces one or more statements and conditionals.
pub open spec fn function_definition(s: Seq<char>) -> Parsed
    decreases s.len(), 24nat,
{
    match expect(s, "fn "@) {
        Err(failure) => Err(failure),
        Ok(after_keyword) => match word(after_keyword) {
            Err(failure) => Err(failure),
            Ok((after_name, name)) => match expect(after_name, "("@) {
                Err(failure) => Err(failure),
                Ok(opened) => match consuming_list(optional_arguments(opened), opened) {
                    Err(failure) => Err(failure),
                    Ok((after_list, parameters)) => match expect(after_list, ")"@) {
                        Err(failure) => Err(failure),
                        Ok(closed) => match expect(skip(closed, Class::Space), "{"@) {
                            Err(failure) => Err(failure),
                            Ok(in_body) => match many1(
                                Repeated::BodyItem,
                                skip(in_body, Class::Newline),
                            ) {
                                Err(failure) => Err(failure),
                                Ok((after_body, body)) => match expect(after_body, "}"@) {
                                    Err(failure) => Err(failure),
                                    Ok(rest) => Ok(
                                        (
                                            skip(rest, Class::SpaceOrNewline),
                                            Ast::FunctionDefine { name, parameters, body },
                                        ),
                                    ),
                                },
                            },
                        },
                    },
                },
            },
        },
    }
}

/// The rules that the grammar repeats.
#[derive(Debug, PartialEq, Eq, Clone, Copy, Structural)]
pub enum Repeated {
    /// A comma and an expression, after the first argument of a list.
    OtherArgument,
    /// A combinator and a condition, after the first condition.
    ConditionEnd,
    /// A statement or an expression, in the branch of a conditional.
    BranchItem,
    /// A statement or a conditional, in the body of a function.
    BodyItem,
    /// A function definition, a statement or an expression, at the top of a program.
    ProgramItem,
}

/// One item of the repeated rule `kind`: the first of its alternatives that matches.
pub open spec fn item(kind: Repeated, s: Seq<char>) -> Parsed
    decreases s.len(), 40nat,
{
    match kind {
        Repeated::OtherArgument => other_arg(s),
        Repeated::ConditionEnd => condition_end(s),
        Repeated::BranchItem => either(statement(s), expression(s)),
        Repeated::BodyItem => either(statement(s), if_stmt(s)),
        Repeated::ProgramItem => either(
            function_definition(s),
            either(statement(s), expression(s)),
        ),
    }
}

/// The list `list` after the tree `first`.
pub open spec fn cons(first: Ast, list: ParsedList) -> ParsedList {
    match list {
        Ok((rest, others)) => Ok((rest, seq![first] + others)),
        Err(failure) => Err(failure),
    }
}

/// As many items of the rule `kind` as follow one another at the start of `s`.
pub open spec fn many0(kind: Repeated, s: Seq<char>) -> ParsedList
    decreases s.len(), 41nat,
{
    match consuming(item(kind, s), s) {
        Err(failure) => if fatal(failure) {
            Err(failure)
        } else {
            Ok((s, Seq::empty()))
        },
        Ok((rest, first)) => cons(first, many0(kind, rest)),
    }
}

/// One or more items of the rule `kind`.
pub open spec fn many1(kind: Repeated, s: Seq<char>) -> ParsedList
    decreases s.len(), 42nat,
{
    match consuming(item(kind, s), s) {
        Err(failure) => Err(failure),
        Ok((rest, first)) => cons(first, many0(kind, rest)),
    }
}

/// A program: one or more function definitions, statements and expressions.
pub open spec fn program(s: Seq<char>) -> Parsed {
    match many1(Repeated::ProgramItem, s) {
        Err(failure) => Err(failure),
        Ok((rest, children)) => Ok((rest, Ast::Program { children })),
    }
}

} // verus!

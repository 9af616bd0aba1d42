//! Every rule of the grammar reads at least one character of what it matches.
//!
//! The definitions of the grammar test the length of what a rule leaves wherever another
//! rule follows it. The lemmas here show that those tests never fail: no rule ends in
//! [`Rule::Stalled`].
use crate::ast::Ast;
use crate::grammar::{
    arguments, climb, condition, condition_end, consuming, continuations, equal_to,
    equality_math, expression, expression_form, first_condition, function_call,
    function_definition, function_return, if_stmt, infix, item, l4, many0, many1, operand,
    optional_arguments, other_arg, parenthetical_condition, parenthetical_expression, program,
    returned, side, statement, statement_form, variable_define, Parsed, ParsedList, Repeated,
    Rule,
};
use crate::text::{lemma_leading, skip, Class};
use vstd::prelude::*;

verus! {

/// Whether the result `p` of a rule applied to `s` left less than `s`, or is a failure of
/// a step of the grammar.
pub open spec fn advances(p: Parsed, s: Seq<char>) -> bool {
    match p {
        Ok((rest, _)) => rest.len() < s.len(),
        Err(failure) => failure.rule != Rule::Stalled,
    }
}

/// Whether the result `p` of a repeated rule applied to `s` left no more than `s`, or is
/// a failure of a step of the grammar.
pub open spec fn holds(p: ParsedList, s: Seq<char>) -> bool {
    match p {
        Ok((rest, _)) => rest.len() <= s.len(),
        Err(failure) => failure.rule != Rule::Stalled,
    }
}

/// A word is shorter than what it is read from.
pub proof fn lemma_word_advances(s: Seq<char>)
    ensures
        crate::grammar::word(s) matches Ok((rest, _)) ==> rest.len() < s.len(),
{
    lemma_leading(s, Class::Alphanumeric);
}

/// A number is shorter than what it is read from.
pub proof fn lemma_digits_advance(s: Seq<char>, class: Class)
    ensures
        advances(crate::grammar::digits(s, class), s),
{
    reveal(crate::grammar::digits);
    lemma_leading(s, class);
}

/// Numbers, booleans, strings and identifiers read what they match.
pub proof fn lemma_literals_advance(s: Seq<char>)
    ensures
        advances(crate::grammar::number(s), s),
        advances(crate::grammar::boolean(s), s),
        advances(crate::grammar::string(s), s),
        advances(crate::grammar::identifier(s), s),
{
    reveal(crate::grammar::number);
    reveal(crate::grammar::integer);
    reveal(crate::grammar::integer0);
    reveal(crate::grammar::integer1);
    reveal(crate::grammar::binary);
    reveal(crate::grammar::octal);
    reveal(crate::grammar::prefixed);
    reveal(crate::grammar::boolean);
    reveal(crate::grammar::string);
    lemma_word_advances(s);
    lemma_digits_advance(s, Class::Decimal);
    match crate::grammar::expect(s, "0"@) {
        Ok(after_zero) => {
            match crate::grammar::expect(after_zero, "b"@) {
                Ok(rest) => lemma_digits_advance(rest, Class::Binary),
                Err(_) => {},
            }
            match crate::grammar::expect(after_zero, "o"@) {
                Ok(rest) => lemma_digits_advance(rest, Class::Octal),
                Err(_) => {},
            }
        },
        Err(_) => {},
    }
    match crate::grammar::expect(s, "\""@) {
        Ok(opened) => lemma_leading(opened, Class::Text),
        Err(_) => {},
    }
}

/// A function call reads what it matches.
pub proof fn lemma_function_call_advances(s: Seq<char>)
    ensures
        advances(function_call(s), s),
    decreases s.len(), 0nat,
{
    lemma_word_advances(s);
    match crate::grammar::word(s) {
        Ok((after_name, _)) => match crate::grammar::expect(after_name, "("@) {
            Ok(opened) => lemma_optional_arguments_hold(opened),
            Err(_) => {},
        },
        Err(_) => {},
    }
}

/// An optional list of arguments leaves no more than it was given.
pub proof fn lemma_optional_arguments_hold(s: Seq<char>)
    ensures
        holds(optional_arguments(s), s),
    decreases s.len(), 31nat,
{
    lemma_arguments_advance(s);
}

/// A list of arguments reads what it matches.
pub proof fn lemma_arguments_advance(s: Seq<char>)
    ensures
        advances(arguments(s), s),
    decreases s.len(), 30nat,
{
    lemma_expression_advances(s);
    match consuming(expression(s), s) {
        Ok((after_first, _)) => lemma_many0_holds(Repeated::OtherArgument, after_first),
        Err(_) => {},
    }
}

/// A comma and an expression read what they match.
pub proof fn lemma_other_arg_advances(s: Seq<char>)
    ensures
        advances(other_arg(s), s),
    decreases s.len(), 0nat,
{
    match crate::grammar::expect(s, ","@) {
        Ok(rest) => lemma_expression_advances(rest),
        Err(_) => {},
    }
}

/// An expression between parentheses reads what it matches.
pub proof fn lemma_parenthetical_expression_advances(s: Seq<char>)
    ensures
        advances(parenthetical_expression(s), s),
    decreases s.len(), 0nat,
{
    match crate::grammar::expect(skip(s, Class::Space), "("@) {
        Ok(opened) => lemma_climb_advances(skip(opened, Class::Space), 1),
        Err(_) => {},
    }
}

/// An operand of arithmetic reads what it matches.
pub proof fn lemma_l4_advances(s: Seq<char>)
    ensures
        advances(l4(s), s),
    decreases s.len(), 1nat,
{
    lemma_function_call_advances(s);
    lemma_literals_advance(s);
    lemma_parenthetical_expression_advances(s);
}

/// An operand of a level reads what it matches.
pub proof fn lemma_operand_advances(s: Seq<char>, level: nat)
    requires
        1 <= level <= 3,
    ensures
        advances(operand(s, level), s),
    decreases s.len(), 2 * (4 - level) + 2,
{
    if level < 3 {
        lemma_climb_advances(s, level + 1);
    } else {
        lemma_l4_advances(s);
    }
}

/// An arithmetic expression of a level reads what it matches.
pub proof fn lemma_climb_advances(s: Seq<char>, level: nat)
    requires
        1 <= level <= 3,
    ensures
        advances(climb(s, level), s),
    decreases s.len(), 2 * (4 - level) + 3,
{
    lemma_operand_advances(s, level);
    match consuming(operand(s, level), s) {
        Ok((rest, head)) => lemma_continuations_hold(rest, level, head),
        Err(_) => {},
    }
}

/// The continuations of a level leave no more than they were given.
pub proof fn lemma_continuations_hold(s: Seq<char>, level: nat, head: Ast)
    requires
        1 <= level <= 3,
    ensures
        match continuations(s, level, head) {
            Ok((rest, _)) => rest.len() <= s.len(),
            Err(failure) => failure.rule != Rule::Stalled,
        },
    decreases s.len(), 1nat,
{
    lemma_infix_advances(s, level);
    match consuming(infix(s, level), s) {
        Ok((rest, continuation)) => lemma_continuations_hold(
            rest,
            level,
            crate::grammar::fold(head, continuation),
        ),
        Err(_) => {},
    }
}

/// A continuation of a level reads what it matches.
pub proof fn lemma_infix_advances(s: Seq<char>, level: nat)
    requires
        1 <= level <= 3,
    ensures
        advances(infix(s, level), s),
    decreases s.len(), 0nat,
{
    match crate::grammar::level_operator(skip(s, Class::Space), level) {
        Ok((after_operator, _)) => lemma_operand_advances(
            skip(after_operator, Class::Space),
            level,
        ),
        Err(_) => {},
    }
}

/// One side of an equality test reads what it matches.
pub proof fn lemma_side_advances(s: Seq<char>)
    ensures
        advances(side(s), s),
    decreases s.len(), 10nat,
{
    lemma_literals_advance(s);
    lemma_climb_advances(s, 1);
}

/// An equality test reads what it matches.
pub proof fn lemma_equality_math_advances(s: Seq<char>)
    ensures
        advances(equality_math(s), s),
    decreases s.len(), 11nat,
{
    lemma_side_advances(s);
    match consuming(side(s), s) {
        Ok((after_left, left)) => lemma_equal_to_advances(after_left, left),
        Err(_) => {},
    }
}

/// The right half of an equality test reads what it matches.
pub proof fn lemma_equal_to_advances(s: Seq<char>, left: Ast)
    ensures
        advances(equal_to(s, left), s),
    decreases s.len(), 11nat,
{
    match crate::grammar::expect(skip(s, Class::Space), "=="@) {
        Ok(after_sign) => lemma_side_advances(skip(after_sign, Class::Space)),
        Err(_) => {},
    }
}

/// A condition between parentheses reads what it matches.
pub proof fn lemma_parenthetical_condition_advances(s: Seq<char>)
    ensures
        advances(parenthetical_condition(s), s),
    decreases s.len(), 0nat,
{
    match crate::grammar::expect(skip(s, Class::Space), "("@) {
        Ok(opened) => lemma_condition_advances(skip(opened, Class::Space)),
        Err(_) => {},
    }
}

/// The first of a chain of conditions reads what it matches.
pub proof fn lemma_first_condition_advances(s: Seq<char>)
    ensures
        advances(first_condition(s), s),
    decreases s.len(), 12nat,
{
    lemma_parenthetical_condition_advances(s);
    lemma_equality_math_advances(s);
    lemma_literals_advance(s);
    lemma_function_call_advances(s);
}

/// A condition reads what it matches.
pub proof fn lemma_condition_advances(s: Seq<char>)
    ensures
        advances(condition(s), s),
    decreases s.len(), 13nat,
{
    lemma_first_condition_advances(s);
    match consuming(first_condition(s), s) {
        Ok((after_first, _)) => lemma_many0_holds(Repeated::ConditionEnd, after_first),
        Err(_) => {},
    }
}

/// A combined condition reads what it matches.
pub proof fn lemma_condition_end_advances(s: Seq<char>)
    ensures
        advances(condition_end(s), s),
    decreases s.len(), 0nat,
{
    match crate::grammar::combinator(skip(s, Class::Space)) {
        Ok((after_combinator, _)) => lemma_condition_advances(
            skip(after_combinator, Class::Space),
        ),
        Err(_) => {},
    }
}

/// A conditional reads what it matches.
pub proof fn lemma_if_stmt_advances(s: Seq<char>)
    ensures
        advances(if_stmt(s), s),
    decreases s.len(), 0nat,
{
    match crate::grammar::expect(skip(s, Class::Blank), "if "@) {
        Ok(after_if) => {
            lemma_condition_advances(skip(after_if, Class::Space));
            match consuming(condition(skip(after_if, Class::Space)), after_if) {
                Ok((after_condition, _)) => match crate::grammar::expect(
                    skip(after_condition, Class::Space),
                    "{"@,
                ) {
                    Ok(opened) => lemma_many1_advances(
                        Repeated::BranchItem,
                        skip(opened, Class::Blank),
                    ),
                    Err(_) => {},
                },
                Err(_) => {},
            }
        },
        Err(_) => {},
    }
}

/// What an expression wraps reads what it matches.
pub proof fn lemma_expression_form_advances(s: Seq<char>)
    ensures
        advances(expression_form(s), s),
    decreases s.len(), 14nat,
{
    lemma_literals_advance(s);
    lemma_if_stmt_advances(s);
    lemma_climb_advances(s, 1);
    lemma_function_call_advances(s);
}

/// An expression reads what it matches.
pub proof fn lemma_expression_advances(s: Seq<char>)
    ensures
        advances(expression(s), s),
    decreases s.len(), 15nat,
{
    lemma_expression_form_advances(s);
}

/// What a return hands back reads what it matches.
pub proof fn lemma_returned_advances(s: Seq<char>)
    ensures
        advances(returned(s), s),
    decreases s.len(), 16nat,
{
    lemma_function_call_advances(s);
    lemma_expression_advances(s);
    lemma_literals_advance(s);
}

/// A return reads what it matches.
pub proof fn lemma_function_return_advances(s: Seq<char>)
    ensures
        advances(function_return(s), s),
    decreases s.len(), 17nat,
{
    match crate::grammar::expect(s, "return "@) {
        Ok(after_keyword) => lemma_returned_advances(after_keyword),
        Err(_) => {},
    }
}

/// A variable definition reads what it matches.
pub proof fn lemma_variable_define_advances(s: Seq<char>)
    ensures
        advances(variable_define(s), s),
    decreases s.len(), 17nat,
{
    match crate::grammar::expect(s, "let "@) {
        Ok(after_keyword) => match {
            lemma_word_advances(after_keyword);
            crate::grammar::word(after_keyword)
        } {
            Ok((after_name, _)) => match crate::grammar::expect(
                skip(after_name, Class::Space),
                "="@,
            ) {
                Ok(after_sign) => lemma_expression_advances(skip(after_sign, Class::Space)),
                Err(_) => {},
            },
            Err(_) => {},
        },
        Err(_) => {},
    }
}

/// What a statement wraps reads what it matches.
pub proof fn lemma_statement_form_advances(s: Seq<char>)
    ensures
        advances(statement_form(s), s),
    decreases s.len(), 18nat,
{
    lemma_variable_define_advances(s);
    lemma_function_return_advances(s);
}

/// A statement reads what it matches.
pub proof fn lemma_statement_advances(s: Seq<char>)
    ensures
        advances(statement(s), s),
    decreases s.len(), 19nat,
{
    lemma_statement_form_advances(skip(s, Class::Blank));
}

/// A function definition reads what it matches.
pub proof fn lemma_function_definition_advances(s: Seq<char>)
    ensures
        advances(function_definition(s), s),
    decreases s.len(), 24nat,
{
    match crate::grammar::expect(s, "fn "@) {
        Ok(after_keyword) => match {
            lemma_word_advances(after_keyword);
            crate::grammar::word(after_keyword)
        } {
            Ok((after_name, _)) => match crate::grammar::expect(after_name, "("@) {
                Ok(opened) => {
                    lemma_optional_arguments_hold(opened);
                    match optional_arguments(opened) {
                        Ok((after_list, _)) => match crate::grammar::expect(after_list, ")"@) {
                            Ok(closed) => match crate::grammar::expect(
                                skip(closed, Class::Space),
                                "{"@,
                            ) {
                                Ok(in_body) => lemma_many1_advances(
                                    Repeated::BodyItem,
                                    skip(in_body, Class::Newline),
                                ),
                                Err(_) => {},
                            },
                            Err(_) => {},
                        },
                        Err(_) => {},
                    }
                },
                Err(_) => {},
            },
            Err(_) => {},
        },
        Err(_) => {},
    }
}

/// An item of a repeated rule reads what it matches.
pub proof fn lemma_item_advances(kind: Repeated, s: Seq<char>)
    ensures
        advances(item(kind, s), s),
    decreases s.len(), 40nat,
{
    match kind {
        Repeated::OtherArgument => lemma_other_arg_advances(s),
        Repeated::ConditionEnd => lemma_condition_end_advances(s),
        Repeated::BranchItem => {
            lemma_statement_advances(s);
            lemma_expression_advances(s);
        },
        Repeated::BodyItem => {
            lemma_statement_advances(s);
            lemma_if_stmt_advances(s);
        },
        Repeated::ProgramItem => {
            lemma_function_definition_advances(s);
            lemma_statement_advances(s);
            lemma_expression_advances(s);
        },
    }
}

/// A repetition leaves no more than it was given.
pub proof fn lemma_many0_holds(kind: Repeated, s: Seq<char>)
    ensures
        holds(many0(kind, s), s),
    decreases s.len(), 41nat,
{
    lemma_item_advances(kind, s);
    match consuming(item(kind, s), s) {
        Ok((rest, _)) => lemma_many0_holds(kind, rest),
        Err(_) => {},
    }
}

/// A repetition of at least one item reads what it matches.
pub proof fn lemma_many1_advances(kind: Repeated, s: Seq<char>)
    ensures
        match many1(kind, s) {
            Ok((rest, _)) => rest.len() < s.len(),
            Err(failure) => failure.rule != Rule::Stalled,
        },
    decreases s.len(), 42nat,
{
    lemma_item_advances(kind, s);
    match consuming(item(kind, s), s) {
        Ok((rest, _)) => lemma_many0_holds(kind, rest),
        Err(_) => {},
    }
}

/// A program reads at least one character, and never ends in [`Rule::Stalled`].
pub proof fn lemma_program_advances(s: Seq<char>)
    ensures
        advances(program(s), s),
{
    lemma_many1_advances(Repeated::ProgramItem, s);
}

} // verus!

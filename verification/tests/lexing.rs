use cse262_project::{
    binary, boolean, function_call, identifier, integer, integer0, integer1, l1, l4, number,
    octal, program, statement, string, Node, ParseError, Rule,
};

fn number_of(result: Result<(&str, Node), ParseError>) -> (String, i32) {
    match result {
        Ok((rest, Node::Number { value })) => (rest.to_string(), value),
        other => panic!("not a number: {:?}", other),
    }
}

fn failure(result: Result<(&str, Node), ParseError>) -> (Rule, String) {
    match result {
        Err(e) => (e.rule, e.rest.to_string()),
        other => panic!("not a failure: {:?}", other),
    }
}

#[test]
fn a_fixed_text_is_read_off_the_input() {
    match boolean("true x") {
        Ok((rest, Node::Bool { value })) => {
            assert_eq!(rest, " x");
            assert!(value);
        }
        other => panic!("unexpected result: {:?}", other),
    }
    match boolean("falsetrue") {
        Ok((rest, Node::Bool { value })) => {
            assert_eq!(rest, "true");
            assert!(!value);
        }
        other => panic!("unexpected result: {:?}", other),
    }
    assert_eq!(failure(boolean("tru")), (Rule::Tag, "tru".to_string()));
    assert_eq!(failure(boolean("")), (Rule::Tag, "".to_string()));
}

#[test]
fn an_identifier_is_the_longest_run_of_letters_and_digits() {
    match identifier("abc1 def") {
        Ok((rest, Node::Identifier { name })) => {
            assert_eq!(rest, " def");
            assert_eq!(name, "abc1");
        }
        other => panic!("unexpected result: {:?}", other),
    }
    match identifier("a\u{e9}") {
        Ok((rest, Node::Identifier { name })) => {
            assert_eq!(rest, "\u{e9}");
            assert_eq!(name, "a");
        }
        other => panic!("unexpected result: {:?}", other),
    }
    assert_eq!(failure(identifier("")), (Rule::Alphanumeric, "".to_string()));
    assert_eq!(failure(identifier("+x")), (Rule::Alphanumeric, "+x".to_string()));
    assert_eq!(failure(identifier("\u{e9}")), (Rule::Alphanumeric, "\u{e9}".to_string()));
}

#[test]
fn a_decimal_number_is_the_longest_run_of_digits() {
    assert_eq!(number_of(integer1("123abc")), ("abc".to_string(), 123));
    assert_eq!(number_of(integer1("9")), ("".to_string(), 9));
    assert_eq!(number_of(integer1("1090 ")), (" ".to_string(), 1090));
    assert_eq!(failure(integer1("0123")), (Rule::Tag, "0123".to_string()));
    assert_eq!(failure(integer1("x")), (Rule::Tag, "x".to_string()));
    assert_eq!(failure(integer1("")), (Rule::Tag, "".to_string()));
}

#[test]
fn a_leading_zero_is_a_number_of_its_own() {
    assert_eq!(number_of(integer0("0")), ("".to_string(), 0));
    assert_eq!(number_of(integer("007")), ("07".to_string(), 0));
    assert_eq!(number_of(number("0x1")), ("x1".to_string(), 0));
    assert_eq!(failure(integer0("1")), (Rule::Tag, "1".to_string()));
    match program("007") {
        Ok((rest, Node::Program { children })) => {
            assert_eq!(rest, "");
            assert_eq!(children.len(), 3);
        }
        other => panic!("unexpected result: {:?}", other),
    }
}

#[test]
fn binary_digits_count_in_base_two() {
    assert_eq!(number_of(binary("0b1111011")), ("".to_string(), 123));
    assert_eq!(number_of(binary("0b0")), ("".to_string(), 0));
    assert_eq!(number_of(binary("0b102")), ("2".to_string(), 2));
    assert_eq!(number_of(number("0b1111111111111111111111111111111")), ("".to_string(), i32::MAX));
    assert_eq!(failure(binary("1b1")), (Rule::Tag, "1b1".to_string()));
    assert_eq!(failure(binary("0c1")), (Rule::Tag, "c1".to_string()));
}

#[test]
fn octal_digits_count_in_base_eight() {
    assert_eq!(number_of(octal("0o173")), ("".to_string(), 123));
    assert_eq!(number_of(octal("0o178")), ("8".to_string(), 15));
    assert_eq!(number_of(number("0o17777777777")), ("".to_string(), i32::MAX));
    assert_eq!(failure(octal("0b1")), (Rule::Tag, "b1".to_string()));
}

#[test]
fn a_prefix_without_digits_ends_the_parse() {
    assert_eq!(failure(binary("0b")), (Rule::MissingDigits, "".to_string()));
    assert_eq!(failure(number("0b2")), (Rule::MissingDigits, "2".to_string()));
    assert_eq!(failure(number("0o8")), (Rule::MissingDigits, "8".to_string()));
    assert_eq!(failure(l4("0bx")), (Rule::MissingDigits, "x".to_string()));
    assert_eq!(failure(program("1 + 0b")), (Rule::MissingDigits, "".to_string()));
    assert_eq!(failure(program("let x = 0o;")), (Rule::MissingDigits, ";".to_string()));
}

#[test]
fn a_number_beyond_32_bits_ends_the_parse() {
    assert_eq!(number_of(number("2147483647")), ("".to_string(), i32::MAX));
    assert_eq!(failure(number("2147483648")), (Rule::NumberTooLarge, "2147483648".to_string()));
    assert_eq!(
        failure(number("99999999999999999999999 ")),
        (Rule::NumberTooLarge, "99999999999999999999999 ".to_string())
    );
    assert_eq!(
        failure(binary("0b10000000000000000000000000000000")),
        (Rule::NumberTooLarge, "10000000000000000000000000000000".to_string())
    );
    assert_eq!(
        failure(octal("0o20000000000")),
        (Rule::NumberTooLarge, "20000000000".to_string())
    );
    assert_eq!(
        failure(program("fn main(){return 1 + 4294967296;}")),
        (Rule::NumberTooLarge, "4294967296;}".to_string())
    );
}

#[test]
fn a_number_fails_where_its_last_alternative_fails() {
    assert_eq!(failure(number("abc")), (Rule::Tag, "abc".to_string()));
    assert_eq!(failure(number("")), (Rule::Tag, "".to_string()));
    assert_eq!(failure(l4("+")), (Rule::Tag, "+".to_string()));
    assert_eq!(failure(l4("  +")), (Rule::Tag, "+".to_string()));
}

#[test]
fn a_string_holds_letters_digits_and_spaces() {
    match string("\"hello world 42\" rest") {
        Ok((rest, Node::String { value })) => {
            assert_eq!(rest, " rest");
            assert_eq!(value, "hello world 42");
        }
        other => panic!("unexpected result: {:?}", other),
    }
    match string("\"   \"") {
        Ok((rest, Node::String { value })) => {
            assert_eq!(rest, "");
            assert_eq!(value, "   ");
        }
        other => panic!("unexpected result: {:?}", other),
    }
    assert_eq!(failure(string("\"\"")), (Rule::Tag, "\"".to_string()));
    assert_eq!(failure(string("\"a-b\"")), (Rule::Tag, "-b\"".to_string()));
    assert_eq!(failure(string("\"ab")), (Rule::Tag, "".to_string()));
    assert_eq!(failure(string("ab\"")), (Rule::Tag, "ab\"".to_string()));
}

#[test]
fn a_call_lists_its_arguments() {
    match function_call("foo(1,b)x") {
        Ok((rest, Node::FunctionCall { name, arguments })) => {
            assert_eq!(rest, "x");
            assert_eq!(name, "foo");
            assert_eq!(arguments.len(), 2);
            assert!(matches!(&arguments[0], Node::Expression { inner } if matches!(**inner, Node::Number { value: 1 })));
            assert!(matches!(&arguments[1], Node::Expression { inner } if matches!(&**inner, Node::Identifier { name } if name == "b")));
        }
        other => panic!("unexpected result: {:?}", other),
    }
    match function_call("foo()") {
        Ok((rest, Node::FunctionCall { arguments, .. })) => {
            assert_eq!(rest, "");
            assert!(arguments.is_empty());
        }
        other => panic!("unexpected result: {:?}", other),
    }
    assert_eq!(failure(function_call("foo")), (Rule::Tag, "".to_string()));
    assert_eq!(failure(function_call("foo(1")), (Rule::Tag, "".to_string()));
    assert_eq!(failure(function_call("foo (1)")), (Rule::Tag, " (1)".to_string()));
}

#[test]
fn no_space_may_follow_a_comma() {
    assert_eq!(failure(function_call("foo(1, 2)")), (Rule::Tag, ", 2)".to_string()));
    match program("foo(1, 2)") {
        Ok((rest, Node::Program { children })) => {
            assert_eq!(rest, "(1, 2)");
            assert_eq!(children.len(), 1);
        }
        other => panic!("unexpected result: {:?}", other),
    }
}

#[test]
fn arithmetic_folds_to_the_left() {
    match l1("1 - 2 - 3;") {
        Ok((rest, Node::MathExpression { operator, operands })) => {
            assert_eq!(rest, ";");
            assert_eq!(operator, "-");
            assert_eq!(operands.len(), 2);
            assert!(matches!(&operands[0], Node::MathExpression { operator, operands } if operator == "-" && operands.len() == 2));
            assert!(matches!(operands[1], Node::Number { value: 3 }));
        }
        other => panic!("unexpected result: {:?}", other),
    }
}

#[test]
fn a_statement_reads_the_spaces_and_line_feeds_after_it() {
    match statement("\n\t let x = 1;  \n\nnext") {
        Ok((rest, Node::Statement { inner })) => {
            assert_eq!(rest, "next");
            assert!(matches!(*inner, Node::VariableDefine { .. }));
        }
        other => panic!("unexpected result: {:?}", other),
    }
    assert_eq!(failure(statement("let x = 1")), (Rule::Tag, "".to_string()));
    assert_eq!(failure(statement("return foo() + 1;")), (Rule::Tag, " + 1;".to_string()));
    assert_eq!(failure(statement("x = 1;")), (Rule::Tag, "x = 1;".to_string()));
}

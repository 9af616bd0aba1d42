use cse262_project::table::Table;
use cse262_project::{program, run, Node, Runtime, RuntimeError, Value, MAX_CALL_DEPTH};

fn number(value: i32) -> Node {
    Node::Number { value }
}

fn boolean(value: bool) -> Node {
    Node::Bool { value }
}

fn text(value: &str) -> Node {
    Node::String { value: value.to_string() }
}

fn name(name: &str) -> Node {
    Node::Identifier { name: name.to_string() }
}

fn math(operator: &str, left: Node, right: Node) -> Node {
    Node::MathExpression { operator: operator.to_string(), operands: vec![left, right] }
}

fn equals(left: Node, right: Node) -> Node {
    Node::TestEquality { lhs: Box::new(left), rhs: Box::new(right) }
}

fn expression(inner: Node) -> Node {
    Node::Expression { inner: Box::new(inner) }
}

fn statement(inner: Node) -> Node {
    Node::Statement { inner: Box::new(inner) }
}

fn hands_back(inner: Node) -> Node {
    Node::FunctionReturn { expression: Box::new(inner) }
}

fn call(function: &str, arguments: Vec<Node>) -> Node {
    Node::FunctionCall { name: function.to_string(), arguments }
}

fn define(function: &str, parameters: Vec<Node>, body: Vec<Node>) -> Node {
    Node::FunctionDefine { name: function.to_string(), parameters, body }
}

fn one(inner: Node) -> Result<Value, RuntimeError> {
    run(&Node::Program { children: vec![expression(inner)] })
}

fn evaluate(source: &str) -> Result<Value, RuntimeError> {
    let (rest, tree) = program(source).expect("the source is a program");
    assert_eq!(rest, "");
    run(&tree)
}

#[test]
fn adds_two_numbers() {
    assert_eq!(one(math("+", number(1), number(2))), Ok(Value::Number(3)));
    assert_eq!(evaluate("12 + 30"), Ok(Value::Number(42)));
}

#[test]
fn subtracts_two_numbers() {
    assert_eq!(evaluate("12 - 30"), Ok(Value::Number(-18)));
}

#[test]
fn multiplies_two_numbers() {
    assert_eq!(evaluate("12 * 30"), Ok(Value::Number(360)));
}

#[test]
fn division_rounds_towards_zero() {
    assert_eq!(evaluate("7 / 2"), Ok(Value::Number(3)));
    assert_eq!(one(math("/", number(-7), number(2))), Ok(Value::Number(-3)));
    assert_eq!(one(math("/", number(7), number(-2))), Ok(Value::Number(-3)));
    assert_eq!(one(math("/", number(-7), number(-2))), Ok(Value::Number(3)));
}

#[test]
fn division_by_zero_is_an_error() {
    assert_eq!(evaluate("1 / 0"), Err(RuntimeError::DivisionByZero));
    assert_eq!(RuntimeError::DivisionByZero.message(), "Division by zero");
}

#[test]
fn results_beyond_32_bits_are_errors() {
    assert_eq!(evaluate("2147483647 + 1"), Err(RuntimeError::Overflow));
    assert_eq!(evaluate("2147483647 + 0"), Ok(Value::Number(2147483647)));
    assert_eq!(evaluate("65536 * 32768"), Err(RuntimeError::Overflow));
    assert_eq!(one(math("-", number(i32::MIN), number(1))), Err(RuntimeError::Overflow));
    assert_eq!(one(math("/", number(i32::MIN), number(-1))), Err(RuntimeError::Overflow));
    assert_eq!(RuntimeError::Overflow.message(), "Arithmetic overflow");
}

#[test]
fn power_multiplies_repeatedly() {
    assert_eq!(evaluate("2 ^ 10"), Ok(Value::Number(1024)));
    assert_eq!(evaluate("5 ^ 0"), Ok(Value::Number(1)));
    assert_eq!(evaluate("0 ^ 0"), Ok(Value::Number(1)));
    assert_eq!(evaluate("2 ^ 30"), Ok(Value::Number(1073741824)));
    assert_eq!(evaluate("2 ^ 31"), Err(RuntimeError::Overflow));
    assert_eq!(one(math("^", number(-2), number(31))), Ok(Value::Number(i32::MIN)));
    assert_eq!(one(math("^", number(-2), number(32))), Err(RuntimeError::Overflow));
    assert_eq!(one(math("^", number(2), number(-1))), Ok(Value::Number(1)));
    assert_eq!(one(math("^", number(-1), number(1001))), Ok(Value::Number(-1)));
}

#[test]
fn operators_associate_to_the_left() {
    assert_eq!(evaluate("10 - 3 - 2"), Ok(Value::Number(5)));
    assert_eq!(evaluate("8 / 4 / 2"), Ok(Value::Number(1)));
    assert_eq!(evaluate("2 ^ 3 ^ 2"), Ok(Value::Number(64)));
    assert_eq!(evaluate("1+2+3"), Ok(Value::Number(6)));
}

#[test]
fn tighter_operators_bind_first() {
    assert_eq!(evaluate("2 + 3 * 4"), Ok(Value::Number(14)));
    assert_eq!(evaluate("2 * 3 + 4"), Ok(Value::Number(10)));
    assert_eq!(evaluate("2 * 3 ^ 2"), Ok(Value::Number(18)));
    assert_eq!(evaluate("(2 + 3) * 4"), Ok(Value::Number(20)));
}

#[test]
fn arithmetic_needs_two_numbers() {
    assert_eq!(one(math("+", boolean(true), number(1))), Err(RuntimeError::TypeMismatch));
    assert_eq!(one(math("+", number(1), text("a"))), Err(RuntimeError::TypeMismatch));
    assert_eq!(
        evaluate("fn foo(){return true;} fn main(){return 1 + foo();}"),
        Err(RuntimeError::TypeMismatch)
    );
    assert_eq!(RuntimeError::TypeMismatch.message(), "Cannot do math on String or Bool");
}

#[test]
fn arithmetic_needs_a_known_operator() {
    assert_eq!(one(math("%", number(1), number(2))), Err(RuntimeError::UndefinedOperator));
    assert_eq!(one(math("", number(1), number(2))), Err(RuntimeError::UndefinedOperator));
    assert_eq!(one(math("++", number(1), number(2))), Err(RuntimeError::UndefinedOperator));
    assert_eq!(one(math("%", boolean(true), number(2))), Err(RuntimeError::TypeMismatch));
    assert_eq!(RuntimeError::UndefinedOperator.message(), "Undefined operator");
}

#[test]
fn arithmetic_reads_the_first_two_operands() {
    let three = Node::MathExpression {
        operator: "+".to_string(),
        operands: vec![number(1), number(2), number(4)],
    };
    assert_eq!(one(three), Ok(Value::Number(3)));
    let single = Node::MathExpression { operator: "+".to_string(), operands: vec![number(1)] };
    assert_eq!(one(single), Err(RuntimeError::UnhandledNode));
}

#[test]
fn an_error_in_an_operand_comes_first() {
    assert_eq!(one(math("+", name("x"), boolean(true))), Err(RuntimeError::UndefinedVariable));
    assert_eq!(tested(number(1), name("x")), Err(RuntimeError::UndefinedVariable));
}

fn tested(left: Node, right: Node) -> Result<Value, RuntimeError> {
    Runtime::new().run(&equals(left, right))
}

#[test]
fn equality_compares_numbers_and_booleans() {
    assert_eq!(tested(number(1), number(1)), Ok(Value::Bool(true)));
    assert_eq!(tested(number(1), number(2)), Ok(Value::Bool(false)));
    assert_eq!(tested(boolean(true), boolean(false)), Ok(Value::Bool(false)));
    assert_eq!(tested(boolean(false), boolean(false)), Ok(Value::Bool(true)));
    assert_eq!(evaluate("if 2*3==6 { 1 }"), Ok(Value::Number(1)));
}

#[test]
fn equality_rejects_other_values() {
    assert_eq!(tested(number(1), boolean(true)), Err(RuntimeError::IncompatibleTypes));
    assert_eq!(tested(text("a"), text("a")), Err(RuntimeError::IncompatibleTypes));
    assert_eq!(evaluate("if 1==true { 1 }"), Err(RuntimeError::IncompatibleTypes));
    assert_eq!(one(equals(number(1), number(1))), Err(RuntimeError::UnknownExpression));
    assert_eq!(RuntimeError::IncompatibleTypes.message(), "Incompatible types");
}

#[test]
fn a_statement_wraps_a_definition_or_a_return() {
    let tree = Node::Program { children: vec![statement(number(1))] };
    assert_eq!(run(&tree), Err(RuntimeError::UnknownStatement));
    let tree = Node::Program { children: vec![statement(hands_back(number(1)))] };
    assert_eq!(run(&tree), Ok(Value::Number(1)));
    assert_eq!(RuntimeError::UnknownStatement.message(), "Unknown Statement");
}

#[test]
fn an_expression_wraps_an_expression() {
    assert_eq!(one(hands_back(number(1))), Err(RuntimeError::UnknownExpression));
    assert_eq!(one(expression(number(1))), Err(RuntimeError::UnknownExpression));
    assert_eq!(RuntimeError::UnknownExpression.message(), "Unknown Expression");
}

#[test]
fn a_conditional_needs_an_odd_number_of_conditions() {
    let none = Node::If { condition: vec![], then_branch: Box::new(number(1)) };
    assert_eq!(one(none), Err(RuntimeError::InvalidConditionCount));
    let two = Node::If { condition: vec![boolean(true), boolean(true)], then_branch: Box::new(number(1)) };
    assert_eq!(one(two), Err(RuntimeError::InvalidConditionCount));
    let three = Node::If {
        condition: vec![boolean(false), boolean(true), boolean(true)],
        then_branch: Box::new(number(1)),
    };
    assert_eq!(one(three), Ok(Value::Ignore()));
    assert_eq!(RuntimeError::InvalidConditionCount.message(), "Invalid amount of conditions");
}

#[test]
fn a_condition_is_a_boolean() {
    let tree = Node::If { condition: vec![number(1)], then_branch: Box::new(number(1)) };
    assert_eq!(one(tree), Err(RuntimeError::ConditionNotBool));
    assert_eq!(
        evaluate("fn foo(){return 1;} fn main(){if foo() {return 2;}}"),
        Err(RuntimeError::ConditionNotBool)
    );
    assert_eq!(RuntimeError::ConditionNotBool.message(), "Why isn't this a bool");
}

#[test]
fn a_conditional_keeps_the_first_node_of_its_branch() {
    assert_eq!(evaluate("if true { let x = 1; 2 }"), Ok(Value::Number(1)));
    assert_eq!(evaluate("if true { 2 let x = 1; }"), Ok(Value::Number(2)));
    match program("if true { let x = 1; 2 }") {
        Ok((_, Node::Program { children })) => match &children[0] {
            Node::Expression { inner } => match &**inner {
                Node::If { condition, then_branch } => {
                    assert_eq!(condition.len(), 1);
                    assert!(matches!(**then_branch, Node::VariableDefine { .. }));
                }
                other => panic!("unexpected node: {:?}", other),
            },
            other => panic!("unexpected node: {:?}", other),
        },
        other => panic!("unexpected result: {:?}", other),
    }
}

#[test]
fn conditions_in_parentheses_and_combinators_have_no_rule() {
    assert_eq!(evaluate("if (true) { 1 }"), Err(RuntimeError::UnhandledNode));
    let combined = Node::ConditionExpression {
        operator: "&&".to_string(),
        rhs: Box::new(boolean(true)),
    };
    let tree = Node::If { condition: vec![combined], then_branch: Box::new(number(1)) };
    assert_eq!(one(tree), Err(RuntimeError::UnhandledNode));
    assert_eq!(RuntimeError::UnhandledNode.message(), "Unhandled Node");
}

#[test]
fn a_variable_lives_in_the_frame_of_its_call() {
    assert_eq!(
        evaluate("fn main(){let x = 1; return foo();} fn foo(){return x;}"),
        Err(RuntimeError::UndefinedVariable)
    );
    assert_eq!(
        evaluate("fn main(){let x = 1; let y = foo(5); return x;} fn foo(x){return x;}"),
        Ok(Value::Number(1))
    );
}

#[test]
fn a_definition_replaces_an_earlier_one() {
    assert_eq!(evaluate("fn main(){let x = 1; let x = 2; return x;}"), Ok(Value::Number(2)));
    assert_eq!(evaluate("fn main(){return 1;} fn main(){return 2;}"), Ok(Value::Number(2)));
}

#[test]
fn arguments_are_bound_in_order() {
    assert_eq!(
        evaluate("fn main(){return sub(10,3);} fn sub(a,b){return a-b;}"),
        Ok(Value::Number(7))
    );
}

#[test]
fn a_parameter_without_an_argument_stays_unbound() {
    assert_eq!(
        evaluate("fn main(){return foo();} fn foo(a){return a;}"),
        Err(RuntimeError::UndefinedVariable)
    );
    assert_eq!(
        evaluate("fn main(){return foo(1);} fn foo(a,b){return a;}"),
        Ok(Value::Number(1))
    );
}

#[test]
fn an_argument_without_a_parameter_is_evaluated_too() {
    assert_eq!(
        evaluate("fn main(){return foo(1,2);} fn foo(a){return a;}"),
        Ok(Value::Number(1))
    );
    assert_eq!(
        evaluate("fn main(){return foo(1,x);} fn foo(a){return a;}"),
        Err(RuntimeError::UndefinedVariable)
    );
}

#[test]
fn an_error_in_an_argument_ends_the_call() {
    assert_eq!(
        evaluate("fn main(){return foo(x);} fn foo(a){return 1;}"),
        Err(RuntimeError::UndefinedVariable)
    );
}

#[test]
fn a_parameter_may_be_a_bare_identifier() {
    let tree = Node::Program {
        children: vec![
            define("id", vec![name("a")], vec![statement(hands_back(expression(name("a"))))]),
            define("main", vec![], vec![statement(hands_back(call("id", vec![number(9)])))]),
        ],
    };
    assert_eq!(run(&tree), Ok(Value::Number(9)));
}

#[test]
fn an_error_in_a_statement_ends_the_body() {
    assert_eq!(
        evaluate("fn main(){let x = y; return 5;}"),
        Err(RuntimeError::UndefinedVariable)
    );
}

#[test]
fn a_body_returns_what_its_last_statement_gives() {
    assert_eq!(evaluate("fn main(){return 1; return 2;}"), Ok(Value::Number(2)));
    assert_eq!(evaluate("fn main(){return 1; let x = 3;}"), Ok(Value::Number(3)));
}

#[test]
fn a_function_without_statements_is_undefined() {
    let tree = Node::Program { children: vec![define("main", vec![], vec![])] };
    assert_eq!(run(&tree), Err(RuntimeError::UndefinedFunction));
}

#[test]
fn the_last_bare_item_is_the_entry_point() {
    assert_eq!(evaluate("let x = 1; let y = 2;"), Ok(Value::Number(2)));
    assert_eq!(evaluate("007"), Ok(Value::Number(7)));
}

#[test]
fn a_tree_that_is_no_program_defines_nothing() {
    assert_eq!(run(&number(1)), Err(RuntimeError::UndefinedFunction));
    assert_eq!(run(&name("x")), Err(RuntimeError::UndefinedFunction));
    let main = define("main", vec![], vec![statement(hands_back(number(4)))]);
    assert_eq!(run(&main), Ok(Value::Number(4)));
}

#[test]
fn endless_recursion_is_an_error() {
    assert_eq!(evaluate("fn main(){return main();}"), Err(RuntimeError::CallDepthExceeded));
    assert_eq!(RuntimeError::CallDepthExceeded.message(), "Call depth exceeded");
    assert_eq!(MAX_CALL_DEPTH, 200);
}

#[test]
fn recursion_within_the_limit_returns() {
    let source = "fn down(n){if n==3 {return down(n-1);}} fn main(){return down(3);}";
    assert_eq!(evaluate(source), Ok(Value::Ignore()));
}

fn chain(length: usize) -> String {
    let mut source = String::from("fn main(){return f1();}");
    for i in 1..length {
        source.push_str(&format!(" fn f{}(){{return f{}();}}", i, i + 1));
    }
    source.push_str(&format!(" fn f{}(){{return 1;}}", length));
    source
}

#[test]
fn nested_calls_are_counted() {
    assert_eq!(evaluate(&chain(1)), Ok(Value::Number(1)));
    assert_eq!(evaluate(&chain(199)), Ok(Value::Number(1)));
    assert_eq!(evaluate(&chain(200)), Err(RuntimeError::CallDepthExceeded));
}

#[test]
fn two_runs_of_one_tree_agree() {
    let (_, tree) = program("fn main(){let x = 2; return foo(x,3);} fn foo(a,b){return a^b;}")
        .expect("the source is a program");
    let first = run(&tree);
    let second = run(&tree);
    assert_eq!(first, Ok(Value::Number(8)));
    assert_eq!(first, second);
    let failing = Node::Program { children: vec![expression(name("x"))] };
    assert_eq!(run(&failing), run(&failing.clone()));
}

#[test]
fn an_evaluator_keeps_its_functions_between_nodes() {
    let mut runtime = Runtime::new();
    let main = define("main", vec![], vec![statement(hands_back(call("five", vec![])))]);
    let five = define("five", vec![], vec![statement(hands_back(number(5)))]);
    assert_eq!(runtime.run(&call("main", vec![])), Err(RuntimeError::UndefinedFunction));
    assert_eq!(runtime.run(&Node::Program { children: vec![main] }), Ok(Value::Bool(true)));
    assert_eq!(runtime.run(&call("main", vec![])), Err(RuntimeError::UndefinedFunction));
    assert_eq!(runtime.run(&five), Ok(Value::Bool(true)));
    assert_eq!(runtime.run(&call("main", vec![])), Ok(Value::Number(5)));
}

#[test]
fn outside_a_call_there_is_no_frame() {
    let mut runtime = Runtime::new();
    assert_eq!(runtime.run(&name("x")), Err(RuntimeError::UndefinedVariable));
    let definition = Node::VariableDefine {
        name: "x".to_string(),
        expression: Box::new(number(1)),
    };
    assert_eq!(runtime.run(&definition), Err(RuntimeError::UnhandledNode));
    assert_eq!(runtime.run(&number(3)), Ok(Value::Number(3)));
    assert_eq!(runtime.run(&text("a b")), Ok(Value::String("a b".to_string())));
}

#[test]
fn a_table_finds_the_latest_binding() {
    let mut table: Table<Value> = Table::new();
    assert_eq!(table.get(&"x".to_string()), None);
    table.insert("x".to_string(), Value::Number(1));
    table.insert("y".to_string(), Value::Bool(true));
    table.insert("x".to_string(), Value::Number(2));
    assert_eq!(table.get(&"x".to_string()), Some(&Value::Number(2)));
    assert_eq!(table.get(&"y".to_string()), Some(&Value::Bool(true)));
    assert_eq!(table.get(&"z".to_string()), None);
}

#[test]
fn a_copy_of_a_tree_is_the_same_tree() {
    let (_, tree) = program("fn main(){if 1==1 {return \"a b\";}}").expect("the source is a program");
    assert_eq!(format!("{:?}", tree.clone()), format!("{:?}", tree));
    assert_eq!(run(&tree.clone()), Ok(Value::String("a b".to_string())));
    assert_eq!(Value::Ignore().clone(), Value::Ignore());
}

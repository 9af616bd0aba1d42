use cse262_project::{program, run, Node, ParseError, Rule, RuntimeError, Value};

fn evaluate(source: &str) -> Result<Value, RuntimeError> {
    match program(source) {
        Ok((input, p)) => {
            assert_eq!(input, "");
            run(&p)
        }
        Err(e) => panic!("parse error: {:?}", e),
    }
}

#[test]
fn numeric() {
    assert_eq!(evaluate(r#"123"#), Ok(Value::Number(123)));
}

#[test]
fn identifier() {
    assert_eq!(evaluate(r#"x"#), Err(RuntimeError::UndefinedVariable));
    assert_eq!(RuntimeError::UndefinedVariable.message(), "Undefined variable");
}

#[test]
fn string() {
    assert_eq!(evaluate(r#""hello world""#), Ok(Value::String("hello world".to_string())));
}

#[test]
fn bool_true() {
    assert_eq!(evaluate(r#"true"#), Ok(Value::Bool(true)));
}

#[test]
fn bool_false() {
    assert_eq!(evaluate(r#"false"#), Ok(Value::Bool(false)));
}

#[test]
fn function_call() {
    assert_eq!(evaluate(r#"foo()"#), Err(RuntimeError::UndefinedFunction));
    assert_eq!(RuntimeError::UndefinedFunction.message(), "Undefined function");
}

#[test]
fn function_call_one_arg() {
    assert_eq!(evaluate(r#"foo(a)"#), Err(RuntimeError::UndefinedFunction));
}

#[test]
fn function_call_more_args() {
    assert_eq!(evaluate(r#"foo(a,b,c)"#), Err(RuntimeError::UndefinedFunction));
}

#[test]
fn variable_define() {
    assert_eq!(evaluate(r#"let x = 123;"#), Ok(Value::Number(123)));
}

#[test]
fn variable_init() {
    assert_eq!(evaluate(r#"let x = 1;"#), Ok(Value::Number(1)));
}

#[test]
fn variable_bool() {
    assert_eq!(evaluate(r#"let bool = true;"#), Ok(Value::Bool(true)));
}

#[test]
fn variable_string() {
    assert_eq!(
        evaluate(r#"let string = "Hello World";"#),
        Ok(Value::String("Hello World".to_string()))
    );
}

#[test]
fn variable_init_no_space() {
    assert_eq!(evaluate(r#"let x=1;"#), Ok(Value::Number(1)));
}

#[test]
fn math() {
    assert_eq!(evaluate(r#"1 + 1"#), Ok(Value::Number(2)));
}

#[test]
fn math_no_space() {
    assert_eq!(evaluate(r#"1+1"#), Ok(Value::Number(2)));
}

#[test]
fn math_subtraction() {
    assert_eq!(evaluate(r#"1 - 1"#), Ok(Value::Number(0)));
}

#[test]
fn math_multiply() {
    assert_eq!(evaluate(r#"2 * 4"#), Ok(Value::Number(8)));
}

#[test]
fn math_divide() {
    assert_eq!(evaluate(r#"6 / 2"#), Ok(Value::Number(3)));
}

#[test]
fn math_exponent() {
    assert_eq!(evaluate(r#"2 ^ 4"#), Ok(Value::Number(16)));
}

#[test]
fn math_more_terms() {
    assert_eq!(evaluate(r#"10 + 2*6"#), Ok(Value::Number(22)));
}

#[test]
fn math_more_terms_paren() {
    assert_eq!(evaluate(r#"((10+2)*6)/4"#), Ok(Value::Number(18)));
}

#[test]
fn assign_math() {
    assert_eq!(evaluate(r#"let x = 1 + 1;"#), Ok(Value::Number(2)));
}

#[test]
fn assign_function() {
    assert_eq!(evaluate(r#"let x = foo();"#), Err(RuntimeError::UndefinedFunction));
}

#[test]
fn assign_function_arguments() {
    assert_eq!(evaluate(r#"let x = foo(a,b,c);"#), Err(RuntimeError::UndefinedFunction));
}

#[test]
fn define_function() {
    assert_eq!(
        evaluate(r#"fn main(){return foo();} fn foo(){return 5;}"#),
        Ok(Value::Number(5))
    );
}

#[test]
fn define_function_args() {
    assert_eq!(
        evaluate(r#"fn main(){return foo(1,2,3);} fn foo(a,b,c){return a+b+c;}"#),
        Ok(Value::Number(6))
    );
}

#[test]
fn define_function_more_statement() {
    assert_eq!(
        evaluate(
            r#"fn main() {
  return foo();
}
fn foo(){
  let x = 5;
  return x;
}"#
        ),
        Ok(Value::Number(5))
    );
}

#[test]
fn define_full_program() {
    assert_eq!(
        evaluate(
            r#"fn foo(a,b,c) {
  let x = a + 1;
  let y = bar(c - b);
  return x * y;
}

fn bar(a) {
  return a * 3;
}

fn main() {
  return foo(1,2,3);  
}"#
        ),
        Ok(Value::Number(6))
    );
}

#[test]
fn binary() {
    assert_eq!(evaluate(r#"0b1111011"#), Ok(Value::Number(123)));
}

#[test]
fn octal() {
    assert_eq!(evaluate(r#"0o173"#), Ok(Value::Number(123)));
}

#[test]
fn if_stmt_true() {
    assert_eq!(
        evaluate(
            r#"
if true {
  1
}"#
        ),
        Ok(Value::Number(1))
    );
}

#[test]
fn if_stmt_false() {
    assert_eq!(
        evaluate(
            r#"
if false {
  1
}"#
        ),
        Ok(Value::Ignore())
    );
}

#[test]
fn math_if_stmt_true() {
    assert_eq!(
        evaluate(
            r#"
if 1+1==2 {
  1
}"#
        ),
        Ok(Value::Number(1))
    );
}

#[test]
fn math_if_stmt_false() {
    assert_eq!(
        evaluate(
            r#"
if 1+1==3 {
  1
}"#
        ),
        Ok(Value::Ignore())
    );
}

#[test]
fn if_stmt_bool_comparison_false() {
    assert_eq!(
        evaluate(
            r#"
if true==false {
  1
}"#
        ),
        Ok(Value::Ignore())
    );
}

#[test]
fn if_stmt_bool_comparison_true() {
    assert_eq!(
        evaluate(
            r#"
if true==true {
  1
}"#
        ),
        Ok(Value::Number(1))
    );
}

#[test]
fn if_stmt_multiple_conditions_true() {
    assert_eq!(
        evaluate(
            r#"
if true & true {
  1
}"#
        ),
        Ok(Value::Number(1))
    );
}

#[test]
fn if_statement_complicated_math_true() {
    assert_eq!(
        evaluate(
            r#"fn main() {
  if 1+(4/2)==3 {
    2
  }
}
fn foo(){
  return 1;
}"#
        ),
        Ok(Value::Number(2))
    );
}

#[test]
fn if_statement_complicated_math_with_functions_true() {
    assert_eq!(
        evaluate(
            r#"fn main() {
  if (foo()+2) == 3 {
    2
  }
}
fn foo(){
  return 1;
}"#
        ),
        Ok(Value::Number(2))
    );
}

#[test]
fn define_full_program_with_if_stmts() {
    assert_eq!(
        evaluate(
            r#"fn foo() {
  if 1+1==2 {
    return true;
  }
}

fn main() {
  if foo() {
    return 6;
  }  
}"#
        ),
        Ok(Value::Number(6))
    );
}

#[test]
fn empty_input_fails_at_the_last_alternative() {
    assert_eq!(program("").err(), Some(ParseError { rule: Rule::Alphanumeric, rest: "" }));
}

#[test]
fn program_keeps_unread_input() {
    match program("1 + 1 )") {
        Ok((rest, Node::Program { children })) => {
            assert_eq!(rest, " )");
            assert_eq!(children.len(), 1);
        }
        other => panic!("unexpected result: {:?}", other),
    }
}

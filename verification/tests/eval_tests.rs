use interpreter_book::eval::{
    eval, eval_bang_operator_expression, eval_block_statement, eval_expression, eval_statement, eval_infix_expression, eval_integer_infix_operation,
    eval_minus_prefix_operator_expression, eval_prefix_expression, eval_program, is_truthy,
};
use interpreter_book::object::Object;
use interpreter_book::{Lexer, Parser};

fn run(input: &str) -> String {
    let lexer = Lexer::new(input);
    let mut parser = Parser::new(lexer);

    let program = parser.parse_program();

    assert!(program.is_some());
    assert!(parser.errors().is_empty());

    let mut program = program.unwrap();
    let actual = eval_program(&mut program);
    actual.to_string()
}

#[test]
pub fn test_int_eval() {
    let input = ["5;", "10"];
    let expected = [5, 10];

    for (input, expected) in input.iter().zip(expected) {
        assert_eq!(run(input), format!("{}", expected))
    }
}

#[test]
pub fn test_bool_eval() {
    let input = ["true;", "false"];
    let expected = [true, false];

    for (input, expected) in input.iter().zip(expected) {
        assert_eq!(run(input), format!("{}", expected))
    }
}

#[test]
pub fn test_prefix_operator_eval() {
    let input = ["!true", "!false", "!5", "!!true", "!!false", "!!5"];
    let expected = [false, true, false, true, false, true];

    for (input, expected) in input.iter().zip(expected) {
        assert_eq!(run(input), format!("{}", expected))
    }
}

#[test]
pub fn test_minus_operator() {
    let input = ["-1", "-14", "-12341234", "12341234", "-124234", "1234124"];
    let expected = [-1, -14, -12341234, 12341234, -124234, 1234124];

    for (input, expected) in input.iter().zip(expected) {
        assert_eq!(run(input), format!("{}", expected))
    }
}

#[test]
pub fn test_infix_operators() {
    let inputs_expected = [
        ("5", 5),
        ("10", 10),
        ("-5", -5),
        ("-10", -10),
        ("5 + 5 + 5 + 5 - 10)", 10),
        ("2 * 2 * 2 * 2 * 2", 32),
        (" - 50 + 100 + -50", 0),
        ("5 * 2 + 10", 20),
        ("5 + 2 * 10", 25),
        ("20 + 2 * -10", 0),
        ("50 / 2 * 2 + 10", 60),
        ("2 * (5 + 10)", 30),
        ("3 * 3 * 3 + 10", 37),
        ("3 * (3 * 3) + 10", 37),
        ("(5 + 10 * 2 + 15 / 3) * 2 + -10", 50),
    ];

    for (input, expected) in inputs_expected {
        assert_eq!(run(input), format!("{}", expected))
    }
}

#[test]
pub fn test_if_expression() {
    let inputs_expected = [
        ("if (true) { 10 }", "10"),
        ("if (false) { 10 }", "nil"),
        ("if (1) { 10 }", "10"),
        ("if (1 < 2) { 10 }", "10"),
        ("if (1 > 2) { 10 }", "nil"),
        ("if (1 > 2) { 10 } else { 20 }", "20"),
        ("if (1 < 2) { 10 } else { 20 }", "10"),
    ];

    for (input, expected) in inputs_expected {
        assert_eq!(run(input), format!("{}", expected))
    }
}

#[test]
fn tests_test_return_statements() {
    let inputs_expected = [
        ("return 10;", 10),
        ("return 10;", 10),
        ("return 10; 9;", 10),
        ("return 2 * 5; 9;", 10),
        ("9; return 2 * 5; 9;", 10),
        (
            r#"if (10 > 1) {
        if (10 > 1) {
        return 10;
        }
        129
        return 1;
        }"#,
            10,
        ),
    ];

    for (input, expected) in inputs_expected {
        assert_eq!(run(input), format!("{}", expected))
    }
}

#[test]
fn test_early_returns() {
    let inputs_expected = [
        (
            r#"if (10 > 1) {
                    if (10 > 1) {
                        return 10;
                    }
                    129;
                    return 1;
                }"#,
            10,
        ),
        (
            r#"
                if (5 > 2) {
                    if (10 > 1) {
                        if (3 > 1) {
                            return 15;
                        }
                        return 10;
                    }
                    return 5;
                }
                return 0;
                "#,
            15,
        ),
        (
            r#"
                if (5 < 2) {
                    return 1;
                } else {
                    if (10 > 5) {
                        return 2;
                    } else {
                        return 3;
                    }
                    return 4;  // This should never be reached
                }
                return 5;  // This should never be reached
                "#,
            2,
        ),
    ];

    for (input, expected) in inputs_expected {
        let lexer = Lexer::new(input);
        let mut parser = Parser::new(lexer);
        let program = parser.parse_program();

        assert!(program.is_some(), "Failed to parse program: {}", input);
        assert!(
            parser.errors().is_empty(),
            "Parser errors for input: {}",
            input
        );

        let mut program = program.unwrap();
        let actual = eval_program(&mut program);

        assert_eq!(
            actual.to_string(),
            format!("{}", expected),
            "Test failed for input:\n{}\nExpected {}, got {}",
            input,
            expected,
            actual.to_string()
        );
    }
}

#[test]
fn the_final_value_is_never_a_wrapped_one() {
    let lexer = Lexer::new("if (true) { return 7; } 8");
    let mut parser = Parser::new(lexer);
    let mut program = parser.parse_program().unwrap();
    let before = program.clone();
    assert_eq!(eval_program(&mut program), Object::Int(7));
    assert_eq!(program, before);
}

#[test]
fn a_return_of_a_returned_value_is_unwrapped_to_the_end() {
    let lexer = Lexer::new("return if (true) { return 1; };");
    let mut parser = Parser::new(lexer);
    let mut program = parser.parse_program().unwrap();
    assert!(parser.errors().is_empty());
    assert_eq!(
        eval(program.statements[0].clone()),
        Some(Object::ReturnValue(Box::new(Object::ReturnValue(Box::new(
            Object::Int(1)
        )))))
    );
    assert_eq!(eval_program(&mut program), Object::Int(1));
    assert_eq!(
        Object::ReturnValue(Box::new(Object::ReturnValue(Box::new(Object::Null))))
            .into_unwrapped(),
        Object::Null
    );
}

#[test]
fn a_statement_evaluates_to_a_wrapped_value_at_a_return() {
    let lexer = Lexer::new("return 2 * 5; if (1 < 2) { return 3; 4 }; { }");
    let mut parser = Parser::new(lexer);
    let program = parser.parse_program().unwrap();
    assert_eq!(
        eval(program.statements[0].clone()),
        Some(Object::ReturnValue(Box::new(Object::Int(10))))
    );
    assert_eq!(
        eval(program.statements[1].clone()),
        Some(Object::ReturnValue(Box::new(Object::Int(3))))
    );
}

#[test]
fn truthiness() {
    assert!(is_truthy(Object::Int(0)));
    assert!(is_truthy(Object::Int(5)));
    assert!(is_truthy(Object::Bool(true)));
    assert!(!is_truthy(Object::Bool(false)));
    assert!(!is_truthy(Object::Null));
    assert!(is_truthy(Object::ReturnValue(Box::new(Object::Null))));
}

#[test]
fn bang() {
    assert_eq!(eval_bang_operator_expression(Object::Bool(true)), Object::Bool(false));
    assert_eq!(eval_bang_operator_expression(Object::Bool(false)), Object::Bool(true));
    assert_eq!(eval_bang_operator_expression(Object::Int(0)), Object::Bool(false));
    assert_eq!(eval_bang_operator_expression(Object::Null), Object::Bool(true));
    assert_eq!(
        eval_bang_operator_expression(Object::ReturnValue(Box::new(Object::Int(1)))),
        Object::Null
    );
    assert_eq!(
        eval_bang_operator_expression(eval_bang_operator_expression(Object::Int(5))),
        Object::Bool(true)
    );
}

#[test]
fn minus() {
    assert_eq!(eval_minus_prefix_operator_expression(Object::Int(5)), Some(Object::Int(-5)));
    assert_eq!(
        eval_minus_prefix_operator_expression(Object::Int(i64::MAX)),
        Some(Object::Int(-i64::MAX))
    );
    assert_eq!(eval_minus_prefix_operator_expression(Object::Int(i64::MIN)), None);
    assert_eq!(eval_minus_prefix_operator_expression(Object::Bool(true)), None);
    assert_eq!(eval_minus_prefix_operator_expression(Object::Null), None);
}

#[test]
fn prefix_operators() {
    assert_eq!(eval_prefix_expression("-", Object::Int(3)), Some(Object::Int(-3)));
    assert_eq!(eval_prefix_expression("!", Object::Int(3)), Some(Object::Bool(false)));
    assert_eq!(eval_prefix_expression("+", Object::Int(3)), None);
    assert_eq!(eval_prefix_expression("", Object::Int(3)), None);
    assert_eq!(eval_prefix_expression("--", Object::Int(3)), None);
}

#[test]
fn integer_operators() {
    assert_eq!(eval_integer_infix_operation("+", 2, 3), Some(Object::Int(5)));
    assert_eq!(eval_integer_infix_operation("-", 2, 3), Some(Object::Int(-1)));
    assert_eq!(eval_integer_infix_operation("*", 2, 3), Some(Object::Int(6)));
    assert_eq!(eval_integer_infix_operation("/", 7, 2), Some(Object::Int(3)));
    assert_eq!(eval_integer_infix_operation("/", -7, 2), Some(Object::Int(-3)));
    assert_eq!(eval_integer_infix_operation("/", 7, -2), Some(Object::Int(-3)));
    assert_eq!(eval_integer_infix_operation("/", -7, -2), Some(Object::Int(3)));
    assert_eq!(eval_integer_infix_operation("<", 2, 3), Some(Object::Bool(true)));
    assert_eq!(eval_integer_infix_operation(">", 2, 3), Some(Object::Bool(false)));
    assert_eq!(eval_integer_infix_operation("==", 2, 3), Some(Object::Bool(false)));
    assert_eq!(eval_integer_infix_operation("!=", 2, 3), Some(Object::Bool(true)));
    assert_eq!(eval_integer_infix_operation("%", 2, 3), None);
    assert_eq!(eval_integer_infix_operation("=", 2, 3), None);
}

#[test]
fn arithmetic_out_of_range_has_no_result() {
    assert_eq!(eval_integer_infix_operation("+", i64::MAX, 1), None);
    assert_eq!(eval_integer_infix_operation("-", i64::MIN, 1), None);
    assert_eq!(eval_integer_infix_operation("*", i64::MAX, 2), None);
    assert_eq!(eval_integer_infix_operation("/", 1, 0), None);
    assert_eq!(eval_integer_infix_operation("/", i64::MIN, -1), None);
    assert_eq!(
        eval_integer_infix_operation("+", i64::MAX, 0),
        Some(Object::Int(i64::MAX))
    );
    assert_eq!(
        eval_integer_infix_operation("/", i64::MIN, 1),
        Some(Object::Int(i64::MIN))
    );
}

#[test]
fn infix_operators_need_two_integers() {
    assert_eq!(
        eval_infix_expression("+", Object::Int(1), Object::Int(2)),
        Some(Object::Int(3))
    );
    assert_eq!(eval_infix_expression("+", Object::Bool(true), Object::Int(2)), None);
    assert_eq!(eval_infix_expression("==", Object::Bool(true), Object::Bool(true)), None);
    assert_eq!(eval_infix_expression("+", Object::Int(2), Object::Null), None);
}

#[test]
fn what_cannot_be_evaluated_has_no_value() {
    for input in ["x", "let x = 5;", "fn (x) { x }", "f(1)", "-true", "1 + true", "-"] {
        let lexer = Lexer::new(input);
        let mut parser = Parser::new(lexer);
        let mut program = parser.parse_program().unwrap();
        assert_eq!(program.statements.len(), 1);
        assert_eq!(eval(program.statements[0].clone()), None, "{}", input);
        assert_eq!(eval_program(&mut program), Object::Null, "{}", input);
    }
}

#[test]
fn a_block_keeps_the_last_value_that_there_is() {
    assert_eq!(run("if (true) { 1; x; }"), "1");
    assert_eq!(run("if (true) { }"), "nil");
    assert_eq!(run("if (true) { x }"), "nil");
    assert_eq!(run("1; x"), "nil");
    assert_eq!(run(""), "nil");
}

#[test]
fn a_return_without_a_value_returns_nothing() {
    assert_eq!(run("return -true; 5"), "5");
    assert_eq!(run("if (true) { return x; 6 }"), "6");
}

#[test]
fn object_texts() {
    assert_eq!(Object::Int(0).to_string(), "0");
    assert_eq!(Object::Int(-120).to_string(), "-120");
    assert_eq!(Object::Int(i64::MAX).to_string(), "9223372036854775807");
    assert_eq!(Object::Int(i64::MIN).to_string(), "-9223372036854775808");
    assert_eq!(Object::Bool(true).to_string(), "true");
    assert_eq!(Object::Bool(false).to_string(), "false");
    assert_eq!(Object::Null.to_string(), "nil");
    assert_eq!(
        Object::ReturnValue(Box::new(Object::ReturnValue(Box::new(Object::Int(4))))).to_string(),
        "4"
    );
    assert_eq!(Object::Int(3).clone(), Object::Int(3));
}

#[test]
fn evaluation_by_reference_agrees() {
    let lexer = Lexer::new("if (2 > 1) { 1; return 2 + 3; 4 }");
    let mut parser = Parser::new(lexer);
    let program = parser.parse_program().unwrap();
    let wrapped = Some(Object::ReturnValue(Box::new(Object::Int(5))));
    assert_eq!(eval_statement(&program.statements[0]), wrapped);
    assert_eq!(eval(program.statements[0].clone()), wrapped);
    match &program.statements[0] {
        interpreter_book::ast::Statement::Expression(e) => {
            assert_eq!(eval_expression(e), wrapped);
            match e {
                interpreter_book::ast::Expression::If { consequence, .. } => {
                    match &**consequence {
                        interpreter_book::ast::Statement::Block { statements, .. } => {
                            assert_eq!(
                                eval_block_statement(statements),
                                Object::ReturnValue(Box::new(Object::Int(5)))
                            )
                        }
                        other => panic!("not a block: {:?}", other),
                    }
                }
                other => panic!("not an if: {:?}", other),
            }
        }
        other => panic!("not an expression: {:?}", other),
    }
}

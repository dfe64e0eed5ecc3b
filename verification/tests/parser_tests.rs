use interpreter_book::ast::{Expression, Node, Program, Statement};
use interpreter_book::lexer::Lexer;
use interpreter_book::parser::Parser;
use interpreter_book::precedence::Precedence;
use interpreter_book::token::TokenType;

fn parse(input: &str) -> (Option<Program>, Parser) {
    let lexer = Lexer::new(input);
    let mut parser = Parser::new(lexer);
    let program = parser.parse_program();
    (program, parser)
}

fn check_let_statements(owned: bool) {
    let input = "
        let x = 5;
        let y = 10;
        let foobar = 838383;
        ";
    let text = input.to_owned();
    let lexer = if owned { Lexer::new(&text) } else { Lexer::new(input) };
    let mut parser = Parser::new(lexer);
    let program = match parser.parse_program() {
        Some(program) => program,
        None => panic!("parse_program() returned None"),
    };

    assert_eq!(
        program.statements.len(),
        3,
        "program.statements does not contain 3 statements. got={}",
        program.statements.len()
    );

    let expected_identifiers = ["x", "y", "foobar"];

    for (stmt, &expected_identifier) in program.statements.iter().zip(&expected_identifiers) {
        if let Statement::Let { name, .. } = stmt {
            assert_eq!(
                name.value, expected_identifier,
                "let_stmt.name.value not '{}'. got={}",
                expected_identifier, name.value
            );
            assert_eq!(
                name.token_literal(),
                expected_identifier,
                "let_stmt.name.token_literal() not '{}'. got={}",
                expected_identifier,
                name.token_literal()
            );
        } else {
            panic!("stmt not a LetStatement. got={:?}", stmt);
        }
    }
}

#[test]
fn ast_test_let_statements() {
    check_let_statements(true);
}

#[test]
fn tests_test_let_statements() {
    check_let_statements(false);
}

fn check_return_statements() {
    let input = "
            return 5;
            return 121341;
            return 234124;
                ";

    let lexer = Lexer::new(input);
    let mut parser = Parser::new(lexer);
    let program = match parser.parse_program() {
        Some(program) => program,
        None => panic!("parse_program() returned None"),
    };

    assert_eq!(
        program.statements.len(),
        3,
        "program.statements does not contain 1 statements. got={}",
        program.statements.len()
    );

    for stmt in program.statements.iter() {
        if let Statement::Return { token, .. } = stmt {
            assert_eq!(
                token.literal,
                stmt.token_literal(),
                "let_stmt.name.value not '{}'. got={}",
                token.literal,
                stmt.token_literal(),
            );
        } else {
            panic!("stmt not a LetStatement. got={:?}", stmt);
        }
    }
}

#[test]
fn ast_test_return_statements() {
    check_return_statements();
}

#[test]
fn test_return_statements() {
    check_return_statements();
}

fn check_prefix_expression() {
    let input = "something;";
    let (program, parser) = parse(input);
    assert!(program.is_some());
    assert!(parser.errors().is_empty(), "Errors while parsing");
    assert_eq!(
        program.clone().unwrap().statements.len(),
        1,
        "Program statements should have 1 length"
    );
    let program = program.unwrap();

    assert_eq!(program.statements[0].token_literal(), "something")
}

#[test]
fn ast_test_prefix_expression() {
    check_prefix_expression();
}

#[test]
fn tests_test_prefix_expression() {
    check_prefix_expression();
}

fn check_prefix_expression_integer_literal() {
    let input = "5;";
    let (program, parser) = parse(input);
    assert!(program.is_some());
    assert!(parser.errors().is_empty(), "Errors while parsing");
    assert_eq!(
        program.clone().unwrap().statements.len(),
        1,
        "Program statements should have 1 length"
    );
    let program = program.unwrap();

    assert_eq!(program.statements[0].token_literal(), "5")
}

#[test]
fn ast_test_prefix_expression_integer_literal() {
    check_prefix_expression_integer_literal();
}

#[test]
fn tests_test_prefix_expression_integer_literal() {
    check_prefix_expression_integer_literal();
}

fn check_prefix_plus_and_minus() {
    let input = "+5;
        -20;
        ";
    let (program, parser) = parse(input);
    assert!(program.is_some());
    assert!(parser.errors().is_empty(), "Errors while parsing");
    assert_eq!(
        program.clone().unwrap().statements.len(),
        2,
        "Program statements should have 1 length"
    );
    let program = program.unwrap();
    let expected = [("+", "5"), ("-", "20")];

    for (stmt, &expected_identifier) in program.statements.iter().zip(&expected) {
        if let Statement::Expression(expression) = stmt {
            if let Expression::Prefix {
                token,
                operator,
                right,
            } = expression
            {
                println!("{}, {}, {:?}", token.to_string(), operator, right);
                assert_eq!(token.literal, expected_identifier.0);
                assert_eq!(operator, expected_identifier.0);
                assert_eq!(
                    right.clone().unwrap().token_literal(),
                    expected_identifier.1
                );
            }
        } else {
            panic!("stmt not a LetStatement. got={:?}", stmt);
        }
    }
}

#[test]
fn ast_test_prefix_plus_and_minus() {
    check_prefix_plus_and_minus();
}

#[test]
fn tests_test_prefix_plus_and_minus() {
    check_prefix_plus_and_minus();
}

fn check_infix_expressions() {
    let input = "
                5 + 7;
                5 - 7;
                5 * 7;
                5 / 7;
                5 > 7;
                5 < 7;
                5 == 7;
                5 != 7;
                ";
    let (program, parser) = parse(input);
    assert!(program.is_some());
    assert!(parser.errors().is_empty(), "Errors while parsing");
    assert_eq!(
        program.clone().unwrap().statements.len(),
        8,
        "Program statements should have 8 length"
    );
    let program = program.unwrap();
    let expected = [
        "(5 + 7)", "(5 - 7)", "(5 * 7)", "(5 / 7)", "(5 > 7)", "(5 < 7)", "(5 == 7)", "(5 != 7)",
    ];

    for (stmt, &expected_identifier) in program.statements.iter().zip(&expected) {
        if let Statement::Expression(expression) = stmt {
            if let Expression::Infix { .. } = expression {
                assert_eq!(
                    expression.to_string().as_str(),
                    expected_identifier.to_owned()
                )
            } else {
                panic!("no infix expressions");
            }
        } else {
            panic!("stmt not a LetStatement. got={:?}", stmt);
        }
    }
}

#[test]
fn ast_test_infix_expressions() {
    check_infix_expressions();
}

#[test]
fn tests_test_infix_expressions() {
    check_infix_expressions();
}

fn check_operator_precedence() {
    let input = "
                5 * 5 * 2 + 10 * 5 - 2;
                ";

    let (program, parser) = parse(input);
    assert!(program.is_some());
    assert!(parser.errors().is_empty(), "Errors while parsing");
    assert_eq!(
        program.clone().unwrap().statements.len(),
        1,
        "Program statements should have 1 length"
    );

    let program = program.unwrap();
    if let Statement::Expression(expression) = &program.statements[0] {
        assert_eq!(expression.to_string(), "((((5 * 5) * 2) + (10 * 5)) - 2)")
    } else {
        panic!("no expression statement");
    }
}

#[test]
fn ast_test_operator_precedence() {
    check_operator_precedence();
}

#[test]
fn tests_test_operator_precedence() {
    check_operator_precedence();
}

fn check_operator_precedence_with_braces() {
    let input = "
                (5 * 5 * 2 + (10 / 2)) + (10 * 5 - 2);
                ";

    let (program, parser) = parse(input);
    assert!(program.is_some());
    assert!(parser.errors().is_empty(), "Errors while parsing");
    assert_eq!(
        program.clone().unwrap().statements.len(),
        1,
        "Program statements should have 1 length"
    );

    let program = program.unwrap();
    if let Statement::Expression(expression) = &program.statements[0] {
        assert_eq!(
            expression.to_string(),
            "((((5 * 5) * 2) + (10 / 2)) + ((10 * 5) - 2))"
        )
    } else {
        panic!("no expression statement");
    }
}

#[test]
fn ast_test_operator_precedence_with_braces() {
    check_operator_precedence_with_braces();
}

#[test]
fn tests_test_operator_precedence_with_braces() {
    check_operator_precedence_with_braces();
}

fn check_parse_if_expression() {
    let input = "
            if (x < 5) { 2 + 2; }
                ";

    let (program, parser) = parse(input);
    assert!(program.is_some());
    assert!(parser.errors().is_empty(), "Errors while parsing");
    assert_eq!(
        program.clone().unwrap().statements.len(),
        1,
        "Program statements should have 1 length"
    );

    let program = program.unwrap();
    assert_eq!(
        program.statements[0].to_string(),
        "if (x < 5) { (2 + 2) }"
    )
}

#[test]
fn ast_test_parse_if_expression() {
    check_parse_if_expression();
}

#[test]
fn tests_test_parse_if_expression() {
    check_parse_if_expression();
}

fn check_texts(input_string: &str, expected: &[&str], count_message: &str) {
    let (program, parser) = parse(input_string);
    assert!(program.is_some());
    assert!(parser.errors().is_empty(), "Errors while parsing");
    assert_eq!(
        program.clone().unwrap().statements.len(),
        expected.len(),
        "{}",
        count_message
    );

    let program = program.unwrap();
    for (statement, expected_output) in program.statements.iter().zip(expected) {
        assert_eq!(statement.to_string(), expected_output.to_string())
    }
}

#[test]
fn test_function_literal() {
    let input = ["fn (x , y) { x + y; }", "fn (x) {}"];
    let expected = ["fn (x , y) { (x + y) }", "fn (x) {  }"];
    let input_string = input.join("\n");
    check_texts(&input_string, &expected, "Program statements should have 2 length");
}

#[test]
fn test_function_call() {
    let input = [
        "a + add(b * c) + d",
        "add(a, b, 1, 2 * 3, 4 + 5, add(6, 7 * 8))",
        "add(a + b + c * d / f + g)",
    ];
    let expected = [
        "((a + add((b * c))) + d)",
        "add(a, b, 1, (2 * 3), (4 + 5), add(6, (7 * 8)))",
        "add((((a + b) + ((c * d) / f)) + g))",
    ];
    let input_string = input.join("\n");
    check_texts(&input_string, &expected, "Program statements should have 2 length");
}

#[test]
fn test_boolean_expression() {
    let input = [
        "true",
        "false",
        "3 < 5 == true",
        "3 > 5 == false",
        "true == true",
        "false == false",
        "true != false",
        "!true",
        "!false",
    ];
    let expected = [
        "true",
        "false",
        "((3 < 5) == true)",
        "((3 > 5) == false)",
        "(true == true)",
        "(false == false)",
        "(true != false)",
        "!true",
        "!false",
    ];
    let input_string = input.join("\n");
    check_texts(&input_string, &expected, "Program statements did not match");
}

#[test]
fn test_boolean_precedence_expression() {
    let input = [
        "1 + (2 + 3) + 4",
        "(5 + 5) * 2",
        "2 / (5 + 5)",
        "-(5 + 5)",
        "!(true == true)",
    ];
    let expected = [
        "((1 + (2 + 3)) + 4)",
        "((5 + 5) * 2)",
        "(2 / (5 + 5))",
        "-(5 + 5)",
        "!(true == true)",
    ];
    let input_string = input.join(";");
    check_texts(&input_string, &expected, "Program statements did not match");
}

#[test]
fn test_let_and_return_statements() {
    let input = [
        "return x + 2;",
        "let x = 2",
        "let y = false",
        "return true",
        "return 1 / 2",
    ];
    let expected = [
        "return (x + 2);",
        "let x = 2;",
        "let y = false;",
        "return true;",
        "return (1 / 2);",
    ];
    let input_string = input.join(";");
    check_texts(&input_string, &expected, "Program statements did not match");
}

#[test]
fn grouping_overrides_precedence() {
    check_texts("(5 + 5) * 2", &["((5 + 5) * 2)"], "one statement");
    check_texts("5 + 5 * 2", &["(5 + (5 * 2))"], "one statement");
}

#[test]
fn let_and_return_print_as_written() {
    check_texts("let x = 5;", &["let x = 5;"], "one statement");
    check_texts("return 5;", &["return 5;"], "one statement");
}

#[test]
fn operators_of_one_level_group_to_the_left() {
    check_texts("a - b - c", &["((a - b) - c)"], "one statement");
    check_texts("a / b * c", &["((a / b) * c)"], "one statement");
    check_texts("a == b != c", &["((a == b) != c)"], "one statement");
    check_texts("-a * b", &["(-a * b)"], "one statement");
    check_texts("!-a", &["!-a"], "one statement");
    check_texts("a + b * c == d < e", &["((a + (b * c)) == (d < e))"], "one statement");
}

#[test]
fn if_with_else_is_parsed_as_one_expression() {
    check_texts(
        "if (x < y) { x } else { y; 1 }",
        &["if (x < y) { x } else { y1 }"],
        "one statement",
    );
    let (program, _) = parse("if (a) { b } else { c }");
    let program = program.unwrap();
    match &program.statements[0] {
        Statement::Expression(Expression::If { alternative, .. }) => {
            assert!(alternative.is_some())
        }
        other => panic!("not an if expression: {:?}", other),
    }
}

#[test]
fn missing_tokens_leave_diagnostics_and_parsing_goes_on() {
    let (program, parser) = parse("let = 5; let y 7; let z = 3; (1 + 2; if x { 1 }");
    let program = program.unwrap();
    let errors = parser.errors();
    assert_eq!(
        errors,
        vec![
            "expected next token to be Ident, got Assign instead".to_string(),
            "expected next token to be Assign, got Int instead".to_string(),
            "expected next token to be RParen, got Semicolon instead".to_string(),
            "expected next token to be LParen, got Ident instead".to_string(),
        ]
    );
    let texts: Vec<String> = program.statements.iter().map(|s| s.to_string()).collect();
    assert_eq!(texts, vec!["5", "7", "let z = 3;", "x", "1"]);
}

#[test]
fn an_integer_out_of_range_leaves_a_diagnostic() {
    let (program, parser) = parse("9223372036854775807; 9223372036854775808; 007");
    let program = program.unwrap();
    assert_eq!(
        parser.errors(),
        vec!["Could not parse 9223372036854775808 as integer".to_string()]
    );
    assert_eq!(program.statements.len(), 2);
    match &program.statements[0] {
        Statement::Expression(Expression::Integer { value, .. }) => {
            assert_eq!(*value, 9223372036854775807)
        }
        other => panic!("not an integer: {:?}", other),
    }
    match &program.statements[1] {
        Statement::Expression(Expression::Integer { value, token }) => {
            assert_eq!(*value, 7);
            assert_eq!(token.literal, "007");
        }
        other => panic!("not an integer: {:?}", other),
    }
}

#[test]
fn an_unclosed_block_runs_to_the_end_of_the_input() {
    let (program, parser) = parse("if (x) { 1; 2; 3");
    let program = program.unwrap();
    assert!(parser.errors().is_empty());
    assert_eq!(program.statements.len(), 1);
    assert_eq!(program.statements[0].to_string(), "if x { 123 }");
}

#[test]
fn a_prefix_without_operand_is_kept_as_a_placeholder() {
    let (program, parser) = parse("-");
    let program = program.unwrap();
    assert!(parser.errors().is_empty());
    assert_eq!(program.statements.len(), 1);
    assert_eq!(program.statements[0].to_string(), "(-None)");
    match &program.statements[0] {
        Statement::Expression(Expression::Prefix { right, .. }) => assert!(right.is_none()),
        other => panic!("not a prefix expression: {:?}", other),
    }
}

#[test]
fn an_operator_without_right_operand_leaves_the_left_one() {
    let (program, parser) = parse("1 + ; 2");
    let program = program.unwrap();
    assert!(parser.errors().is_empty());
    let texts: Vec<String> = program.statements.iter().map(|s| s.to_string()).collect();
    assert_eq!(texts, vec!["1", "2"]);
}

#[test]
fn empty_argument_list_and_empty_parameter_list() {
    check_texts("f()", &["f()"], "one statement");
    check_texts("fn () { 1 }", &["fn () { 1 }"], "one statement");
    let (program, _) = parse("f()");
    match &program.unwrap().statements[0] {
        Statement::Expression(Expression::Call { arguments, .. }) => assert!(arguments.is_none()),
        other => panic!("not a call: {:?}", other),
    }
}

#[test]
fn empty_program() {
    let (program, parser) = parse("   ");
    assert_eq!(program.unwrap().statements.len(), 0);
    assert!(parser.errors().is_empty());
    assert_eq!(Program::new().statements.len(), 0);
    assert_eq!(Program::default().statements.len(), 0);
}

#[test]
fn lookahead_queries() {
    let mut parser = Parser::new(Lexer::new("1 * 2"));
    assert!(parser.curr_token_is(TokenType::Int));
    assert!(parser.peek_token_is(TokenType::Asterisk));
    assert_eq!(parser.curr_precedence(), Precedence::Lowest);
    assert_eq!(parser.peek_precedence(), Precedence::Product);
    assert!(!parser.expect_peek(TokenType::Plus));
    assert!(parser.expect_peek(TokenType::Asterisk));
    parser.next_token();
    assert!(parser.curr_token_is(TokenType::Int));
    assert!(parser.peek_token_is(TokenType::Eof));
    assert_eq!(
        parser.errors(),
        vec!["expected next token to be Plus, got Asterisk instead".to_string()]
    );
    assert!(Precedence::Lowest < Precedence::Equals);
    assert!(Precedence::Equals < Precedence::LessGreater);
    assert!(Precedence::LessGreater < Precedence::Sum);
    assert!(Precedence::Sum < Precedence::Product);
    assert!(Precedence::Product < Precedence::Prefix);
    assert!(Precedence::Prefix < Precedence::Call);
    assert_eq!(Precedence::Lowest.level(), 1);
    assert_eq!(Precedence::Call.level(), 7);
}

#[test]
fn a_copy_of_a_tree_is_equal_to_it() {
    let (program, _) = parse("let f = fn (a, b) { if (a < b) { return add(a, -b); } else { !a } };");
    let program = program.unwrap();
    let copy = program.clone();
    assert_eq!(program, copy);
    assert_eq!(program.statements[0].to_string(), copy.statements[0].to_string());
}

#[test]
fn a_printed_tree_parses_to_itself() {
    for input in [
        "((((5 * 5) * 2) + (10 * 5)) - 2)",
        "(-a + !(b == (true != false)))",
        "--007",
        "((a < b) > (c / _d1))",
        "let total = ((1 + 2) * -x);",
        "return !(a == b);",
    ] {
        let (program, parser) = parse(input);
        let program = program.unwrap();
        assert!(parser.errors().is_empty());
        assert_eq!(program.statements.len(), 1);
        assert_eq!(program.statements[0].to_string(), input);
        let (again, _) = parse(&program.statements[0].to_string());
        assert_eq!(again.unwrap(), program);
    }
}

#[test]
fn a_node_shows_its_text_on_lines() {
    let (program, _) = parse("let x = 1 + 2; x * 3");
    let program = program.unwrap();
    assert_eq!(
        Node::Statement(program.statements[0].clone()).to_string(),
        "let\n"
    );
    assert_eq!(
        Node::Statement(program.statements[1].clone()).to_string(),
        "(x * 3)\n"
    );
    match &program.statements[1] {
        Statement::Expression(e) => {
            assert_eq!(Node::Expression(e.clone()).to_string(), "(x * 3)\n")
        }
        other => panic!("not an expression: {:?}", other),
    }
    assert_eq!(
        Node::Program(program).to_string(),
        "let x = (1 + 2);\n(x * 3)\n"
    );
}

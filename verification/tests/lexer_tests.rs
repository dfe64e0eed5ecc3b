use interpreter_book::lexer::Lexer;
use interpreter_book::token::TokenType;

fn sample_input() -> &'static str {
    "let five = 5;
let ten = 10;
let add = fn(x, y) {
x + y;
};
let result = add(five, ten);
!-/*5;
5 < 10 > 5;
if (5 < 10) {
return true;
} else {
return false;
}
if (x == 2) {
return true;
}"
}

fn sample_tokens() -> Vec<(TokenType, &'static str)> {
    vec![
        (TokenType::Let, "let"),
        (TokenType::Ident, "five"),
        (TokenType::Assign, "="),
        (TokenType::Int, "5"),
        (TokenType::Semicolon, ";"),
        (TokenType::Let, "let"),
        (TokenType::Ident, "ten"),
        (TokenType::Assign, "="),
        (TokenType::Int, "10"),
        (TokenType::Semicolon, ";"),
        (TokenType::Let, "let"),
        (TokenType::Ident, "add"),
        (TokenType::Assign, "="),
        (TokenType::Function, "fn"),
        (TokenType::LParen, "("),
        (TokenType::Ident, "x"),
        (TokenType::Comma, ","),
        (TokenType::Ident, "y"),
        (TokenType::RParen, ")"),
        (TokenType::LBrace, "{"),
        (TokenType::Ident, "x"),
        (TokenType::Plus, "+"),
        (TokenType::Ident, "y"),
        (TokenType::Semicolon, ";"),
        (TokenType::RBrace, "}"),
        (TokenType::Semicolon, ";"),
        (TokenType::Let, "let"),
        (TokenType::Ident, "result"),
        (TokenType::Assign, "="),
        (TokenType::Ident, "add"),
        (TokenType::LParen, "("),
        (TokenType::Ident, "five"),
        (TokenType::Comma, ","),
        (TokenType::Ident, "ten"),
        (TokenType::RParen, ")"),
        (TokenType::Semicolon, ";"),
        (TokenType::Bang, "!"),
        (TokenType::Minus, "-"),
        (TokenType::Slash, "/"),
        (TokenType::Asterisk, "*"),
        (TokenType::Int, "5"),
        (TokenType::Semicolon, ";"),
        (TokenType::Int, "5"),
        (TokenType::Lt, "<"),
        (TokenType::Int, "10"),
        (TokenType::Gt, ">"),
        (TokenType::Int, "5"),
        (TokenType::Semicolon, ";"),
        (TokenType::If, "if"),
        (TokenType::LParen, "("),
        (TokenType::Int, "5"),
        (TokenType::Lt, "<"),
        (TokenType::Int, "10"),
        (TokenType::RParen, ")"),
        (TokenType::LBrace, "{"),
        (TokenType::Return, "return"),
        (TokenType::True, "true"),
        (TokenType::Semicolon, ";"),
        (TokenType::RBrace, "}"),
        (TokenType::Else, "else"),
        (TokenType::LBrace, "{"),
        (TokenType::Return, "return"),
        (TokenType::False, "false"),
        (TokenType::Semicolon, ";"),
        (TokenType::RBrace, "}"),
        (TokenType::If, "if"),
        (TokenType::LParen, "("),
        (TokenType::Ident, "x"),
        (TokenType::Eq, "=="),
        (TokenType::Int, "2"),
        (TokenType::RParen, ")"),
        (TokenType::LBrace, "{"),
        (TokenType::Return, "return"),
        (TokenType::True, "true"),
        (TokenType::Semicolon, ";"),
        (TokenType::RBrace, "}"),
        (TokenType::Eof, ""),
    ]
}

fn check_tokens(input: &str, tests: &[(TokenType, &str)]) {
    let mut lexer = Lexer::new(input);
    for (i, (expected_type, expected_literal)) in tests.iter().enumerate() {
        let token = lexer.next_token();
        assert_eq!(
            &token.token_type, expected_type,
            "tests[{}] - token type wrong. expected={:?}, got={:?}",
            i, expected_type, token
        );
        assert_eq!(
            &token.literal, expected_literal,
            "tests[{}] - literal wrong. expected={}, got={}",
            i, expected_literal, token.literal
        );
    }
}

#[test]
fn lexer_test_next_token() {
    let input = sample_input().to_owned();
    check_tokens(&input, &sample_tokens());
}

#[test]
fn tests_test_next_token() {
    check_tokens(sample_input(), &sample_tokens());
}

#[test]
fn test_next_token() {
    let input = "=+(){},;";
    let tests = vec![
        (TokenType::Assign, "="),
        (TokenType::Plus, "+"),
        (TokenType::LParen, "("),
        (TokenType::RParen, ")"),
        (TokenType::LBrace, "{"),
        (TokenType::RBrace, "}"),
        (TokenType::Comma, ","),
        (TokenType::Semicolon, ";"),
        (TokenType::Eof, ""),
    ];
    let mut lexer = Lexer::new(input);
    for (i, (expected_type, expected_literal)) in tests.iter().enumerate() {
        let token = lexer.next_token();
        println!("{:?}", token);
        assert_eq!(
            &token.token_type, expected_type,
            "tests[{}] - token type wrong. expected={:?}, got={:?}",
            i, expected_type, token
        );
        assert_eq!(
            &token.literal, expected_literal,
            "tests[{}] - literal wrong. expected={}, got={}",
            i, expected_literal, token.literal
        );
    }
}

#[test]
fn test_new_lexer() {
    let input = "let five = 5;
    let ten = 10;
    let array = [1,2,3,4,5,,];
    let add = fn(x, y) {
    x + y;
    };
    let result = add(five, ten);
    !-/*5;
    5 < 10 > 5;
    if (5 < 10) {
    return true;
    } else {
    return false;
    }
    if (x == 2) {
    return true;
    }";
    let mut lexer = Lexer::new(input);
    loop {
        let token = lexer.next_token();
        if token.token_type == TokenType::Eof {
            break;
        }
        println!("{}", token.to_string());
    }
}

#[test]
fn eof_is_yielded_again_and_again() {
    let mut lexer = Lexer::new("x  \n");
    assert_eq!(lexer.next_token().token_type, TokenType::Ident);
    for _ in 0..5 {
        let token = lexer.next_token();
        assert_eq!(token.token_type, TokenType::Eof);
        assert_eq!(token.literal, "");
    }
}

#[test]
fn empty_input_is_eof() {
    let mut lexer = Lexer::new("");
    let token = lexer.next_token();
    assert_eq!(token.token_type, TokenType::Eof);
    assert_eq!(token.literal, "");
    assert_eq!(lexer.next_token().token_type, TokenType::Eof);
}

#[test]
fn one_or_two_character_operators() {
    check_tokens(
        "= == ! != =! !== ===",
        &[
            (TokenType::Assign, "="),
            (TokenType::Eq, "=="),
            (TokenType::Bang, "!"),
            (TokenType::NotEq, "!="),
            (TokenType::Assign, "="),
            (TokenType::Bang, "!"),
            (TokenType::NotEq, "!="),
            (TokenType::Assign, "="),
            (TokenType::Eq, "=="),
            (TokenType::Assign, "="),
            (TokenType::Eof, ""),
        ],
    );
}

#[test]
fn illegal_characters_are_reported_one_by_one() {
    check_tokens(
        "a @ # b \u{e9}\u{0}c",
        &[
            (TokenType::Ident, "a"),
            (TokenType::Illegal, "@"),
            (TokenType::Illegal, "#"),
            (TokenType::Ident, "b"),
            (TokenType::Illegal, "\u{e9}"),
            (TokenType::Illegal, "\u{0}"),
            (TokenType::Ident, "c"),
            (TokenType::Eof, ""),
        ],
    );
}

#[test]
fn identifiers_take_letters_digits_and_underscores() {
    check_tokens(
        "_x1 foo_bar2 9lives let1 fn",
        &[
            (TokenType::Ident, "_x1"),
            (TokenType::Ident, "foo_bar2"),
            (TokenType::Int, "9"),
            (TokenType::Ident, "lives"),
            (TokenType::Ident, "let1"),
            (TokenType::Function, "fn"),
            (TokenType::Eof, ""),
        ],
    );
}

#[test]
fn whitespace_is_space_tab_cr_lf() {
    check_tokens(
        " \t\r\n1\u{b}2",
        &[
            (TokenType::Int, "1"),
            (TokenType::Illegal, "\u{b}"),
            (TokenType::Int, "2"),
            (TokenType::Eof, ""),
        ],
    );
}

#[test]
fn token_texts() {
    assert_eq!(TokenType::Assign.to_string(), "=");
    assert_eq!(TokenType::Function.to_string(), "function");
    assert_eq!(TokenType::NotSet.to_string(), "notSet");
    assert_eq!(TokenType::NotEq.name(), "NotEq");
    let mut lexer = Lexer::new("five");
    assert_eq!(lexer.next_token().to_string(), "TokenType : Ident Literal : five");
}

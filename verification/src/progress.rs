use crate::ast::{ExpressionView, IdentifierView, StatementView};
use crate::grammar::{
    expect_peek, extend_expression, more_arguments, more_parameters, more_program,
    more_statements, parse_block_statement, parse_call_arguments, parse_call_expression,
    parse_expression, parse_expression_infix, parse_expression_prefix, parse_function_literal,
    parse_function_parameters, parse_grouped_expression, parse_if_expression,
    parse_infix_expression, parse_prefix_expression, parse_statement, precedence_of, rank_at,
    token_at, tokens_left, Cursor,
};
use crate::precedence::Precedence;
use crate::token::{TokenType, TokenView};
use vstd::prelude::*;

verus! {

/// From `c` to `d` the parser has not stepped back and has lost no
/// diagnostic: those of `c` are the first of `d`, in their order.
pub open spec fn keeps(c: Cursor, d: Cursor) -> bool {
    &&& c.index <= d.index
    &&& c.errors.len() <= d.errors.len()
    &&& forall|i: int| 0 <= i < c.errors.len() ==> c.errors[i] == d.errors[i]
}

/// Where the parser has not stepped back, the guard against stepping back
/// changes nothing.
pub proof fn lemma_not_before(c: Cursor, d: Cursor)
    requires
        keeps(c, d),
    ensures
        d.not_before(c.index) == d,
{
}

/// Expecting a token keeps the place and the diagnostics.
pub proof fn lemma_expect_peek_keeps(tokens: Seq<TokenView>, c: Cursor, kind: TokenType)
    ensures
        keeps(c, expect_peek(tokens, c, kind).1),
{
}

/// Reading more parameters keeps the place and the diagnostics.
pub proof fn lemma_more_parameters_keeps(
    tokens: Seq<TokenView>,
    c: Cursor,
    found: Seq<IdentifierView>,
)
    ensures
        keeps(c, more_parameters(tokens, c, found).1),
    decreases tokens_left(tokens, c.index),
{
    if c.peek(tokens) == TokenType::Comma {
        let next = c.advance().advance();
        lemma_more_parameters_keeps(
            tokens,
            next,
            found.push(crate::grammar::identifier_at(tokens, next)),
        );
    }
}

/// Reading a parameter list keeps the place and the diagnostics.
pub proof fn lemma_parse_function_parameters_keeps(tokens: Seq<TokenView>, c: Cursor)
    ensures
        keeps(c, parse_function_parameters(tokens, c).1),
{
    if c.peek(tokens) != TokenType::RParen {
        let first = c.advance();
        lemma_more_parameters_keeps(
            tokens,
            first,
            seq![crate::grammar::identifier_at(tokens, first)],
        );
    }
}

/// Parsing an expression keeps the place and the diagnostics.
pub proof fn lemma_parse_expression_keeps(
    tokens: Seq<TokenView>,
    c: Cursor,
    precedence: Precedence,
)
    ensures
        keeps(c, parse_expression(tokens, c, precedence).1),
    decreases tokens_left(tokens, c.index), 6nat,
{
    lemma_parse_expression_prefix_keeps(tokens, c);
    let (first, after) = parse_expression_prefix(tokens, c);
    if let Some(left) = first {
        lemma_extend_expression_keeps(tokens, after, precedence, left);
    }
}

/// Folding operators into an expression keeps the place and the
/// diagnostics.
pub proof fn lemma_extend_expression_keeps(
    tokens: Seq<TokenView>,
    c: Cursor,
    precedence: Precedence,
    left: ExpressionView,
)
    ensures
        keeps(c, extend_expression(tokens, c, precedence, left).1),
    decreases tokens_left(tokens, c.index), 3nat,
{
    if c.peek(tokens) != TokenType::Semicolon && precedence.rank() < precedence_of(
        c.peek(tokens),
    ).rank() {
        let at_operator = c.advance();
        lemma_parse_expression_infix_keeps(tokens, at_operator, left);
        let (folded, after) = parse_expression_infix(tokens, at_operator, left);
        let next = match folded {
            Some(e) => e,
            None => left,
        };
        lemma_extend_expression_keeps(tokens, after, precedence, next);
    }
}

/// The rule for the start of an expression keeps the place and the
/// diagnostics.
pub proof fn lemma_parse_expression_prefix_keeps(tokens: Seq<TokenView>, c: Cursor)
    ensures
        keeps(c, parse_expression_prefix(tokens, c).1),
    decreases tokens_left(tokens, c.index), 5nat,
{
    match token_at(tokens, c.index).token_type {
        TokenType::Minus | TokenType::Bang => lemma_parse_prefix_expression_keeps(tokens, c),
        TokenType::LParen => lemma_parse_grouped_expression_keeps(tokens, c),
        TokenType::If => lemma_parse_if_expression_keeps(tokens, c),
        TokenType::Function => lemma_parse_function_literal_keeps(tokens, c),
        _ => {},
    }
}

/// The rule for an operator or a call keeps the place and the diagnostics.
pub proof fn lemma_parse_expression_infix_keeps(
    tokens: Seq<TokenView>,
    c: Cursor,
    left: ExpressionView,
)
    ensures
        keeps(c, parse_expression_infix(tokens, c, left).1),
    decreases tokens_left(tokens, c.index), 3nat,
{
    match c.current(tokens) {
        TokenType::Eq
        | TokenType::NotEq
        | TokenType::Minus
        | TokenType::Plus
        | TokenType::Asterisk
        | TokenType::Slash
        | TokenType::Gt
        | TokenType::Lt => lemma_parse_infix_expression_keeps(tokens, c, left),
        TokenType::LParen => lemma_parse_call_expression_keeps(tokens, c, left),
        _ => {},
    }
}

/// Parsing a prefix operator with its operand keeps the place and the
/// diagnostics.
pub proof fn lemma_parse_prefix_expression_keeps(tokens: Seq<TokenView>, c: Cursor)
    ensures
        keeps(c, parse_prefix_expression(tokens, c).1),
    decreases tokens_left(tokens, c.index), rank_at(tokens, c.index, 4),
{
    lemma_parse_expression_keeps(tokens, c.advance(), Precedence::Prefix);
}

/// Parsing an infix operator with its right operand keeps the place and the
/// diagnostics.
pub proof fn lemma_parse_infix_expression_keeps(
    tokens: Seq<TokenView>,
    c: Cursor,
    left: ExpressionView,
)
    ensures
        keeps(c, parse_infix_expression(tokens, c, left).1),
    decreases tokens_left(tokens, c.index), rank_at(tokens, c.index, 1),
{
    lemma_parse_expression_keeps(
        tokens,
        c.advance(),
        precedence_of(token_at(tokens, c.index).token_type),
    );
}

/// Parsing a group keeps the place and the diagnostics.
pub proof fn lemma_parse_grouped_expression_keeps(tokens: Seq<TokenView>, c: Cursor)
    ensures
        keeps(c, parse_grouped_expression(tokens, c).1),
    decreases tokens_left(tokens, c.index), rank_at(tokens, c.index, 4),
{
    lemma_parse_expression_keeps(tokens, c.advance(), Precedence::Lowest);
}

/// Parsing an `if` keeps the place and the diagnostics.
pub proof fn lemma_parse_if_expression_keeps(tokens: Seq<TokenView>, c: Cursor)
    ensures
        keeps(c, parse_if_expression(tokens, c).1),
    decreases tokens_left(tokens, c.index), 4nat,
{
    let (opened, c1) = expect_peek(tokens, c, TokenType::LParen);
    if opened {
        lemma_parse_expression_keeps(tokens, c1.advance(), Precedence::Lowest);
        let (found, c2) = parse_expression(tokens, c1.advance(), Precedence::Lowest);
        if found is Some {
            let c3 = c2.not_before(c1.index + 1);
            let (closed, c4) = expect_peek(tokens, c3, TokenType::RParen);
            if closed {
                let (braced, c5) = expect_peek(tokens, c4, TokenType::LBrace);
                if braced {
                    lemma_parse_block_statement_keeps(tokens, c5);
                    let (consequence, c6) = parse_block_statement(tokens, c5);
                    let c7 = c6.not_before(c5.index);
                    if c7.peek(tokens) == TokenType::Else {
                        let (braced_again, c8) = expect_peek(
                            tokens,
                            c7.advance(),
                            TokenType::LBrace,
                        );
                        if braced_again {
                            lemma_parse_block_statement_keeps(tokens, c8);
                        }
                    }
                }
            }
        }
    }
}

/// Parsing a function literal keeps the place and the diagnostics.
pub proof fn lemma_parse_function_literal_keeps(tokens: Seq<TokenView>, c: Cursor)
    ensures
        keeps(c, parse_function_literal(tokens, c).1),
    decreases tokens_left(tokens, c.index), 4nat,
{
    let (opened, c1) = expect_peek(tokens, c, TokenType::LParen);
    if opened {
        lemma_parse_function_parameters_keeps(tokens, c1);
        let (found, c2) = parse_function_parameters(tokens, c1);
        if found is Some {
            let (braced, c3) = expect_peek(tokens, c2.not_before(c1.index), TokenType::LBrace);
            if braced {
                lemma_parse_block_statement_keeps(tokens, c3);
            }
        }
    }
}

/// Parsing a call keeps the place and the diagnostics.
pub proof fn lemma_parse_call_expression_keeps(
    tokens: Seq<TokenView>,
    c: Cursor,
    function: ExpressionView,
)
    ensures
        keeps(c, parse_call_expression(tokens, c, function).1),
    decreases tokens_left(tokens, c.index), rank_at(tokens, c.index, 2),
{
    lemma_parse_call_arguments_keeps(tokens, c);
}

/// Parsing the arguments of a call keeps the place and the diagnostics.
pub proof fn lemma_parse_call_arguments_keeps(tokens: Seq<TokenView>, c: Cursor)
    ensures
        keeps(c, parse_call_arguments(tokens, c).1),
    decreases tokens_left(tokens, c.index), rank_at(tokens, c.index, 0),
{
    if c.peek(tokens) != TokenType::RParen {
        lemma_parse_expression_keeps(tokens, c.advance(), Precedence::Lowest);
        let (found, c1) = parse_expression(tokens, c.advance(), Precedence::Lowest);
        if let Some(first) = found {
            lemma_more_arguments_keeps(tokens, c1.not_before(c.index + 1), seq![first]);
        }
    }
}

/// Reading more arguments keeps the place and the diagnostics.
pub proof fn lemma_more_arguments_keeps(
    tokens: Seq<TokenView>,
    c: Cursor,
    found: Seq<ExpressionView>,
)
    ensures
        keeps(c, more_arguments(tokens, c, found).1),
    decreases tokens_left(tokens, c.index), 0nat,
{
    if c.peek(tokens) == TokenType::Comma {
        let start = c.advance().advance();
        lemma_parse_expression_keeps(tokens, start, Precedence::Lowest);
        let (parsed, after) = parse_expression(tokens, start, Precedence::Lowest);
        if let Some(e) = parsed {
            lemma_more_arguments_keeps(tokens, after.not_before(start.index), found.push(e));
        }
    }
}

/// Parsing a block keeps the place and the diagnostics.
pub proof fn lemma_parse_block_statement_keeps(tokens: Seq<TokenView>, c: Cursor)
    ensures
        keeps(c, parse_block_statement(tokens, c).1),
    decreases tokens_left(tokens, c.index), rank_at(tokens, c.index, 4),
{
    lemma_more_statements_keeps(tokens, c.advance(), Seq::empty());
}

/// Reading the statements of a block keeps the place and the diagnostics.
pub proof fn lemma_more_statements_keeps(
    tokens: Seq<TokenView>,
    c: Cursor,
    found: Seq<StatementView>,
)
    ensures
        keeps(c, more_statements(tokens, c, found).1),
    decreases tokens_left(tokens, c.index), 9nat,
{
    if !(c.current(tokens) == TokenType::RBrace || c.current(tokens) == TokenType::Eof) {
        lemma_parse_statement_keeps(tokens, c);
        let (parsed, after) = parse_statement(tokens, c);
        let grown = match parsed {
            Some(s) => found.push(s),
            None => found,
        };
        lemma_more_statements_keeps(tokens, after.not_before(c.index).advance(), grown);
    }
}

/// Parsing a statement keeps the place and the diagnostics.
pub proof fn lemma_parse_statement_keeps(tokens: Seq<TokenView>, c: Cursor)
    ensures
        keeps(c, parse_statement(tokens, c).1),
    decreases tokens_left(tokens, c.index), 8nat,
{
    match c.current(tokens) {
        TokenType::Let => {
            let (named, c1) = expect_peek(tokens, c, TokenType::Ident);
            if named {
                let (assigned, c2) = expect_peek(tokens, c1, TokenType::Assign);
                if assigned {
                    lemma_parse_expression_keeps(tokens, c2.advance(), Precedence::Lowest);
                }
            }
        },
        TokenType::Return => {
            lemma_parse_expression_keeps(tokens, c.advance(), Precedence::Lowest);
        },
        _ => {
            lemma_parse_expression_keeps(tokens, c, Precedence::Lowest);
        },
    }
}

/// Parsing a program keeps the place and the diagnostics, and ends at the
/// end of the input.
pub proof fn lemma_more_program_keeps(
    tokens: Seq<TokenView>,
    c: Cursor,
    found: Seq<StatementView>,
)
    ensures
        keeps(c, more_program(tokens, c, found).1),
        more_program(tokens, c, found).1.current(tokens) == TokenType::Eof,
    decreases tokens_left(tokens, c.index),
{
    if c.current(tokens) != TokenType::Eof {
        lemma_parse_statement_keeps(tokens, c);
        let (parsed, after) = parse_statement(tokens, c);
        let grown = match parsed {
            Some(s) => found.push(s),
            None => found,
        };
        lemma_more_program_keeps(tokens, after.not_before(c.index).advance(), grown);
    }
}

} // verus!

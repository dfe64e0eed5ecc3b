use crate::ast::{statement_text, ExpressionView, IdentifierView, StatementView};
use crate::grammar::{
    expect_peek, extend_expression, identifier_at, lemma_tokens_from, more_arguments,
    more_parameters, more_program, more_statements, parse_block_statement, parse_call_arguments,
    parse_expression, parse_expression_infix, parse_expression_prefix, parse_function_literal,
    parse_function_parameters, parse_if_expression, parse_statement, parse_tokens, precedence_of,
    rank_at, token_at, tokens_from, tokens_left, tokens_of, Cursor,
};
use crate::lexer::{
    lemma_number_end_bounds, lemma_scan_advances, lemma_skip_spaces_bounds, lemma_word_end_bounds,
    number_end, position_after, scan, skip_spaces, word_end,
};
use crate::precedence::Precedence;
use crate::roundtrip::{
    is_infix_operator, is_name, is_printable, is_printable_statement,
    lemma_parse_of_printed_statement,
};
use crate::text::{all_digits, is_digit, is_ident_part, parsed_i64};
use crate::token::{TokenType, TokenView};
use vstd::prelude::*;

verus! {

/// The literal of the token is a text of its category: digits for an
/// integer, a name for an identifier, the word for `true`, `false`, `let`
/// and `return`, the symbol for an operator.
pub open spec fn is_lexical(t: TokenView) -> bool {
    match t.token_type {
        TokenType::Int => t.literal.len() > 0 && all_digits(t.literal),
        TokenType::Ident => is_name(t.literal),
        TokenType::True => t.literal == "true"@,
        TokenType::False => t.literal == "false"@,
        TokenType::Let => t.literal == "let"@,
        TokenType::Return => t.literal == "return"@,
        TokenType::Bang
        | TokenType::Minus
        | TokenType::Plus
        | TokenType::Asterisk
        | TokenType::Slash
        | TokenType::Lt
        | TokenType::Gt
        | TokenType::Eq
        | TokenType::NotEq => t.literal == t.token_type.spec_symbol(),
        _ => true,
    }
}

/// Every token of the sequence is lexical.
pub open spec fn all_lexical(tokens: Seq<TokenView>) -> bool {
    forall|i: int| 0 <= i < tokens.len() ==> is_lexical(#[trigger] tokens[i])
}

/// A run of identifier characters holds identifier characters only.
pub proof fn lemma_word_is_ident_parts(input: Seq<char>, pos: nat, k: int)
    requires
        pos <= k < word_end(input, pos),
        pos <= input.len(),
    ensures
        is_ident_part(input[k]),
    decreases input.len() - pos,
{
    lemma_word_end_bounds(input, pos);
    if pos < input.len() && is_ident_part(input[pos as int]) {
        if k > pos {
            lemma_word_end_bounds(input, pos + 1);
            lemma_word_is_ident_parts(input, pos + 1, k);
        }
    }
}

/// A run of digits holds digits only.
pub proof fn lemma_number_is_digits(input: Seq<char>, pos: nat, k: int)
    requires
        pos <= k < number_end(input, pos),
        pos <= input.len(),
    ensures
        is_digit(input[k]),
    decreases input.len() - pos,
{
    lemma_number_end_bounds(input, pos);
    if pos < input.len() && is_digit(input[pos as int]) {
        if k > pos {
            lemma_number_end_bounds(input, pos + 1);
            lemma_number_is_digits(input, pos + 1, k);
        }
    }
}

/// Every token that the scanner yields is lexical.
pub proof fn lemma_scan_is_lexical(input: Seq<char>, pos: nat)
    requires
        pos <= input.len(),
    ensures
        is_lexical(scan(input, pos).0),
{
    lemma_skip_spaces_bounds(input, pos);
    let start = skip_spaces(input, pos);
    if start < input.len() {
        let token = scan(input, pos).0;
        let c = input[start as int];
        lemma_word_end_bounds(input, start);
        lemma_number_end_bounds(input, start);
        match token.token_type {
            TokenType::Int => {
                let end = number_end(input, start);
                assert forall|i: int| 0 <= i < token.literal.len() implies is_digit(
                    #[trigger] token.literal[i],
                ) by {
                    lemma_number_is_digits(input, start, start + i);
                }
            },
            TokenType::Ident | TokenType::True | TokenType::False | TokenType::Let
            | TokenType::Return => {
                let end = word_end(input, start);
                let word = token.literal;
                assert forall|i: int| 0 <= i < word.len() implies is_ident_part(
                    #[trigger] word[i],
                ) by {
                    lemma_word_is_ident_parts(input, start, start + i);
                }
                assert(word[0] == c);
                reveal_strlit("true");
                reveal_strlit("false");
                reveal_strlit("let");
                reveal_strlit("return");
                if token.token_type == TokenType::True {
                    assert(word =~= "true"@);
                }
                if token.token_type == TokenType::False {
                    assert(word =~= "false"@);
                }
                if token.token_type == TokenType::Let {
                    assert(word =~= "let"@);
                }
                if token.token_type == TokenType::Return {
                    assert(word =~= "return"@);
                }
            },
            TokenType::Bang
            | TokenType::Minus
            | TokenType::Plus
            | TokenType::Asterisk
            | TokenType::Slash
            | TokenType::Lt
            | TokenType::Gt
            | TokenType::Eq
            | TokenType::NotEq => {
                reveal_strlit("!");
                reveal_strlit("-");
                reveal_strlit("+");
                reveal_strlit("*");
                reveal_strlit("/");
                reveal_strlit("<");
                reveal_strlit(">");
                reveal_strlit("==");
                reveal_strlit("!=");
                assert(token.literal =~= token.token_type.spec_symbol());
            },
            _ => {},
        }
    }
}

/// The scanner never leaves the input.
pub proof fn lemma_position_after_bound(input: Seq<char>, pos: nat, k: nat)
    requires
        pos <= input.len(),
    ensures
        position_after(input, pos, k) <= input.len(),
    decreases k,
{
    if k > 0 {
        lemma_scan_advances(input, pos);
        lemma_position_after_bound(input, scan(input, pos).1, (k - 1) as nat);
    }
}

/// Every token of an input is lexical.
pub proof fn lemma_tokens_are_lexical(input: Seq<char>, pos: nat)
    requires
        pos <= input.len(),
    ensures
        all_lexical(tokens_from(input, pos)),
{
    let tokens = tokens_from(input, pos);
    assert forall|i: int| 0 <= i < tokens.len() implies is_lexical(#[trigger] tokens[i]) by {
        lemma_tokens_from(input, pos, i as nat);
        lemma_position_after_bound(input, pos, i as nat);
        lemma_scan_is_lexical(input, position_after(input, pos, i as nat));
    }
}

/// The name agrees with its token.
pub open spec fn is_faithful_name(name: IdentifierView) -> bool {
    name.value == name.token.literal
}

/// The tree agrees with the tokens it was read from: each node holds a
/// lexical token of the category that makes such a node, and what the node
/// holds beside it is what the token says.
pub open spec fn is_faithful(e: ExpressionView) -> bool
    decreases e, 1nat,
{
    match e {
        ExpressionView::Integer { token, value } => token.token_type == TokenType::Int
            && parsed_i64(token.literal) == Some(value),
        ExpressionView::Boolean { token, value } => is_lexical(token) && token.token_type
            == if value {
            TokenType::True
        } else {
            TokenType::False
        },
        ExpressionView::Identifier(identifier) => identifier.token.token_type == TokenType::Ident
            && is_lexical(identifier.token) && is_faithful_name(identifier),
        ExpressionView::Prefix { token, operator, right } => (token.token_type == TokenType::Minus
            || token.token_type == TokenType::Bang) && is_lexical(token) && operator
            == token.literal && (match right {
            Some(operand) => is_faithful(*operand),
            None => true,
        }),
        ExpressionView::Infix { token, operator, right, left } => is_infix_operator(
            token.token_type,
        ) && is_lexical(token) && operator == token.literal && is_faithful(*left) && is_faithful(
            *right,
        ),
        ExpressionView::If { condition, consequence, alternative, .. } => is_faithful(*condition)
            && is_faithful_statement(*consequence) && (match alternative {
            Some(other) => is_faithful_statement(*other),
            None => true,
        }),
        ExpressionView::Function { parameters, body, .. } => (forall|i: int|
            0 <= i < parameters.len() ==> is_faithful_name(#[trigger] parameters[i]))
            && is_faithful_statement(*body),
        ExpressionView::Call { function, arguments, .. } => is_faithful(*function) && (
        match arguments {
            Some(list) => are_faithful(list),
            None => true,
        }),
    }
}

/// Every tree of the sequence agrees with its tokens.
pub open spec fn are_faithful(list: Seq<ExpressionView>) -> bool
    decreases list, 0nat,
{
    list.len() == 0 || (are_faithful(list.drop_last()) && is_faithful(list.last()))
}

/// Every statement of the sequence agrees with its tokens.
pub open spec fn are_faithful_statements(list: Seq<StatementView>) -> bool
    decreases list, 0nat,
{
    list.len() == 0 || (are_faithful_statements(list.drop_last()) && is_faithful_statement(
        list.last(),
    ))
}

/// The statement agrees with the tokens it was read from.
pub open spec fn is_faithful_statement(s: StatementView) -> bool
    decreases s, 1nat,
{
    match s {
        StatementView::Let { token, name, value } => token.token_type == TokenType::Let
            && is_lexical(token) && name.token.token_type == TokenType::Ident && is_lexical(
            name.token,
        ) && is_faithful_name(name) && is_faithful(value),
        StatementView::Return { token, value } => token.token_type == TokenType::Return
            && is_lexical(token) && is_faithful(value),
        StatementView::Block { statements, .. } => are_faithful_statements(statements),
        StatementView::Expression(e) => is_faithful(e),
    }
}

/// The tree is made of literals, names and operators with their operands
/// alone.
pub open spec fn is_plain(e: ExpressionView) -> bool
    decreases e,
{
    match e {
        ExpressionView::Integer { .. } => true,
        ExpressionView::Boolean { .. } => true,
        ExpressionView::Identifier(_) => true,
        ExpressionView::Prefix { right, .. } => match right {
            Some(operand) => is_plain(*operand),
            None => false,
        },
        ExpressionView::Infix { right, left, .. } => is_plain(*left) && is_plain(*right),
        _ => false,
    }
}

/// A plain tree that agrees with its tokens is printable.
pub proof fn lemma_faithful_plain_is_printable(e: ExpressionView)
    requires
        is_faithful(e),
        is_plain(e),
    ensures
        is_printable(e),
    decreases e,
{
    match e {
        ExpressionView::Prefix { right, .. } => {
            lemma_faithful_plain_is_printable(*right->0);
        },
        ExpressionView::Infix { right, left, .. } => {
            lemma_faithful_plain_is_printable(*left);
            lemma_faithful_plain_is_printable(*right);
        },
        _ => {},
    }
}

/// Every name of the sequence agrees with its token.
pub open spec fn are_faithful_names(list: Seq<IdentifierView>) -> bool {
    forall|i: int| 0 <= i < list.len() ==> is_faithful_name(#[trigger] list[i])
}

/// One more tree that agrees with its tokens keeps a sequence of such.
pub proof fn lemma_are_faithful_push(list: Seq<ExpressionView>, e: ExpressionView)
    requires
        are_faithful(list),
        is_faithful(e),
    ensures
        are_faithful(list.push(e)),
{
    assert(list.push(e).drop_last() == list);
}

/// One more statement that agrees with its tokens keeps a sequence of such.
pub proof fn lemma_are_faithful_statements_push(list: Seq<StatementView>, s: StatementView)
    requires
        are_faithful_statements(list),
        is_faithful_statement(s),
    ensures
        are_faithful_statements(list.push(s)),
{
    assert(list.push(s).drop_last() == list);
}

/// The parameters read from lexical tokens agree with their tokens.
pub proof fn lemma_more_parameters_faithful(
    tokens: Seq<TokenView>,
    c: Cursor,
    found: Seq<IdentifierView>,
)
    requires
        are_faithful_names(found),
    ensures
        are_faithful_names(more_parameters(tokens, c, found).0),
    decreases tokens_left(tokens, c.index),
{
    if c.peek(tokens) == TokenType::Comma {
        let next = c.advance().advance();
        let grown = found.push(identifier_at(tokens, next));
        assert forall|i: int| 0 <= i < grown.len() implies is_faithful_name(
            #[trigger] grown[i],
        ) by {
            if i < found.len() {
                assert(grown[i] == found[i]);
            }
        }
        lemma_more_parameters_faithful(tokens, next, grown);
    }
}

/// An expression parsed from lexical tokens agrees with its tokens.
pub proof fn lemma_parse_expression_faithful(
    tokens: Seq<TokenView>,
    c: Cursor,
    precedence: Precedence,
)
    requires
        all_lexical(tokens),
    ensures
        parse_expression(tokens, c, precedence).0 matches Some(e) ==> is_faithful(e),
    decreases tokens_left(tokens, c.index), 6nat,
{
    lemma_parse_expression_prefix_faithful(tokens, c);
    let (first, after) = parse_expression_prefix(tokens, c);
    if let Some(left) = first {
        lemma_extend_expression_faithful(tokens, after.not_before(c.index), precedence, left);
    }
}

/// Operators folded into a tree that agrees with its tokens give such a
/// tree.
pub proof fn lemma_extend_expression_faithful(
    tokens: Seq<TokenView>,
    c: Cursor,
    precedence: Precedence,
    left: ExpressionView,
)
    requires
        all_lexical(tokens),
        is_faithful(left),
    ensures
        extend_expression(tokens, c, precedence, left).0 matches Some(e) ==> is_faithful(e),
    decreases tokens_left(tokens, c.index), 3nat,
{
    if c.peek(tokens) != TokenType::Semicolon && precedence.rank() < precedence_of(
        c.peek(tokens),
    ).rank() {
        let at_operator = c.advance();
        lemma_parse_expression_infix_faithful(tokens, at_operator, left);
        let (folded, after) = parse_expression_infix(tokens, at_operator, left);
        let next = match folded {
            Some(e) => e,
            None => left,
        };
        lemma_extend_expression_faithful(
            tokens,
            after.not_before(at_operator.index),
            precedence,
            next,
        );
    }
}

/// What the rule for the start of an expression yields from lexical tokens
/// agrees with its tokens.
pub proof fn lemma_parse_expression_prefix_faithful(tokens: Seq<TokenView>, c: Cursor)
    requires
        all_lexical(tokens),
    ensures
        parse_expression_prefix(tokens, c).0 matches Some(e) ==> is_faithful(e),
    decreases tokens_left(tokens, c.index), 5nat,
{
    let token = token_at(tokens, c.index);
    assert(is_lexical(token));
    match token.token_type {
        TokenType::Minus | TokenType::Bang => {
            lemma_parse_expression_faithful(tokens, c.advance(), Precedence::Prefix);
        },
        TokenType::LParen => {
            lemma_parse_expression_faithful(tokens, c.advance(), Precedence::Lowest);
        },
        TokenType::If => lemma_parse_if_expression_faithful(tokens, c),
        TokenType::Function => lemma_parse_function_literal_faithful(tokens, c),
        _ => {},
    }
}

/// What the rule for an operator or a call makes of a tree that agrees
/// with its tokens agrees with its tokens.
pub proof fn lemma_parse_expression_infix_faithful(
    tokens: Seq<TokenView>,
    c: Cursor,
    left: ExpressionView,
)
    requires
        all_lexical(tokens),
        is_faithful(left),
    ensures
        parse_expression_infix(tokens, c, left).0 matches Some(e) ==> is_faithful(e),
    decreases tokens_left(tokens, c.index), 3nat,
{
    let token = token_at(tokens, c.index);
    assert(is_lexical(token));
    match c.current(tokens) {
        TokenType::Eq
        | TokenType::NotEq
        | TokenType::Minus
        | TokenType::Plus
        | TokenType::Asterisk
        | TokenType::Slash
        | TokenType::Gt
        | TokenType::Lt => {
            lemma_parse_expression_faithful(
                tokens,
                c.advance(),
                precedence_of(token.token_type),
            );
        },
        TokenType::LParen => {
            lemma_parse_call_arguments_faithful(tokens, c);
        },
        _ => {},
    }
}

/// An `if` parsed from lexical tokens agrees with its tokens.
pub proof fn lemma_parse_if_expression_faithful(tokens: Seq<TokenView>, c: Cursor)
    requires
        all_lexical(tokens),
    ensures
        parse_if_expression(tokens, c).0 matches Some(e) ==> is_faithful(e),
    decreases tokens_left(tokens, c.index), 4nat,
{
    let (opened, c1) = expect_peek(tokens, c, TokenType::LParen);
    if opened {
        lemma_parse_expression_faithful(tokens, c1.advance(), Precedence::Lowest);
        let (found, c2) = parse_expression(tokens, c1.advance(), Precedence::Lowest);
        if found is Some {
            let c3 = c2.not_before(c1.index + 1);
            let (closed, c4) = expect_peek(tokens, c3, TokenType::RParen);
            if closed {
                let (braced, c5) = expect_peek(tokens, c4, TokenType::LBrace);
                if braced {
                    lemma_parse_block_statement_faithful(tokens, c5);
                    let (consequence, c6) = parse_block_statement(tokens, c5);
                    let c7 = c6.not_before(c5.index);
                    if c7.peek(tokens) == TokenType::Else {
                        let (braced_again, c8) = expect_peek(
                            tokens,
                            c7.advance(),
                            TokenType::LBrace,
                        );
                        if braced_again {
                            lemma_parse_block_statement_faithful(tokens, c8);
                        }
                    }
                }
            }
        }
    }
}

/// A function literal parsed from lexical tokens agrees with its tokens.
pub proof fn lemma_parse_function_literal_faithful(tokens: Seq<TokenView>, c: Cursor)
    requires
        all_lexical(tokens),
    ensures
        parse_function_literal(tokens, c).0 matches Some(e) ==> is_faithful(e),
    decreases tokens_left(tokens, c.index), 4nat,
{
    let (opened, c1) = expect_peek(tokens, c, TokenType::LParen);
    if opened {
        if c1.peek(tokens) != TokenType::RParen {
            let first = c1.advance();
            lemma_more_parameters_faithful(tokens, first, seq![identifier_at(tokens, first)]);
        }
        let (found, c2) = parse_function_parameters(tokens, c1);
        if found is Some {
            let (braced, c3) = expect_peek(tokens, c2.not_before(c1.index), TokenType::LBrace);
            if braced {
                lemma_parse_block_statement_faithful(tokens, c3);
            }
        }
    }
}

/// The arguments of a call parsed from lexical tokens agree with their
/// tokens.
pub proof fn lemma_parse_call_arguments_faithful(tokens: Seq<TokenView>, c: Cursor)
    requires
        all_lexical(tokens),
    ensures
        parse_call_arguments(tokens, c).0 matches Some(list) ==> are_faithful(list),
    decreases tokens_left(tokens, c.index), rank_at(tokens, c.index, 0),
{
    if c.peek(tokens) != TokenType::RParen {
        lemma_parse_expression_faithful(tokens, c.advance(), Precedence::Lowest);
        let (found, c1) = parse_expression(tokens, c.advance(), Precedence::Lowest);
        if let Some(first) = found {
            lemma_are_faithful_push(Seq::empty(), first);
            assert(Seq::<ExpressionView>::empty().push(first) =~= seq![first]);
            lemma_more_arguments_faithful(tokens, c1.not_before(c.index + 1), seq![first]);
        }
    }
}

/// More arguments parsed from lexical tokens agree with their tokens.
pub proof fn lemma_more_arguments_faithful(
    tokens: Seq<TokenView>,
    c: Cursor,
    found: Seq<ExpressionView>,
)
    requires
        all_lexical(tokens),
        are_faithful(found),
    ensures
        more_arguments(tokens, c, found).0 matches Some(list) ==> are_faithful(list),
    decreases tokens_left(tokens, c.index), 0nat,
{
    if c.peek(tokens) == TokenType::Comma {
        let start = c.advance().advance();
        lemma_parse_expression_faithful(tokens, start, Precedence::Lowest);
        let (parsed, after) = parse_expression(tokens, start, Precedence::Lowest);
        if let Some(e) = parsed {
            lemma_are_faithful_push(found, e);
            lemma_more_arguments_faithful(tokens, after.not_before(start.index), found.push(e));
        }
    }
}

/// A block parsed from lexical tokens agrees with its tokens.
pub proof fn lemma_parse_block_statement_faithful(tokens: Seq<TokenView>, c: Cursor)
    requires
        all_lexical(tokens),
    ensures
        is_faithful_statement(parse_block_statement(tokens, c).0),
    decreases tokens_left(tokens, c.index), rank_at(tokens, c.index, 4),
{
    lemma_more_statements_faithful(tokens, c.advance(), Seq::empty());
}

/// The statements of a block parsed from lexical tokens agree with their
/// tokens.
pub proof fn lemma_more_statements_faithful(
    tokens: Seq<TokenView>,
    c: Cursor,
    found: Seq<StatementView>,
)
    requires
        all_lexical(tokens),
        are_faithful_statements(found),
    ensures
        are_faithful_statements(more_statements(tokens, c, found).0),
    decreases tokens_left(tokens, c.index), 9nat,
{
    if !(c.current(tokens) == TokenType::RBrace || c.current(tokens) == TokenType::Eof) {
        lemma_parse_statement_faithful(tokens, c);
        let (parsed, after) = parse_statement(tokens, c);
        let grown = match parsed {
            Some(s) => found.push(s),
            None => found,
        };
        if let Some(s) = parsed {
            lemma_are_faithful_statements_push(found, s);
        }
        lemma_more_statements_faithful(tokens, after.not_before(c.index).advance(), grown);
    }
}

/// A statement parsed from lexical tokens agrees with its tokens.
pub proof fn lemma_parse_statement_faithful(tokens: Seq<TokenView>, c: Cursor)
    requires
        all_lexical(tokens),
    ensures
        parse_statement(tokens, c).0 matches Some(s) ==> is_faithful_statement(s),
    decreases tokens_left(tokens, c.index), 8nat,
{
    assert(is_lexical(token_at(tokens, c.index)));
    match c.current(tokens) {
        TokenType::Let => {
            let (named, c1) = expect_peek(tokens, c, TokenType::Ident);
            if named {
                assert(is_lexical(token_at(tokens, c1.index)));
                let (assigned, c2) = expect_peek(tokens, c1, TokenType::Assign);
                if assigned {
                    lemma_parse_expression_faithful(tokens, c2.advance(), Precedence::Lowest);
                }
            }
        },
        TokenType::Return => {
            lemma_parse_expression_faithful(tokens, c.advance(), Precedence::Lowest);
        },
        _ => {
            lemma_parse_expression_faithful(tokens, c, Precedence::Lowest);
        },
    }
}

/// The statements of a program parsed from lexical tokens agree with their
/// tokens.
pub proof fn lemma_more_program_faithful(
    tokens: Seq<TokenView>,
    c: Cursor,
    found: Seq<StatementView>,
)
    requires
        all_lexical(tokens),
        are_faithful_statements(found),
    ensures
        are_faithful_statements(more_program(tokens, c, found).0),
    decreases tokens_left(tokens, c.index),
{
    if c.current(tokens) != TokenType::Eof {
        lemma_parse_statement_faithful(tokens, c);
        let (parsed, after) = parse_statement(tokens, c);
        let grown = match parsed {
            Some(s) => found.push(s),
            None => found,
        };
        if let Some(s) = parsed {
            lemma_are_faithful_statements_push(found, s);
        }
        lemma_more_program_faithful(tokens, after.not_before(c.index).advance(), grown);
    }
}

/// The statement is a `let` or a `return` of a plain tree, or a plain tree
/// alone.
pub open spec fn is_plain_statement(s: StatementView) -> bool {
    match s {
        StatementView::Let { value, .. } => is_plain(value),
        StatementView::Return { value, .. } => is_plain(value),
        StatementView::Expression(e) => is_plain(e),
        StatementView::Block { .. } => false,
    }
}

/// A plain statement that agrees with its tokens is printable.
pub proof fn lemma_faithful_plain_statement_is_printable(s: StatementView)
    requires
        is_faithful_statement(s),
        is_plain_statement(s),
    ensures
        is_printable_statement(s),
{
    match s {
        StatementView::Let { value, .. } => lemma_faithful_plain_is_printable(value),
        StatementView::Return { value, .. } => lemma_faithful_plain_is_printable(value),
        StatementView::Expression(e) => lemma_faithful_plain_is_printable(e),
        StatementView::Block { .. } => {},
    }
}

/// Each statement of a sequence of statements that agree with their tokens
/// agrees with its tokens.
pub proof fn lemma_faithful_statement_at(list: Seq<StatementView>, k: int)
    requires
        are_faithful_statements(list),
        0 <= k < list.len(),
    ensures
        is_faithful_statement(list[k]),
    decreases list.len(),
{
    if k < list.len() - 1 {
        lemma_faithful_statement_at(list.drop_last(), k);
    }
}

/// Every statement that is parsed from a text agrees with the tokens of the
/// text.
pub proof fn lemma_parsed_statements_are_faithful(input: Seq<char>)
    ensures
        are_faithful_statements(parse_tokens(tokens_of(input)).0),
{
    lemma_tokens_are_lexical(input, 0);
    lemma_more_program_faithful(
        tokens_of(input),
        Cursor { index: 0, errors: Seq::empty() },
        Seq::empty(),
    );
}

/// A plain statement that was parsed from a text comes back from the
/// printer as it is: its text, scanned and parsed, is that statement alone,
/// without a diagnostic. So the text that the printer writes for a parsed
/// tree of arithmetic shows by its parentheses how the tree was grouped.
pub proof fn lemma_print_of_parsed_statement(input: Seq<char>, k: int)
    requires
        0 <= k < parse_tokens(tokens_of(input)).0.len(),
        is_plain_statement(parse_tokens(tokens_of(input)).0[k]),
    ensures
        parse_tokens(tokens_of(statement_text(parse_tokens(tokens_of(input)).0[k]))) == (
            seq![parse_tokens(tokens_of(input)).0[k]],
            Seq::<Seq<char>>::empty(),
        ),
{
    let statements = parse_tokens(tokens_of(input)).0;
    lemma_parsed_statements_are_faithful(input);
    lemma_faithful_statement_at(statements, k);
    lemma_faithful_plain_statement_is_printable(statements[k]);
    lemma_parse_of_printed_statement(statements[k]);
}

} // verus!

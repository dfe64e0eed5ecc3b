use crate::ast::{ExpressionView, IdentifierView, StatementView};
use crate::lexer::{
    lemma_eof_repeats, lemma_position_after_sum, lemma_scan_advances, nth_token, position_after,
    scan,
};
use crate::precedence::Precedence;
use crate::text::parsed_i64;
use crate::token::{TokenType, TokenView};
use vstd::prelude::*;

verus! {

/// The token that stands for the end of the input.
pub open spec fn eof() -> TokenView {
    TokenView { token_type: TokenType::Eof, literal: Seq::empty() }
}

/// The tokens of `input` from position `pos` on, up to the first `Eof`,
/// which is the last of them. Inside the input every step of the scanner
/// moves forward and stays inside; the definition says so again, so that it
/// stands for any `pos`.
pub open spec fn tokens_from(input: Seq<char>, pos: nat) -> Seq<TokenView>
    decreases input.len() - pos,
{
    let (token, next) = scan(input, pos);
    if token.token_type == TokenType::Eof || next <= pos || next > input.len() {
        seq![token]
    } else {
        seq![token] + tokens_from(input, next)
    }
}

/// The tokens of an input end with `Eof`, and hold no other.
pub proof fn lemma_tokens_end_with_eof(input: Seq<char>, pos: nat)
    requires
        pos <= input.len(),
    ensures
        tokens_from(input, pos).len() >= 1,
        tokens_from(input, pos).last() == eof(),
        forall|k: int|
            0 <= k < tokens_from(input, pos).len() - 1 ==> (#[trigger] tokens_from(
                input,
                pos,
            )[k]).token_type != TokenType::Eof,
    decreases input.len() - pos,
{
    let (token, next) = scan(input, pos);
    lemma_scan_advances(input, pos);
    if token.token_type == TokenType::Eof {
        assert(token.literal =~= Seq::<char>::empty());
    } else {
        lemma_tokens_end_with_eof(input, next);
        let rest = tokens_from(input, next);
        let all = seq![token] + rest;
        assert(tokens_from(input, pos) == all);
        assert(all.last() == rest.last());
        assert forall|k: int| 0 <= k < all.len() - 1 implies (#[trigger] all[k]).token_type
            != TokenType::Eof by {
            if k > 0 {
                assert(all[k] == rest[k - 1]);
            }
        }
    }
}

/// The tokens of an input from `pos` on are what the scanner yields step
/// by step, and `Eof` ever after.
pub proof fn lemma_tokens_from(input: Seq<char>, pos: nat, k: nat)
    requires
        pos <= input.len(),
    ensures
        token_at(tokens_from(input, pos), k) == nth_token(input, pos, k),
    decreases k,
{
    let (token, next) = scan(input, pos);
    lemma_scan_advances(input, pos);
    if token.token_type == TokenType::Eof {
        lemma_eof_repeats(input, pos, k);
        if k > 0 {
            assert(nth_token(input, pos, k).literal =~= Seq::<char>::empty());
        }
    } else {
        let rest = tokens_from(input, next);
        assert(tokens_from(input, pos) == seq![token] + rest);
        if k > 0 {
            lemma_tokens_from(input, next, (k - 1) as nat);
            assert(position_after(input, pos, k) == position_after(input, next, (k - 1) as nat));
            assert(token_at(seq![token] + rest, k) == token_at(rest, (k - 1) as nat));
        }
    }
}

/// The tokens of an input from `pos` on are as many as the steps of the
/// scanner up to the first `Eof`, and that one.
pub proof fn lemma_tokens_from_length(input: Seq<char>, pos: nat, n: nat)
    requires
        pos <= input.len(),
        forall|k: nat| k < n ==> (#[trigger] nth_token(input, pos, k)).token_type != TokenType::Eof,
        nth_token(input, pos, n).token_type == TokenType::Eof,
    ensures
        tokens_from(input, pos).len() == n + 1,
    decreases n,
{
    reveal_with_fuel(position_after, 2);
    lemma_scan_advances(input, pos);
    if n > 0 {
        assert(nth_token(input, pos, 0).token_type != TokenType::Eof);
        let next = scan(input, pos).1;
        assert forall|k: nat| k < n - 1 implies (#[trigger] nth_token(
            input,
            next,
            k,
        )).token_type != TokenType::Eof by {
            lemma_position_after_sum(input, pos, 1, k);
            assert(nth_token(input, pos, k + 1).token_type != TokenType::Eof);
        }
        lemma_position_after_sum(input, pos, 1, (n - 1) as nat);
        lemma_tokens_from_length(input, next, (n - 1) as nat);
    }
}

/// The tokens of a source text.
pub open spec fn tokens_of(input: Seq<char>) -> Seq<TokenView> {
    tokens_from(input, 0)
}

/// The token at place `i` of a token sequence; past its end, `Eof`.
pub open spec fn token_at(tokens: Seq<TokenView>, i: nat) -> TokenView {
    if i < tokens.len() {
        tokens[i as int]
    } else {
        eof()
    }
}

/// The order of a rule among the rules that may run at one place: `rank`
/// where tokens are left, and above all ranks at the end of the input,
/// where a rule that steps over its token hands on to rules that end at once.
pub open spec fn rank_at(tokens: Seq<TokenView>, index: nat, rank: nat) -> nat {
    if index < tokens.len() {
        rank
    } else {
        rank + 10
    }
}

/// How many tokens are left from place `i` on.
pub open spec fn tokens_left(tokens: Seq<TokenView>, i: nat) -> nat {
    if i <= tokens.len() {
        (tokens.len() - i) as nat
    } else {
        0
    }
}

/// Where a parser stands: the place of its current token, and the
/// diagnostics gathered so far.
pub struct Cursor {
    pub index: nat,
    pub errors: Seq<Seq<char>>,
}

impl Cursor {
    /// One token further.
    pub open spec fn advance(self) -> Cursor {
        Cursor { index: self.index + 1, errors: self.errors }
    }

    /// With one more diagnostic.
    pub open spec fn with_error(self, message: Seq<char>) -> Cursor {
        Cursor { index: self.index, errors: self.errors.push(message) }
    }

    /// The cursor, but not before place `from`: a parser never steps back.
    pub open spec fn not_before(self, from: nat) -> Cursor {
        Cursor {
            index: if self.index < from {
                from
            } else {
                self.index
            },
            errors: self.errors,
        }
    }

    /// The category of the current token.
    pub open spec fn current(self, tokens: Seq<TokenView>) -> TokenType {
        token_at(tokens, self.index).token_type
    }

    /// The category of the token after the current one.
    pub open spec fn peek(self, tokens: Seq<TokenView>) -> TokenType {
        token_at(tokens, self.index + 1).token_type
    }

    /// After an optional semicolon.
    pub open spec fn skip_semicolon(self, tokens: Seq<TokenView>) -> Cursor {
        if self.peek(tokens) == TokenType::Semicolon {
            self.advance()
        } else {
            self
        }
    }
}

/// The binding power of a token that stands between two operands.
pub open spec fn precedence_of(kind: TokenType) -> Precedence {
    match kind {
        TokenType::Eq | TokenType::NotEq => Precedence::Equals,
        TokenType::Lt | TokenType::Gt => Precedence::LessGreater,
        TokenType::Plus | TokenType::Minus => Precedence::Sum,
        TokenType::Asterisk | TokenType::Slash => Precedence::Product,
        TokenType::LParen => Precedence::Call,
        _ => Precedence::Lowest,
    }
}

/// The diagnostic for a token that is not the expected one.
pub open spec fn peek_error_message(expected: TokenType, actual: TokenType) -> Seq<char> {
    "expected next token to be "@ + expected.spec_name() + ", got "@ + actual.spec_name()
        + " instead"@
}

/// The diagnostic for digits that are no 64-bit integer.
pub open spec fn integer_error_message(literal: Seq<char>) -> Seq<char> {
    "Could not parse "@ + literal + " as integer"@
}

/// Steps onto the next token if it is of category `kind`; otherwise records
/// a diagnostic and stays.
pub open spec fn expect_peek(tokens: Seq<TokenView>, c: Cursor, kind: TokenType) -> (
    bool,
    Cursor,
) {
    if c.peek(tokens) == kind {
        (true, c.advance())
    } else {
        (false, c.with_error(peek_error_message(kind, c.peek(tokens))))
    }
}

/// The name that the current token stands for.
pub open spec fn identifier_at(tokens: Seq<TokenView>, c: Cursor) -> IdentifierView {
    IdentifierView { token: token_at(tokens, c.index), value: token_at(tokens, c.index).literal }
}

/// An integer literal from the current token.
pub open spec fn parse_integer_literal(tokens: Seq<TokenView>, c: Cursor) -> (
    Option<ExpressionView>,
    Cursor,
) {
    let token = token_at(tokens, c.index);
    match parsed_i64(token.literal) {
        Some(value) => (Some(ExpressionView::Integer { token, value }), c),
        None => (None, c.with_error(integer_error_message(token.literal))),
    }
}

/// The parameters that follow the first of a parameter list, each after a
/// comma.
pub open spec fn more_parameters(tokens: Seq<TokenView>, c: Cursor, found: Seq<IdentifierView>) -> (
    Seq<IdentifierView>,
    Cursor,
)
    decreases tokens_left(tokens, c.index),
{
    if c.peek(tokens) == TokenType::Comma {
        let next = c.advance().advance();
        more_parameters(tokens, next, found.push(identifier_at(tokens, next)))
    } else {
        (found, c)
    }
}

/// The parameter list of a function literal; the current token is its `(`.
/// Ends on the `)`.
pub open spec fn parse_function_parameters(tokens: Seq<TokenView>, c: Cursor) -> (
    Option<Seq<IdentifierView>>,
    Cursor,
) {
    if c.peek(tokens) == TokenType::RParen {
        (Some(Seq::empty()), c.advance())
    } else {
        let first = c.advance();
        let (found, last) = more_parameters(tokens, first, seq![identifier_at(tokens, first)]);
        let (closed, end) = expect_peek(tokens, last, TokenType::RParen);
        if closed {
            (Some(found), end)
        } else {
            (None, end)
        }
    }
}

/// An expression whose operators bind tighter than `precedence`. It starts
/// at the current token and ends on its last token.
pub open spec fn parse_expression(tokens: Seq<TokenView>, c: Cursor, precedence: Precedence) -> (
    Option<ExpressionView>,
    Cursor,
)
    decreases tokens_left(tokens, c.index), 6nat,
{
    let (first, after) = parse_expression_prefix(tokens, c);
    match first {
        Some(left) => extend_expression(tokens, after.not_before(c.index), precedence, left),
        None => (None, after),
    }
}

/// Folds the operators and calls that follow `left` into it, as long as the
/// next token is no semicolon and binds tighter than `precedence`. An
/// operator whose right operand cannot be parsed leaves `left` as it is.
pub open spec fn extend_expression(
    tokens: Seq<TokenView>,
    c: Cursor,
    precedence: Precedence,
    left: ExpressionView,
) -> (Option<ExpressionView>, Cursor)
    decreases tokens_left(tokens, c.index), 3nat,
{
    if c.peek(tokens) != TokenType::Semicolon && precedence.rank() < precedence_of(
        c.peek(tokens),
    ).rank() {
        let at_operator = c.advance();
        let (folded, after) = parse_expression_infix(tokens, at_operator, left);
        let next = match folded {
            Some(e) => e,
            None => left,
        };
        extend_expression(tokens, after.not_before(at_operator.index), precedence, next)
    } else {
        (Some(left), c)
    }
}

/// The expression that the current token starts: a name, a literal, a
/// prefix operator with its operand, a group in parentheses, an `if` or a
/// function literal. Any other token starts none.
pub open spec fn parse_expression_prefix(tokens: Seq<TokenView>, c: Cursor) -> (
    Option<ExpressionView>,
    Cursor,
)
    decreases tokens_left(tokens, c.index), 5nat,
{
    let token = token_at(tokens, c.index);
    match token.token_type {
        TokenType::Ident => (Some(ExpressionView::Identifier(identifier_at(tokens, c))), c),
        TokenType::Int => parse_integer_literal(tokens, c),
        TokenType::Minus | TokenType::Bang => parse_prefix_expression(tokens, c),
        TokenType::True | TokenType::False => (
            Some(ExpressionView::Boolean { token, value: token.token_type == TokenType::True }),
            c,
        ),
        TokenType::LParen => parse_grouped_expression(tokens, c),
        TokenType::If => parse_if_expression(tokens, c),
        TokenType::Function => parse_function_literal(tokens, c),
        _ => (None, c),
    }
}

/// What the current token, an infix operator or the `(` of a call, makes of
/// `left` and what follows.
pub open spec fn parse_expression_infix(tokens: Seq<TokenView>, c: Cursor, left: ExpressionView) -> (
    Option<ExpressionView>,
    Cursor,
)
    decreases tokens_left(tokens, c.index), 3nat,
{
    match c.current(tokens) {
        TokenType::Eq
        | TokenType::NotEq
        | TokenType::Minus
        | TokenType::Plus
        | TokenType::Asterisk
        | TokenType::Slash
        | TokenType::Gt
        | TokenType::Lt => parse_infix_expression(tokens, c, left),
        TokenType::LParen => parse_call_expression(tokens, c, left),
        _ => (None, c),
    }
}

/// A prefix operator, the current token, with its operand. Where no operand
/// can be parsed the expression has none.
pub open spec fn parse_prefix_expression(tokens: Seq<TokenView>, c: Cursor) -> (
    Option<ExpressionView>,
    Cursor,
)
    decreases tokens_left(tokens, c.index), rank_at(tokens, c.index, 4),
{
    let token = token_at(tokens, c.index);
    let (operand, after) = parse_expression(tokens, c.advance(), Precedence::Prefix);
    (
        Some(
            ExpressionView::Prefix {
                token,
                operator: token.literal,
                right: match operand {
                    Some(e) => Some(Box::new(e)),
                    None => None,
                },
            },
        ),
        after,
    )
}

/// An infix operator, the current token, between `left` and the expression
/// that follows it. Operators of one binding power group to the left.
pub open spec fn parse_infix_expression(tokens: Seq<TokenView>, c: Cursor, left: ExpressionView) -> (
    Option<ExpressionView>,
    Cursor,
)
    decreases tokens_left(tokens, c.index), rank_at(tokens, c.index, 1),
{
    let token = token_at(tokens, c.index);
    let (operand, after) = parse_expression(tokens, c.advance(), precedence_of(token.token_type));
    match operand {
        Some(right) => (
            Some(
                ExpressionView::Infix {
                    token,
                    operator: token.literal,
                    right: Box::new(right),
                    left: Box::new(left),
                },
            ),
            after,
        ),
        None => (None, after),
    }
}

/// An expression in parentheses; the current token is the `(`. Ends on
/// the `)`.
pub open spec fn parse_grouped_expression(tokens: Seq<TokenView>, c: Cursor) -> (
    Option<ExpressionView>,
    Cursor,
)
    decreases tokens_left(tokens, c.index), rank_at(tokens, c.index, 4),
{
    let (inner, after) = parse_expression(tokens, c.advance(), Precedence::Lowest);
    match inner {
        Some(e) => {
            let (closed, end) = expect_peek(tokens, after, TokenType::RParen);
            if closed {
                (Some(e), end)
            } else {
                (None, end)
            }
        },
        None => (None, after),
    }
}

/// `if ( condition ) { block }`, with `else { block }` where an `else`
/// follows; the current token is the `if`. Ends on the last `}`.
pub open spec fn parse_if_expression(tokens: Seq<TokenView>, c: Cursor) -> (
    Option<ExpressionView>,
    Cursor,
)
    decreases tokens_left(tokens, c.index), 4nat,
{
    let token = token_at(tokens, c.index);
    let (opened, c1) = expect_peek(tokens, c, TokenType::LParen);
    if !opened {
        (None, c1)
    } else {
        let (found, c2) = parse_expression(tokens, c1.advance(), Precedence::Lowest);
        match found {
            None => (None, c2),
            Some(condition) => {
                let c3 = c2.not_before(c1.index + 1);
                let (closed, c4) = expect_peek(tokens, c3, TokenType::RParen);
                if !closed {
                    (None, c4)
                } else {
                    let (braced, c5) = expect_peek(tokens, c4, TokenType::LBrace);
                    if !braced {
                        (None, c5)
                    } else {
                        let (consequence, c6) = parse_block_statement(tokens, c5);
                        let c7 = c6.not_before(c5.index);
                        if c7.peek(tokens) == TokenType::Else {
                            let (braced_again, c8) = expect_peek(
                                tokens,
                                c7.advance(),
                                TokenType::LBrace,
                            );
                            if !braced_again {
                                (None, c8)
                            } else {
                                let (alternative, c9) = parse_block_statement(tokens, c8);
                                (
                                    Some(
                                        ExpressionView::If {
                                            token,
                                            condition: Box::new(condition),
                                            consequence: Box::new(consequence),
                                            alternative: Some(Box::new(alternative)),
                                        },
                                    ),
                                    c9,
                                )
                            }
                        } else {
                            (
                                Some(
                                    ExpressionView::If {
                                        token,
                                        condition: Box::new(condition),
                                        consequence: Box::new(consequence),
                                        alternative: None,
                                    },
                                ),
                                c7,
                            )
                        }
                    }
                }
            },
        }
    }
}

/// `fn ( parameters ) { block }`; the current token is the `fn`. Ends on
/// the `}`.
pub open spec fn parse_function_literal(tokens: Seq<TokenView>, c: Cursor) -> (
    Option<ExpressionView>,
    Cursor,
)
    decreases tokens_left(tokens, c.index), 4nat,
{
    let token = token_at(tokens, c.index);
    let (opened, c1) = expect_peek(tokens, c, TokenType::LParen);
    if !opened {
        (None, c1)
    } else {
        let (found, c2) = parse_function_parameters(tokens, c1);
        match found {
            None => (None, c2),
            Some(parameters) => {
                let (braced, c3) = expect_peek(tokens, c2.not_before(c1.index), TokenType::LBrace);
                if !braced {
                    (None, c3)
                } else {
                    let (body, c4) = parse_block_statement(tokens, c3);
                    (
                        Some(ExpressionView::Function { token, parameters, body: Box::new(body) }),
                        c4,
                    )
                }
            },
        }
    }
}

/// A call of `function`; the current token is the `(` of its arguments.
pub open spec fn parse_call_expression(
    tokens: Seq<TokenView>,
    c: Cursor,
    function: ExpressionView,
) -> (Option<ExpressionView>, Cursor)
    decreases tokens_left(tokens, c.index), rank_at(tokens, c.index, 2),
{
    let token = token_at(tokens, c.index);
    let (arguments, after) = parse_call_arguments(tokens, c);
    (Some(ExpressionView::Call { token, function: Box::new(function), arguments }), after)
}

/// The arguments of a call; the current token is their `(`. Ends on the
/// `)`. An empty list, and one that cannot be parsed, yield nothing.
pub open spec fn parse_call_arguments(tokens: Seq<TokenView>, c: Cursor) -> (
    Option<Seq<ExpressionView>>,
    Cursor,
)
    decreases tokens_left(tokens, c.index), rank_at(tokens, c.index, 0),
{
    if c.peek(tokens) == TokenType::RParen {
        (None, c.advance())
    } else {
        let (found, c1) = parse_expression(tokens, c.advance(), Precedence::Lowest);
        match found {
            None => (None, c1),
            Some(first) => {
                let (rest, c2) = more_arguments(tokens, c1.not_before(c.index + 1), seq![first]);
                match rest {
                    None => (None, c2),
                    Some(arguments) => {
                        let (closed, end) = expect_peek(tokens, c2, TokenType::RParen);
                        if closed {
                            (Some(arguments), end)
                        } else {
                            (None, end)
                        }
                    },
                }
            },
        }
    }
}

/// The arguments that follow the first of an argument list, each after a
/// comma.
pub open spec fn more_arguments(tokens: Seq<TokenView>, c: Cursor, found: Seq<ExpressionView>) -> (
    Option<Seq<ExpressionView>>,
    Cursor,
)
    decreases tokens_left(tokens, c.index), 0nat,
{
    if c.peek(tokens) == TokenType::Comma {
        let start = c.advance().advance();
        let (parsed, after) = parse_expression(tokens, start, Precedence::Lowest);
        match parsed {
            Some(e) => more_arguments(tokens, after.not_before(start.index), found.push(e)),
            None => (None, after),
        }
    } else {
        (Some(found), c)
    }
}

/// A block; the current token is its `{`. Ends on the `}`, or at the end
/// of the input where the block is not closed.
pub open spec fn parse_block_statement(tokens: Seq<TokenView>, c: Cursor) -> (StatementView, Cursor)
    decreases tokens_left(tokens, c.index), rank_at(tokens, c.index, 4),
{
    let token = token_at(tokens, c.index);
    let (statements, after) = more_statements(tokens, c.advance(), Seq::empty());
    (StatementView::Block { token, statements }, after)
}

/// The statements of a block from the current token on, after those already
/// `found`. A statement that cannot be parsed is left out.
pub open spec fn more_statements(tokens: Seq<TokenView>, c: Cursor, found: Seq<StatementView>) -> (
    Seq<StatementView>,
    Cursor,
)
    decreases tokens_left(tokens, c.index), 9nat,
{
    if c.current(tokens) == TokenType::RBrace || c.current(tokens) == TokenType::Eof {
        (found, c)
    } else {
        let (parsed, after) = parse_statement(tokens, c);
        let grown = match parsed {
            Some(s) => found.push(s),
            None => found,
        };
        more_statements(tokens, after.not_before(c.index).advance(), grown)
    }
}

/// The statement that the current token starts.
pub open spec fn parse_statement(tokens: Seq<TokenView>, c: Cursor) -> (
    Option<StatementView>,
    Cursor,
)
    decreases tokens_left(tokens, c.index), 8nat,
{
    match c.current(tokens) {
        TokenType::Let => parse_let_statement(tokens, c),
        TokenType::Return => parse_return_statement(tokens, c),
        _ => parse_expression_statement(tokens, c),
    }
}

/// `let name = expression`, with the semicolon where one follows; the
/// current token is the `let`.
pub open spec fn parse_let_statement(tokens: Seq<TokenView>, c: Cursor) -> (
    Option<StatementView>,
    Cursor,
)
    decreases tokens_left(tokens, c.index), 7nat,
{
    let token = token_at(tokens, c.index);
    let (named, c1) = expect_peek(tokens, c, TokenType::Ident);
    if !named {
        (None, c1)
    } else {
        let name = identifier_at(tokens, c1);
        let (assigned, c2) = expect_peek(tokens, c1, TokenType::Assign);
        if !assigned {
            (None, c2)
        } else {
            let (found, c3) = parse_expression(tokens, c2.advance(), Precedence::Lowest);
            match found {
                Some(value) => (
                    Some(StatementView::Let { token, name, value }),
                    c3.skip_semicolon(tokens),
                ),
                None => (None, c3),
            }
        }
    }
}

/// `return expression`, with the semicolon where one follows; the current
/// token is the `return`.
pub open spec fn parse_return_statement(tokens: Seq<TokenView>, c: Cursor) -> (
    Option<StatementView>,
    Cursor,
)
    decreases tokens_left(tokens, c.index), rank_at(tokens, c.index, 7),
{
    let token = token_at(tokens, c.index);
    let (found, after) = parse_expression(tokens, c.advance(), Precedence::Lowest);
    match found {
        Some(value) => (Some(StatementView::Return { token, value }), after.skip_semicolon(tokens)),
        None => (None, after),
    }
}

/// An expression as a statement, with the semicolon where one follows.
pub open spec fn parse_expression_statement(tokens: Seq<TokenView>, c: Cursor) -> (
    Option<StatementView>,
    Cursor,
)
    decreases tokens_left(tokens, c.index), 7nat,
{
    let (found, after) = parse_expression(tokens, c, Precedence::Lowest);
    match found {
        Some(e) => (Some(StatementView::Expression(e)), after.skip_semicolon(tokens)),
        None => (None, after),
    }
}

/// The statements of a program from the current token on, after those
/// already `found`. A statement that cannot be parsed is left out, and the
/// parser goes on behind it.
pub open spec fn more_program(tokens: Seq<TokenView>, c: Cursor, found: Seq<StatementView>) -> (
    Seq<StatementView>,
    Cursor,
)
    decreases tokens_left(tokens, c.index),
{
    if c.current(tokens) == TokenType::Eof {
        (found, c)
    } else {
        let (parsed, after) = parse_statement(tokens, c);
        let grown = match parsed {
            Some(s) => found.push(s),
            None => found,
        };
        more_program(tokens, after.not_before(c.index).advance(), grown)
    }
}

/// The program that a token sequence holds, and the diagnostics of parsing
/// it, from the first token on.
pub open spec fn parse_tokens(tokens: Seq<TokenView>) -> (Seq<StatementView>, Seq<Seq<char>>) {
    let (statements, end) = more_program(tokens, Cursor { index: 0, errors: Seq::empty() }, Seq::empty());
    (statements, end.errors)
}

} // verus!

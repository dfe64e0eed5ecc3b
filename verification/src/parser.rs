use crate::ast::{
    expressions_model, identifiers_model, lemma_expressions_model_push,
    lemma_statements_model_push, statements_model, Expression, ExpressionView, Identifier,
    IdentifierView, Program, Statement, StatementView,
};
use crate::grammar::{
    expect_peek, identifier_at, more_arguments, more_parameters, more_program, more_statements,
    parse_block_statement, parse_call_arguments, parse_call_expression, parse_expression,
    parse_expression_infix, parse_expression_prefix, parse_expression_statement,
    parse_function_literal, parse_function_parameters, parse_grouped_expression,
    parse_if_expression, parse_infix_expression, parse_integer_literal, parse_let_statement,
    parse_prefix_expression, parse_return_statement, parse_statement, extend_expression,
    lemma_tokens_from, peek_error_message, precedence_of, rank_at, token_at, tokens_from,
    tokens_left, Cursor,
};
use crate::lexer::{nth_token, position_after, scan, Lexer};
use crate::precedence::Precedence;
use crate::progress::{keeps, lemma_more_program_keeps};
use crate::text::parse_i64;
use crate::token::{Token, TokenType, TokenView};
use vstd::prelude::*;

verus! {

/// The texts of a list of diagnostics, in order.
pub open spec fn messages(v: Seq<String>) -> Seq<Seq<char>> {
    Seq::new(v.len(), |i: int| v[i]@)
}

/// The view of an expression that may be absent.
pub open spec fn expression_option(o: Option<Expression>) -> Option<ExpressionView> {
    match o {
        Some(e) => Some(e@),
        None => None,
    }
}

/// The view of a statement that may be absent.
pub open spec fn statement_option(o: Option<Statement>) -> Option<StatementView> {
    match o {
        Some(s) => Some(s@),
        None => None,
    }
}

/// The view of a parameter list that may be absent.
pub open spec fn identifiers_option(o: Option<Vec<Identifier>>) -> Option<Seq<IdentifierView>> {
    match o {
        Some(v) => Some(identifiers_model(v@)),
        None => None,
    }
}

/// The view of an argument list that may be absent.
pub open spec fn expressions_option(o: Option<Vec<Expression>>) -> Option<Seq<ExpressionView>> {
    match o {
        Some(v) => Some(expressions_model(v@)),
        None => None,
    }
}


/// A parser over the tokens of one scanner, with two tokens of lookahead:
/// the current token and the one after it.
pub struct Parser {
    lexer: Lexer,
    curr_token: Token,
    peek_token: Token,
    errors: Vec<String>,
    tokens: Ghost<Seq<TokenView>>,
    index: Ghost<nat>,
}

impl Parser {
    /// The tokens that the parser reads, from the first to the `Eof`.
    pub closed spec fn tokens(&self) -> Seq<TokenView> {
        self.tokens@
    }

    /// Where the parser stands, with the diagnostics gathered so far.
    pub closed spec fn cursor(&self) -> Cursor {
        Cursor { index: self.index@, errors: messages(self.errors@) }
    }

    /// The state is consistent: the two tokens of lookahead are those at
    /// the cursor, and the scanner stands behind them.
    pub closed spec fn wf(&self) -> bool {
        &&& self.lexer.wf()
        &&& self.curr_token@ == token_at(self.tokens@, self.index@)
        &&& self.peek_token@ == token_at(self.tokens@, self.index@ + 1)
        &&& forall|k: nat|
            token_at(self.tokens@, self.index@ + 2 + k) == #[trigger] nth_token(
                self.lexer.source(),
                self.lexer.pos(),
                k,
            )
    }

    /// A parser at the first token that `lexer` yields.
    pub fn new(lexer: Lexer) -> (parser: Self)
        requires
            lexer.wf(),
        ensures
            parser.wf(),
            parser.tokens() == tokens_from(lexer.source(), lexer.pos()),
            parser.cursor() == (Cursor { index: 0, errors: Seq::empty() }),
    {
        let ghost input = lexer.source();
        let ghost start = lexer.pos();
        let mut lexer = lexer;
        proof {
            lexer.lemma_wf();
        }
        let first = lexer.next_token();
        let second = lexer.next_token();
        let parser = Parser {
            lexer,
            curr_token: first,
            peek_token: second,
            errors: Vec::new(),
            tokens: Ghost(tokens_from(input, start)),
            index: Ghost(0),
        };
        proof {
            reveal_with_fuel(position_after, 3);
            lemma_tokens_from(input, start, 0);
            lemma_tokens_from(input, start, 1);
            assert(position_after(input, start, 1) == scan(input, start).1);
            assert forall|k: nat|
                token_at(parser.tokens@, 2 + k) == #[trigger] nth_token(
                    parser.lexer.source(),
                    parser.lexer.pos(),
                    k,
                ) by {
                lemma_tokens_from(input, start, 2 + k);
                crate::lexer::lemma_position_after_sum(input, start, 2, k);
                assert(position_after(input, start, 2) == parser.lexer.pos());
            }
            assert(messages(parser.errors@) =~= Seq::<Seq<char>>::empty());
        }
        parser
    }

    /// Moves the lookahead one token on.
    pub fn next_token(&mut self)
        requires
            old(self).wf(),
        ensures
            final(self).wf(),
            final(self).tokens() == old(self).tokens(),
            final(self).cursor() == old(self).cursor().advance(),
    {
        let ghost input = self.lexer.source();
        let ghost pos = self.lexer.pos();
        let next = self.lexer.next_token();
        std::mem::swap(&mut self.curr_token, &mut self.peek_token);
        self.peek_token = next;
        self.index = Ghost(self.index@ + 1);
        proof {
            assert(nth_token(input, pos, 0) == scan(input, pos).0);
            assert forall|k: nat|
                token_at(self.tokens@, self.index@ + 2 + k) == #[trigger] nth_token(
                    self.lexer.source(),
                    self.lexer.pos(),
                    k,
                ) by {
                assert(position_after(input, pos, k + 1) == position_after(
                    input,
                    scan(input, pos).1,
                    k,
                ));
                assert(nth_token(input, pos, k + 1) == nth_token(input, self.lexer.pos(), k));
            }
        }
    }

    /// Whether the current token is of category `token_type`.
    pub fn curr_token_is(&self, token_type: TokenType) -> (r: bool)
        requires
            self.wf(),
        ensures
            r == (self.cursor().current(self.tokens()) == token_type),
    {
        self.curr_token.token_type == token_type
    }

    /// Whether the token after the current one is of category `token_type`.
    pub fn peek_token_is(&self, token_type: TokenType) -> (r: bool)
        requires
            self.wf(),
        ensures
            r == (self.cursor().peek(self.tokens()) == token_type),
    {
        self.peek_token.token_type == token_type
    }

    /// Records that the token after the current one is not of category
    /// `token`.
    pub fn peek_error(&mut self, token: TokenType)
        requires
            old(self).wf(),
        ensures
            final(self).wf(),
            final(self).tokens() == old(self).tokens(),
            final(self).cursor() == old(self).cursor().with_error(
                peek_error_message(token, old(self).cursor().peek(old(self).tokens())),
            ),
    {
        let mut message = String::from_str("expected next token to be ");
        let expected = token.name();
        message.append(expected.as_str());
        message.append(", got ");
        let actual = self.peek_token.token_type.name();
        message.append(actual.as_str());
        message.append(" instead");
        proof {
            assert(messages(self.errors@.push(message)) =~= messages(self.errors@).push(message@));
        }
        self.errors.push(message);
    }

    /// Steps onto the next token if it is of category `token_type`;
    /// otherwise records a diagnostic and stays.
    pub fn expect_peek(&mut self, token_type: TokenType) -> (r: bool)
        requires
            old(self).wf(),
        ensures
            final(self).wf(),
            final(self).tokens() == old(self).tokens(),
            (r, final(self).cursor()) == expect_peek(
                old(self).tokens(),
                old(self).cursor(),
                token_type,
            ),
    {
        if self.peek_token_is(token_type) {
            self.next_token();
            true
        } else {
            self.peek_error(token_type);
            false
        }
    }

    /// The diagnostics gathered so far.
    pub fn errors(&self) -> (list: Vec<String>)
        ensures
            messages(list@) == self.cursor().errors,
    {
        let mut list: Vec<String> = Vec::new();
        let mut i: usize = 0;
        while i < self.errors.len()
            invariant
                i <= self.errors.len(),
                list@ == self.errors@.take(i as int),
            decreases self.errors.len() - i,
        {
            list.push(self.errors[i].clone());
            i += 1;
        }
        assert(self.errors@.take(self.errors.len() as int) == self.errors@);
        list
    }

    /// The name that the current token stands for.
    pub fn parse_identifier(&self) -> (e: Expression)
        requires
            self.wf(),
        ensures
            e@ == ExpressionView::Identifier(identifier_at(self.tokens(), self.cursor())),
    {
        Expression::Identifier(
            Identifier { token: self.curr_token.clone(), value: self.curr_token.literal.clone() },
        )
    }

    /// The boolean literal that the current token stands for: `true` for
    /// the keyword `true`, `false` for any other token.
    pub fn parse_boolean_expression(&self) -> (r: Option<Expression>)
        requires
            self.wf(),
        ensures
            expression_option(r) == Some(
                ExpressionView::Boolean {
                    token: token_at(self.tokens(), self.cursor().index),
                    value: self.cursor().current(self.tokens()) == TokenType::True,
                },
            ),
    {
        Some(
            Expression::Boolean {
                token: self.curr_token.clone(),
                value: self.curr_token_is(TokenType::True),
            },
        )
    }

    /// An integer literal from the current token; digits that are no 64-bit
    /// integer leave a diagnostic.
    pub fn parse_integer_literal(&mut self) -> (r: Option<Expression>)
        requires
            old(self).wf(),
        ensures
            final(self).wf(),
            final(self).tokens() == old(self).tokens(),
            final(self).cursor().index >= old(self).cursor().index,
            (expression_option(r), final(self).cursor()) == parse_integer_literal(
                old(self).tokens(),
                old(self).cursor(),
            ),
    {
        match parse_i64(self.curr_token.literal.as_str()) {
            Some(value) => Some(Expression::Integer { token: self.curr_token.clone(), value }),
            None => {
                let mut message = String::from_str("Could not parse ");
                message.append(self.curr_token.literal.as_str());
                message.append(" as integer");
                proof {
                    assert(messages(self.errors@.push(message)) =~= messages(self.errors@).push(
                        message@,
                    ));
                }
                self.errors.push(message);
                None
            },
        }
    }

    /// Steps over a semicolon, if one follows.
    fn skip_semicolon(&mut self)
        requires
            old(self).wf(),
        ensures
            final(self).wf(),
            final(self).tokens() == old(self).tokens(),
            final(self).cursor().index >= old(self).cursor().index,
            final(self).cursor() == old(self).cursor().skip_semicolon(old(self).tokens()),
    {
        if self.peek_token_is(TokenType::Semicolon) {
            self.next_token();
        }
    }

    /// Parses the statements of a program up to the end of the input. A
    /// statement that cannot be parsed leaves its diagnostics and is left
    /// out; the parser goes on behind it.
    pub fn parse_program(&mut self) -> (r: Option<Program>)
        requires
            old(self).wf(),
        ensures
            final(self).wf(),
            final(self).tokens() == old(self).tokens(),
            final(self).cursor().index >= old(self).cursor().index,
            r is Some,
            final(self).cursor().current(old(self).tokens()) == TokenType::Eof,
            keeps(old(self).cursor(), final(self).cursor()),
            (r->0@.statements, final(self).cursor()) == more_program(
                old(self).tokens(),
                old(self).cursor(),
                Seq::empty(),
            ),
    {
        let ghost tokens = self.tokens();
        let ghost start = self.cursor();
        let mut program = Program::new();
        proof {
            assert(statements_model(program.statements@) =~= Seq::<StatementView>::empty());
        }
        while !self.curr_token_is(TokenType::Eof)
            invariant
                self.wf(),
                self.tokens() == tokens,
                self.cursor().index >= start.index,
                more_program(tokens, self.cursor(), statements_model(program.statements@))
                    == more_program(tokens, start, Seq::empty()),
            decreases tokens_left(tokens, self.cursor().index),
        {
            if let Some(statement) = self.parse_statement() {
                proof {
                    lemma_statements_model_push(program.statements@, statement);
                }
                program.statements.push(statement);
            }
            self.next_token();
        }
        proof {
            lemma_more_program_keeps(tokens, start, Seq::empty());
        }
        Some(program)
    }

    /// Parses the statement that the current token starts.
    pub fn parse_statement(&mut self) -> (r: Option<Statement>)
        requires
            old(self).wf(),
        ensures
            final(self).wf(),
            final(self).tokens() == old(self).tokens(),
            final(self).cursor().index >= old(self).cursor().index,
            (statement_option(r), final(self).cursor()) == parse_statement(
                old(self).tokens(),
                old(self).cursor(),
            ),
        decreases tokens_left(old(self).tokens(), old(self).cursor().index), 8nat,
    {
        match self.curr_token.token_type {
            TokenType::Let => self.parse_let_statement(),
            TokenType::Return => self.parse_return_statement(),
            _ => self.parse_expression_statement(),
        }
    }

    /// Parses `return expression`, with the semicolon where one follows.
    pub fn parse_return_statement(&mut self) -> (r: Option<Statement>)
        requires
            old(self).wf(),
        ensures
            final(self).wf(),
            final(self).tokens() == old(self).tokens(),
            final(self).cursor().index >= old(self).cursor().index,
            (statement_option(r), final(self).cursor()) == parse_return_statement(
                old(self).tokens(),
                old(self).cursor(),
            ),
        decreases tokens_left(old(self).tokens(), old(self).cursor().index), rank_at(
            old(self).tokens(),
            old(self).cursor().index,
            7,
        ),
    {
        let token = self.curr_token.clone();
        self.next_token();
        let value = match self.parse_expression_w_precedence(Precedence::Lowest) {
            Some(e) => e,
            None => {
                return None;
            },
        };
        self.skip_semicolon();
        Some(Statement::Return { token, value })
    }

    /// Parses `let name = expression`, with the semicolon where one
    /// follows. A token out of place leaves a diagnostic and no statement.
    pub fn parse_let_statement(&mut self) -> (r: Option<Statement>)
        requires
            old(self).wf(),
        ensures
            final(self).wf(),
            final(self).tokens() == old(self).tokens(),
            final(self).cursor().index >= old(self).cursor().index,
            (statement_option(r), final(self).cursor()) == parse_let_statement(
                old(self).tokens(),
                old(self).cursor(),
            ),
        decreases tokens_left(old(self).tokens(), old(self).cursor().index), 7nat,
    {
        let token = self.curr_token.clone();
        if !self.expect_peek(TokenType::Ident) {
            return None;
        }
        let name = Identifier {
            token: self.curr_token.clone(),
            value: self.curr_token.literal.clone(),
        };
        if !self.expect_peek(TokenType::Assign) {
            return None;
        }
        self.next_token();
        let value = match self.parse_expression_w_precedence(Precedence::Lowest) {
            Some(e) => e,
            None => {
                return None;
            },
        };
        self.skip_semicolon();
        Some(Statement::Let { token, name, value })
    }

    /// Parses an expression as a statement, with the semicolon where one
    /// follows.
    pub fn parse_expression_statement(&mut self) -> (r: Option<Statement>)
        requires
            old(self).wf(),
        ensures
            final(self).wf(),
            final(self).tokens() == old(self).tokens(),
            final(self).cursor().index >= old(self).cursor().index,
            (statement_option(r), final(self).cursor()) == parse_expression_statement(
                old(self).tokens(),
                old(self).cursor(),
            ),
        decreases tokens_left(old(self).tokens(), old(self).cursor().index), 7nat,
    {
        let expression = match self.parse_expression_w_precedence(Precedence::Lowest) {
            Some(e) => e,
            None => {
                return None;
            },
        };
        self.skip_semicolon();
        Some(Statement::Expression(expression))
    }

    /// Parses an expression whose operators bind tighter than `precedence`.
    pub fn parse_expression_w_precedence(&mut self, precedence: Precedence) -> (r: Option<
        Expression,
    >)
        requires
            old(self).wf(),
        ensures
            final(self).wf(),
            final(self).tokens() == old(self).tokens(),
            final(self).cursor().index >= old(self).cursor().index,
            (expression_option(r), final(self).cursor()) == parse_expression(
                old(self).tokens(),
                old(self).cursor(),
                precedence,
            ),
        decreases tokens_left(old(self).tokens(), old(self).cursor().index), 6nat,
    {
        let ghost tokens = self.tokens();
        let ghost start = self.cursor();
        let mut left = match self.parse_expression_prefix() {
            Some(e) => e,
            None => {
                return None;
            },
        };
        let ghost after_prefix = self.cursor();
        let ghost first = left@;
        while !self.peek_token_is(TokenType::Semicolon) && precedence.level()
            < self.peek_precedence().level()
            invariant
                self.wf(),
                self.tokens() == tokens,
                tokens == old(self).tokens(),
                start == old(self).cursor(),
                self.cursor().index >= start.index,
                extend_expression(tokens, self.cursor(), precedence, left@) == extend_expression(
                    tokens,
                    after_prefix,
                    precedence,
                    first,
                ),
            decreases tokens_left(tokens, self.cursor().index),
        {
            self.next_token();
            let copy = left.clone();
            if let Some(infix) = self.parse_expression_infix(copy) {
                left = infix;
            }
        }
        Some(left)
    }

    /// Parses the expression that the current token starts.
    pub fn parse_expression_prefix(&mut self) -> (r: Option<Expression>)
        requires
            old(self).wf(),
        ensures
            final(self).wf(),
            final(self).tokens() == old(self).tokens(),
            final(self).cursor().index >= old(self).cursor().index,
            (expression_option(r), final(self).cursor()) == parse_expression_prefix(
                old(self).tokens(),
                old(self).cursor(),
            ),
        decreases tokens_left(old(self).tokens(), old(self).cursor().index), 5nat,
    {
        match self.curr_token.token_type {
            TokenType::Ident => Some(self.parse_identifier()),
            TokenType::Int => self.parse_integer_literal(),
            TokenType::Minus | TokenType::Bang => self.parse_prefix_expression(),
            TokenType::True | TokenType::False => self.parse_boolean_expression(),
            TokenType::LParen => self.parse_grouped_expression(),
            TokenType::If => self.parse_if_expression(),
            TokenType::Function => self.parse_function_literal(),
            _ => None,
        }
    }

    /// Parses what the current token, an infix operator or the `(` of a
    /// call, makes of `expression` and what follows.
    pub fn parse_expression_infix(&mut self, expression: Expression) -> (r: Option<Expression>)
        requires
            old(self).wf(),
        ensures
            final(self).wf(),
            final(self).tokens() == old(self).tokens(),
            final(self).cursor().index >= old(self).cursor().index,
            (expression_option(r), final(self).cursor()) == parse_expression_infix(
                old(self).tokens(),
                old(self).cursor(),
                expression@,
            ),
        decreases tokens_left(old(self).tokens(), old(self).cursor().index), 3nat,
    {
        match self.curr_token.token_type {
            TokenType::Eq
            | TokenType::NotEq
            | TokenType::Minus
            | TokenType::Plus
            | TokenType::Asterisk
            | TokenType::Slash
            | TokenType::Gt
            | TokenType::Lt => self.parse_infix_expression(expression),
            TokenType::LParen => self.parse_call_expression(expression),
            _ => None,
        }
    }

    /// Parses a prefix operator, the current token, with its operand.
    pub fn parse_prefix_expression(&mut self) -> (r: Option<Expression>)
        requires
            old(self).wf(),
        ensures
            final(self).wf(),
            final(self).tokens() == old(self).tokens(),
            final(self).cursor().index >= old(self).cursor().index,
            (expression_option(r), final(self).cursor()) == parse_prefix_expression(
                old(self).tokens(),
                old(self).cursor(),
            ),
        decreases tokens_left(old(self).tokens(), old(self).cursor().index), rank_at(
            old(self).tokens(),
            old(self).cursor().index,
            4,
        ),
    {
        let token = self.curr_token.clone();
        let operator = self.curr_token.literal.clone();
        self.next_token();
        let right = self.parse_expression_w_precedence(Precedence::Prefix);
        Some(Expression::Prefix { token, operator, right: Box::new(right) })
    }

    /// Parses an infix operator, the current token, between `left` and the
    /// expression that follows it.
    pub fn parse_infix_expression(&mut self, left: Expression) -> (r: Option<Expression>)
        requires
            old(self).wf(),
        ensures
            final(self).wf(),
            final(self).tokens() == old(self).tokens(),
            final(self).cursor().index >= old(self).cursor().index,
            (expression_option(r), final(self).cursor()) == parse_infix_expression(
                old(self).tokens(),
                old(self).cursor(),
                left@,
            ),
        decreases tokens_left(old(self).tokens(), old(self).cursor().index), rank_at(
            old(self).tokens(),
            old(self).cursor().index,
            1,
        ),
    {
        let token = self.curr_token.clone();
        let operator = self.curr_token.literal.clone();
        let precedence = self.curr_precedence();
        self.next_token();
        let right = match self.parse_expression_w_precedence(precedence) {
            Some(e) => e,
            None => {
                return None;
            },
        };
        Some(Expression::Infix { token, operator, right: Box::new(right), left: Box::new(left) })
    }

    /// Parses an expression in parentheses; the current token is the `(`.
    pub fn parse_grouped_expression(&mut self) -> (r: Option<Expression>)
        requires
            old(self).wf(),
        ensures
            final(self).wf(),
            final(self).tokens() == old(self).tokens(),
            final(self).cursor().index >= old(self).cursor().index,
            (expression_option(r), final(self).cursor()) == parse_grouped_expression(
                old(self).tokens(),
                old(self).cursor(),
            ),
        decreases tokens_left(old(self).tokens(), old(self).cursor().index), rank_at(
            old(self).tokens(),
            old(self).cursor().index,
            4,
        ),
    {
        self.next_token();
        let expression = match self.parse_expression_w_precedence(Precedence::Lowest) {
            Some(e) => e,
            None => {
                return None;
            },
        };
        if self.expect_peek(TokenType::RParen) {
            Some(expression)
        } else {
            None
        }
    }

    /// Parses an `if` with its condition and blocks; the current token is
    /// the `if`.
    pub fn parse_if_expression(&mut self) -> (r: Option<Expression>)
        requires
            old(self).wf(),
        ensures
            final(self).wf(),
            final(self).tokens() == old(self).tokens(),
            final(self).cursor().index >= old(self).cursor().index,
            (expression_option(r), final(self).cursor()) == parse_if_expression(
                old(self).tokens(),
                old(self).cursor(),
            ),
        decreases tokens_left(old(self).tokens(), old(self).cursor().index), 4nat,
    {
        let token = self.curr_token.clone();
        if !self.expect_peek(TokenType::LParen) {
            return None;
        }
        self.next_token();
        let condition = match self.parse_expression_w_precedence(Precedence::Lowest) {
            Some(e) => e,
            None => {
                return None;
            },
        };
        if !self.expect_peek(TokenType::RParen) {
            return None;
        }
        if !self.expect_peek(TokenType::LBrace) {
            return None;
        }
        let consequence = self.parse_block_statement();
        let alternative = if self.peek_token_is(TokenType::Else) {
            self.next_token();
            if !self.expect_peek(TokenType::LBrace) {
                return None;
            }
            Some(Box::new(self.parse_block_statement()))
        } else {
            None
        };
        Some(
            Expression::If {
                token,
                condition: Box::new(condition),
                consequence: Box::new(consequence),
                alternative,
            },
        )
    }

    /// Parses a block; the current token is its `{`.
    pub fn parse_block_statement(&mut self) -> (r: Statement)
        requires
            old(self).wf(),
        ensures
            final(self).wf(),
            final(self).tokens() == old(self).tokens(),
            final(self).cursor().index >= old(self).cursor().index,
            (r@, final(self).cursor()) == parse_block_statement(
                old(self).tokens(),
                old(self).cursor(),
            ),
        decreases tokens_left(old(self).tokens(), old(self).cursor().index), rank_at(
            old(self).tokens(),
            old(self).cursor().index,
            4,
        ),
    {
        let ghost tokens = self.tokens();
        let ghost entry = self.cursor();
        let token = self.curr_token.clone();
        self.next_token();
        let ghost start = self.cursor();
        let mut statements: Vec<Statement> = Vec::new();
        proof {
            assert(statements_model(statements@) =~= Seq::<StatementView>::empty());
        }
        while !self.curr_token_is(TokenType::RBrace) && !self.curr_token_is(TokenType::Eof)
            invariant
                self.wf(),
                self.tokens() == tokens,
                tokens == old(self).tokens(),
                entry == old(self).cursor(),
                self.cursor().index >= start.index,
                start.index == entry.index + 1,
                more_statements(tokens, self.cursor(), statements_model(statements@))
                    == more_statements(tokens, start, Seq::empty()),
            decreases tokens_left(tokens, self.cursor().index),
        {
            if let Some(statement) = self.parse_statement() {
                proof {
                    lemma_statements_model_push(statements@, statement);
                }
                statements.push(statement);
            }
            self.next_token();
        }
        Statement::Block { token, statements }
    }

    /// Parses a function literal; the current token is the `fn`.
    pub fn parse_function_literal(&mut self) -> (r: Option<Expression>)
        requires
            old(self).wf(),
        ensures
            final(self).wf(),
            final(self).tokens() == old(self).tokens(),
            final(self).cursor().index >= old(self).cursor().index,
            (expression_option(r), final(self).cursor()) == parse_function_literal(
                old(self).tokens(),
                old(self).cursor(),
            ),
        decreases tokens_left(old(self).tokens(), old(self).cursor().index), 4nat,
    {
        let token = self.curr_token.clone();
        if !self.expect_peek(TokenType::LParen) {
            return None;
        }
        let parameters = match self.parse_function_parameters() {
            Some(list) => list,
            None => {
                return None;
            },
        };
        if !self.expect_peek(TokenType::LBrace) {
            return None;
        }
        let body = self.parse_block_statement();
        Some(Expression::Function { token, parameters, body: Box::new(body) })
    }

    /// Parses the parameter list of a function literal; the current token
    /// is its `(`.
    pub fn parse_function_parameters(&mut self) -> (r: Option<Vec<Identifier>>)
        requires
            old(self).wf(),
        ensures
            final(self).wf(),
            final(self).tokens() == old(self).tokens(),
            final(self).cursor().index >= old(self).cursor().index,
            (identifiers_option(r), final(self).cursor()) == parse_function_parameters(
                old(self).tokens(),
                old(self).cursor(),
            ),
    {
        let ghost tokens = self.tokens();
        let mut identifiers: Vec<Identifier> = Vec::new();
        if self.peek_token_is(TokenType::RParen) {
            self.next_token();
            proof {
                assert(identifiers_model(identifiers@) =~= Seq::<IdentifierView>::empty());
            }
            return Some(identifiers);
        }
        self.next_token();
        let ghost first = self.cursor();
        identifiers.push(
            Identifier { token: self.curr_token.clone(), value: self.curr_token.literal.clone() },
        );
        proof {
            assert(identifiers_model(identifiers@) =~= seq![identifier_at(tokens, first)]);
        }
        while self.peek_token_is(TokenType::Comma)
            invariant
                self.wf(),
                self.tokens() == tokens,
                self.cursor().index >= first.index,
                more_parameters(tokens, self.cursor(), identifiers_model(identifiers@))
                    == more_parameters(tokens, first, seq![identifier_at(tokens, first)]),
            decreases tokens_left(tokens, self.cursor().index),
        {
            self.next_token();
            self.next_token();
            let ghost before = identifiers@;
            let identifier = Identifier {
                token: self.curr_token.clone(),
                value: self.curr_token.literal.clone(),
            };
            identifiers.push(identifier);
            proof {
                assert(identifiers_model(identifiers@) =~= identifiers_model(before).push(
                    identifier_at(tokens, self.cursor()),
                ));
            }
        }
        if !self.expect_peek(TokenType::RParen) {
            return None;
        }
        Some(identifiers)
    }

    /// Parses a call of `expression`; the current token is the `(` of its
    /// arguments.
    pub fn parse_call_expression(&mut self, expression: Expression) -> (r: Option<Expression>)
        requires
            old(self).wf(),
        ensures
            final(self).wf(),
            final(self).tokens() == old(self).tokens(),
            final(self).cursor().index >= old(self).cursor().index,
            (expression_option(r), final(self).cursor()) == parse_call_expression(
                old(self).tokens(),
                old(self).cursor(),
                expression@,
            ),
        decreases tokens_left(old(self).tokens(), old(self).cursor().index), rank_at(
            old(self).tokens(),
            old(self).cursor().index,
            2,
        ),
    {
        let token = self.curr_token.clone();
        let arguments = self.parse_call_arguments();
        Some(Expression::Call { token, function: Box::new(expression), arguments })
    }

    /// Parses the arguments of a call; the current token is their `(`.
    pub fn parse_call_arguments(&mut self) -> (r: Option<Vec<Expression>>)
        requires
            old(self).wf(),
        ensures
            final(self).wf(),
            final(self).tokens() == old(self).tokens(),
            final(self).cursor().index >= old(self).cursor().index,
            (expressions_option(r), final(self).cursor()) == parse_call_arguments(
                old(self).tokens(),
                old(self).cursor(),
            ),
        decreases tokens_left(old(self).tokens(), old(self).cursor().index), rank_at(
            old(self).tokens(),
            old(self).cursor().index,
            0,
        ),
    {
        let ghost tokens = self.tokens();
        let ghost entry = self.cursor();
        if self.peek_token_is(TokenType::RParen) {
            self.next_token();
            return None;
        }
        self.next_token();
        let first = match self.parse_expression_w_precedence(Precedence::Lowest) {
            Some(e) => e,
            None => {
                return None;
            },
        };
        let ghost start = self.cursor();
        let ghost head = first@;
        let mut args: Vec<Expression> = Vec::new();
        proof {
            lemma_expressions_model_push(args@, first);
            assert(expressions_model(args@) =~= Seq::<ExpressionView>::empty());
            assert(Seq::<ExpressionView>::empty().push(head) =~= seq![head]);
        }
        args.push(first);
        while self.peek_token_is(TokenType::Comma)
            invariant
                self.wf(),
                self.tokens() == tokens,
                tokens == old(self).tokens(),
                entry == old(self).cursor(),
                self.cursor().index >= start.index,
                start.index >= entry.index + 1,
                entry.peek(tokens) != TokenType::RParen,
                parse_expression(tokens, entry.advance(), Precedence::Lowest) == (
                    Some(head),
                    start,
                ),
                more_arguments(tokens, self.cursor(), expressions_model(args@)) == more_arguments(
                    tokens,
                    start,
                    seq![head],
                ),
            decreases tokens_left(tokens, self.cursor().index),
        {
            self.next_token();
            self.next_token();
            let next = match self.parse_expression_w_precedence(Precedence::Lowest) {
                Some(e) => e,
                None => {
                    return None;
                },
            };
            proof {
                lemma_expressions_model_push(args@, next);
            }
            args.push(next);
        }
        if !self.expect_peek(TokenType::RParen) {
            return None;
        }
        Some(args)
    }

    /// The binding power of the token after the current one.
    pub fn peek_precedence(&self) -> (p: Precedence)
        requires
            self.wf(),
        ensures
            p == precedence_of(self.cursor().peek(self.tokens())),
    {
        Self::get_precedence_of_token(self.peek_token.token_type)
    }

    /// The binding power of the current token.
    pub fn curr_precedence(&self) -> (p: Precedence)
        requires
            self.wf(),
        ensures
            p == precedence_of(self.cursor().current(self.tokens())),
    {
        Self::get_precedence_of_token(self.curr_token.token_type)
    }

    /// The binding power of a token that stands between two operands.
    pub fn get_precedence_of_token(token_type: TokenType) -> (p: Precedence)
        ensures
            p == precedence_of(token_type),
    {
        match token_type {
            TokenType::Eq | TokenType::NotEq => Precedence::Equals,
            TokenType::Lt | TokenType::Gt => Precedence::LessGreater,
            TokenType::Plus | TokenType::Minus => Precedence::Sum,
            TokenType::Asterisk | TokenType::Slash => Precedence::Product,
            TokenType::LParen => Precedence::Call,
            _ => Precedence::Lowest,
        }
    }
}


} // verus!

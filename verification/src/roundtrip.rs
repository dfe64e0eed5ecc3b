use crate::ast::{expression_text, statement_text, ExpressionView, IdentifierView, StatementView};
use crate::grammar::{
    eof, expect_peek, extend_expression, identifier_at, more_program, parse_expression,
    parse_expression_infix, parse_expression_prefix, parse_expression_statement,
    parse_let_statement, parse_return_statement, parse_grouped_expression, parse_infix_expression,
    lemma_tokens_from, lemma_tokens_from_length, parse_statement, parse_tokens, precedence_of,
    token_at, tokens_from, tokens_of, Cursor,
};
use crate::lexer::{lemma_position_after_sum, nth_token, position_after, scan, skip_spaces};
use crate::precedence::Precedence;
use crate::scanning::{
    all_ident_parts, lemma_scan_after_space, lemma_scan_bang, lemma_scan_double,
    lemma_scan_number, lemma_scan_symbol, lemma_scan_word, text_at,
};
use crate::text::{is_digit, is_ident_part, is_letter, parsed_i64};
use crate::token::{keyword_or_ident, TokenType, TokenView};
use vstd::prelude::*;

verus! {

/// The categories of the operators that stand between two operands.
pub open spec fn is_infix_operator(kind: TokenType) -> bool {
    kind == TokenType::Eq || kind == TokenType::NotEq || kind == TokenType::Minus || kind
        == TokenType::Plus || kind == TokenType::Asterisk || kind == TokenType::Slash || kind
        == TokenType::Gt || kind == TokenType::Lt
}

/// The trees of arithmetic: integer and boolean literals, names, and the
/// prefix and infix operators over them, each node with the token that it
/// was read from.
pub open spec fn is_arithmetic(e: ExpressionView) -> bool
    decreases e,
{
    match e {
        ExpressionView::Integer { token, value } => token.token_type == TokenType::Int
            && parsed_i64(token.literal) == Some(value),
        ExpressionView::Boolean { token, value } => token.token_type == if value {
            TokenType::True
        } else {
            TokenType::False
        },
        ExpressionView::Identifier(identifier) => identifier.token.token_type == TokenType::Ident
            && identifier.value == identifier.token.literal,
        ExpressionView::Prefix { token, operator, right } => (token.token_type == TokenType::Minus
            || token.token_type == TokenType::Bang) && operator == token.literal && (match right {
            Some(operand) => is_arithmetic(*operand),
            None => false,
        }),
        ExpressionView::Infix { token, operator, right, left } => is_infix_operator(
            token.token_type,
        ) && operator == token.literal && is_arithmetic(*left) && is_arithmetic(*right),
        _ => false,
    }
}

/// The token `(`.
pub open spec fn left_parenthesis() -> TokenView {
    TokenView { token_type: TokenType::LParen, literal: "("@ }
}

/// The token `)`.
pub open spec fn right_parenthesis() -> TokenView {
    TokenView { token_type: TokenType::RParen, literal: ")"@ }
}

/// The tokens of a tree of arithmetic written out in full: every infix
/// expression between parentheses, a prefix operator right before its
/// operand.
pub open spec fn expression_tokens(e: ExpressionView) -> Seq<TokenView>
    decreases e,
{
    match e {
        ExpressionView::Integer { token, .. } => seq![token],
        ExpressionView::Boolean { token, .. } => seq![token],
        ExpressionView::Identifier(identifier) => seq![identifier.token],
        ExpressionView::Prefix { token, right, .. } => match right {
            Some(operand) => seq![token] + expression_tokens(*operand),
            None => seq![token],
        },
        ExpressionView::Infix { token, right, left, .. } => seq![left_parenthesis()]
            + expression_tokens(*left) + seq![token] + expression_tokens(*right)
            + seq![right_parenthesis()],
        _ => Seq::empty(),
    }
}

/// The tokens `part` stand in `tokens` from place `i` on.
pub open spec fn occurs_at(tokens: Seq<TokenView>, i: nat, part: Seq<TokenView>) -> bool {
    &&& i + part.len() <= tokens.len()
    &&& forall|k: int| 0 <= k < part.len() ==> tokens[i + k] == #[trigger] part[k]
}

/// A tree of arithmetic has at least one token, and its first token starts
/// an expression.
pub proof fn lemma_expression_tokens_first(e: ExpressionView)
    requires
        is_arithmetic(e),
    ensures
        expression_tokens(e).len() >= 1,
        expression_tokens(e)[0].token_type != TokenType::Eof,
        expression_tokens(e)[0].token_type != TokenType::Let,
        expression_tokens(e)[0].token_type != TokenType::Return,
    decreases e,
{
    match e {
        ExpressionView::Prefix { token, right, .. } => {
            assert((seq![token] + expression_tokens(*right->0))[0] == token);
        },
        ExpressionView::Infix { token, right, left, .. } => {
            let all = expression_tokens(e);
            assert(all[0] == left_parenthesis());
        },
        _ => {},
    }
}

/// Where the tokens of a tree of arithmetic stand, followed by no `(`, the
/// rule for the start of an expression reads the tree back and ends on its
/// last token, without a diagnostic.
pub proof fn lemma_prefix_rule_reads_tree(tokens: Seq<TokenView>, c: Cursor, e: ExpressionView)
    requires
        is_arithmetic(e),
        occurs_at(tokens, c.index, expression_tokens(e)),
        token_at(tokens, c.index + expression_tokens(e).len()).token_type != TokenType::LParen,
    ensures
        parse_expression_prefix(tokens, c) == (
            Some(e),
            Cursor { index: (c.index + expression_tokens(e).len() - 1) as nat, errors: c.errors },
        ),
    decreases e, 0nat,
{
    let part = expression_tokens(e);
    let i = c.index as int;
    lemma_expression_tokens_first(e);
    assert(tokens[i + 0] == part[0]);
    match e {
        ExpressionView::Integer { token, value } => {
            assert(part[0] == token);
        },
        ExpressionView::Boolean { token, value } => {
            assert(part[0] == token);
        },
        ExpressionView::Identifier(identifier) => {
            assert(part[0] == identifier.token);
        },
        ExpressionView::Prefix { token, operator, right } => {
            let operand = *right->0;
            let inner = expression_tokens(operand);
            assert(part[0] == token);
            assert(part.len() == inner.len() + 1);
            assert(occurs_at(tokens, (i + 1) as nat, inner)) by {
                assert forall|k: int| 0 <= k < inner.len() implies tokens[i + 1 + k]
                    == #[trigger] inner[k] by {
                    assert(part[k + 1] == inner[k]);
                }
            }
            lemma_operand_reads_tree(tokens, c.advance(), operand, Precedence::Prefix);
        },
        ExpressionView::Infix { token, operator, right, left } => {
            let l = expression_tokens(*left);
            let r = expression_tokens(*right);
            let m = l.len() as int;
            let n = r.len() as int;
            assert(part.len() == m + n + 3);
            assert(part[0] == left_parenthesis());
            assert(part[m + 1] == token);
            assert(part[m + n + 2] == right_parenthesis());
            assert(tokens[i + (m + 1)] == part[m + 1]);
            assert(tokens[i + (m + n + 2)] == part[m + n + 2]);
            assert(occurs_at(tokens, (i + 1) as nat, l)) by {
                assert forall|k: int| 0 <= k < l.len() implies tokens[i + 1 + k]
                    == #[trigger] l[k] by {
                    assert(part[k + 1] == l[k]);
                }
            }
            assert(occurs_at(tokens, (i + m + 2) as nat, r)) by {
                assert forall|k: int| 0 <= k < r.len() implies tokens[i + m + 2 + k]
                    == #[trigger] r[k] by {
                    assert(part[k + m + 2] == r[k]);
                }
            }
            lemma_expression_tokens_first(*left);
            lemma_expression_tokens_first(*right);
            // The left operand, up to the operator.
            let c1 = c.advance();
            lemma_prefix_rule_reads_tree(tokens, c1, *left);
            let at_left_end = Cursor { index: (i + m) as nat, errors: c.errors };
            assert(parse_expression_prefix(tokens, c1) == (Some(*left), at_left_end));
            assert(at_left_end.not_before(c1.index) == at_left_end);
            // The operator and the right operand, up to the `)`.
            let at_operator = at_left_end.advance();
            assert(token_at(tokens, at_operator.index) == token);
            lemma_operand_reads_tree(
                tokens,
                at_operator.advance(),
                *right,
                precedence_of(token.token_type),
            );
            let at_right_end = Cursor { index: (i + m + n + 1) as nat, errors: c.errors };
            assert(parse_infix_expression(tokens, at_operator, *left) == (Some(e), at_right_end));
            assert(parse_expression_infix(tokens, at_operator, *left) == (Some(e), at_right_end));
            assert(at_right_end.not_before(at_operator.index) == at_right_end);
            assert(at_left_end.peek(tokens) == token.token_type);
            assert(at_right_end.peek(tokens) == TokenType::RParen);
            assert(extend_expression(tokens, at_right_end, Precedence::Lowest, e) == (
                Some(e),
                at_right_end,
            ));
            assert(extend_expression(tokens, at_left_end, Precedence::Lowest, *left) == (
                Some(e),
                at_right_end,
            ));
            assert(parse_expression(tokens, c1, Precedence::Lowest) == (Some(e), at_right_end));
            assert(expect_peek(tokens, at_right_end, TokenType::RParen) == (
                true,
                at_right_end.advance(),
            ));
            assert(parse_grouped_expression(tokens, c) == (Some(e), at_right_end.advance()));
        },
        _ => {},
    }
}

/// Where the tokens of a tree of arithmetic stand, followed by a semicolon
/// or by a token that binds no tighter than `precedence`, the rule for an
/// expression reads the tree back and ends on its last token, without a
/// diagnostic.
pub proof fn lemma_operand_reads_tree(
    tokens: Seq<TokenView>,
    c: Cursor,
    e: ExpressionView,
    precedence: Precedence,
)
    requires
        is_arithmetic(e),
        occurs_at(tokens, c.index, expression_tokens(e)),
        ({
            let next = token_at(tokens, c.index + expression_tokens(e).len()).token_type;
            next == TokenType::Semicolon || precedence_of(next).rank() <= precedence.rank()
        }),
        token_at(tokens, c.index + expression_tokens(e).len()).token_type != TokenType::LParen,
    ensures
        parse_expression(tokens, c, precedence) == (
            Some(e),
            Cursor { index: (c.index + expression_tokens(e).len() - 1) as nat, errors: c.errors },
        ),
    decreases e, 1nat,
{
    lemma_expression_tokens_first(e);
    lemma_prefix_rule_reads_tree(tokens, c, e);
    let end = Cursor {
        index: (c.index + expression_tokens(e).len() - 1) as nat,
        errors: c.errors,
    };
    assert(end.not_before(c.index) == end);
    assert(extend_expression(tokens, end, precedence, e) == (Some(e), end));
}

/// The tokens of a tree of arithmetic, written out in full and followed by
/// the end of the input, are parsed as the one statement that holds the
/// tree, without a diagnostic: the way the parser groups operands is the
/// way the parentheses show.
pub proof fn lemma_parse_of_expression_tokens(e: ExpressionView)
    requires
        is_arithmetic(e),
    ensures
        parse_tokens(expression_tokens(e).push(eof())) == (
            seq![StatementView::Expression(e)],
            Seq::<Seq<char>>::empty(),
        ),
{
    let part = expression_tokens(e);
    let tokens = part.push(eof());
    let n = part.len() as int;
    let start = Cursor { index: 0, errors: Seq::empty() };
    lemma_expression_tokens_first(e);
    assert(occurs_at(tokens, 0, part)) by {
        assert forall|k: int| 0 <= k < part.len() implies tokens[0 + k] == #[trigger] part[k] by {}
    }
    assert(token_at(tokens, n as nat) == eof());
    lemma_operand_reads_tree(tokens, start, e, Precedence::Lowest);
    let end = Cursor { index: (n - 1) as nat, errors: Seq::empty() };
    assert(parse_expression(tokens, start, Precedence::Lowest) == (Some(e), end));
    assert(end.peek(tokens) == TokenType::Eof);
    assert(end.skip_semicolon(tokens) == end);
    assert(tokens[0] == part[0]);
    assert(parse_expression_statement(tokens, start) == (
        Some(StatementView::Expression(e)),
        end,
    ));
    assert(parse_statement(tokens, start) == (Some(StatementView::Expression(e)), end));
    let after = end.not_before(0).advance();
    assert(after.current(tokens) == TokenType::Eof);
    let found = Seq::<StatementView>::empty().push(StatementView::Expression(e));
    assert(more_program(tokens, after, found) == (found, after));
    assert(more_program(tokens, start, Seq::empty()) == (found, after));
    assert(found =~= seq![StatementView::Expression(e)]);
}

/// A name: a letter or underscore, then letters, digits and underscores,
/// and no keyword.
pub open spec fn is_name(word: Seq<char>) -> bool {
    &&& word.len() > 0
    &&& is_letter(word[0])
    &&& all_ident_parts(word)
    &&& keyword_or_ident(word) == TokenType::Ident
}

/// The trees of arithmetic whose tokens hold the very text that stands for
/// them: digits for an integer, `true` or `false` for a boolean, a name for
/// an identifier, the symbol for an operator.
pub open spec fn is_printable(e: ExpressionView) -> bool
    decreases e,
{
    match e {
        ExpressionView::Integer { token, value } => token.token_type == TokenType::Int
            && parsed_i64(token.literal) == Some(value),
        ExpressionView::Boolean { token, value } => if value {
            token.token_type == TokenType::True && token.literal == "true"@
        } else {
            token.token_type == TokenType::False && token.literal == "false"@
        },
        ExpressionView::Identifier(identifier) => identifier.token.token_type == TokenType::Ident
            && identifier.value == identifier.token.literal && is_name(identifier.token.literal),
        ExpressionView::Prefix { token, operator, right } => (token.token_type == TokenType::Minus
            || token.token_type == TokenType::Bang) && token.literal
            == token.token_type.spec_symbol() && operator == token.literal && (match right {
            Some(operand) => is_printable(*operand),
            None => false,
        }),
        ExpressionView::Infix { token, operator, right, left } => is_infix_operator(
            token.token_type,
        ) && token.literal == token.token_type.spec_symbol() && operator == token.literal
            && is_printable(*left) && is_printable(*right),
        _ => false,
    }
}

/// A printable tree is a tree of arithmetic.
pub proof fn lemma_printable_is_arithmetic(e: ExpressionView)
    requires
        is_printable(e),
    ensures
        is_arithmetic(e),
    decreases e,
{
    match e {
        ExpressionView::Prefix { right, .. } => {
            lemma_printable_is_arithmetic(*right->0);
        },
        ExpressionView::Infix { right, left, .. } => {
            lemma_printable_is_arithmetic(*left);
            lemma_printable_is_arithmetic(*right);
        },
        _ => {},
    }
}

/// The characters that the text of a printable tree may start with.
pub open spec fn starts_expression(c: char) -> bool {
    is_digit(c) || is_letter(c) || c == '(' || c == '-' || c == '!'
}

/// The text of a printable tree is not empty and starts with a digit, a
/// letter, `(`, `-` or `!`.
pub proof fn lemma_text_first(e: ExpressionView)
    requires
        is_printable(e),
    ensures
        expression_text(e).len() > 0,
        starts_expression(expression_text(e)[0]),
    decreases e,
{
    reveal_strlit("true");
    reveal_strlit("false");
    reveal_strlit("(");
    reveal_strlit("-");
    reveal_strlit("!");
    match e {
        ExpressionView::Integer { token, .. } => {
            assert(is_digit(token.literal[0]));
        },
        ExpressionView::Prefix { token, operator, right } => {
            lemma_text_first(*right->0);
        },
        ExpressionView::Infix { token, operator, right, left } => {
            lemma_text_first(*left);
            lemma_text_first(*right);
        },
        _ => {},
    }
}

/// No token of a tree of arithmetic is `Eof`.
pub proof fn lemma_expression_tokens_not_eof(e: ExpressionView, k: int)
    requires
        is_arithmetic(e),
        0 <= k < expression_tokens(e).len(),
    ensures
        expression_tokens(e)[k].token_type != TokenType::Eof,
    decreases e,
{
    match e {
        ExpressionView::Prefix { token, right, .. } => {
            if k > 0 {
                lemma_expression_tokens_not_eof(*right->0, k - 1);
            }
        },
        ExpressionView::Infix { token, right, left, .. } => {
            let m = expression_tokens(*left).len() as int;
            let n = expression_tokens(*right).len() as int;
            if 1 <= k < m + 1 {
                lemma_expression_tokens_not_eof(*left, k - 1);
            } else if m + 2 <= k < m + n + 2 {
                lemma_expression_tokens_not_eof(*right, k - m - 2);
            }
        },
        _ => {},
    }
}

/// From `pos` the scanner yields the tokens `tokens`, one after the other,
/// and then stands at `end`.
pub open spec fn scans_as(input: Seq<char>, pos: nat, tokens: Seq<TokenView>, end: nat) -> bool {
    &&& forall|k: nat| k < tokens.len() ==> #[trigger] nth_token(input, pos, k) == tokens[k as int]
    &&& position_after(input, pos, tokens.len()) == end
}

/// One step of the scanner is a run of one token.
pub proof fn lemma_scans_one(input: Seq<char>, pos: nat, token: TokenView, end: nat)
    requires
        scan(input, pos) == (token, end),
    ensures
        scans_as(input, pos, seq![token], end),
{
    reveal_with_fuel(position_after, 2);
}

/// A run of tokens and the run that starts where it ends are one run.
pub proof fn lemma_scans_both(
    input: Seq<char>,
    pos: nat,
    first: Seq<TokenView>,
    mid: nat,
    second: Seq<TokenView>,
    end: nat,
)
    requires
        scans_as(input, pos, first, mid),
        scans_as(input, mid, second, end),
    ensures
        scans_as(input, pos, first + second, end),
{
    let all = first + second;
    assert forall|k: nat| k < all.len() implies #[trigger] nth_token(input, pos, k)
        == all[k as int] by {
        if k >= first.len() {
            let j = (k - first.len()) as nat;
            lemma_position_after_sum(input, pos, first.len(), j);
            assert(nth_token(input, mid, j) == second[j as int]);
        }
    }
    lemma_position_after_sum(input, pos, first.len(), second.len());
}

/// A space before a run of tokens changes nothing of the run.
pub proof fn lemma_scans_after_space(
    input: Seq<char>,
    pos: nat,
    tokens: Seq<TokenView>,
    end: nat,
)
    requires
        pos < input.len(),
        input[pos as int] == ' ',
        tokens.len() >= 1,
        scans_as(input, pos + 1, tokens, end),
    ensures
        scans_as(input, pos, tokens, end),
{
    reveal_with_fuel(position_after, 2);
    lemma_scan_after_space(input, pos);
    assert forall|k: nat| k < tokens.len() implies #[trigger] nth_token(input, pos, k)
        == tokens[k as int] by {
        assert(nth_token(input, pos + 1, k) == tokens[k as int]);
        if k > 0 {
            assert(position_after(input, pos, k) == position_after(input, pos + 1, k));
        }
    }
}

/// Where the text `( left operator right )`, with a space on either side of
/// the operator, stands in the input, there stand its parts.
pub proof fn lemma_infix_layout(
    input: Seq<char>,
    pos: nat,
    left: Seq<char>,
    operator: Seq<char>,
    right: Seq<char>,
)
    requires
        text_at(input, pos, "("@ + left + " "@ + operator + " "@ + right + ")"@),
    ensures
        input[pos as int] == '(',
        text_at(input, pos + 1, left),
        input[(pos + 1 + left.len()) as int] == ' ',
        text_at(input, pos + 2 + left.len(), operator),
        input[(pos + 2 + left.len() + operator.len()) as int] == ' ',
        text_at(input, pos + 3 + left.len() + operator.len(), right),
        input[(pos + 3 + left.len() + operator.len() + right.len()) as int] == ')',
        ("("@ + left + " "@ + operator + " "@ + right + ")"@).len() == 4 + left.len()
            + operator.len() + right.len(),
{
    reveal_strlit("(");
    reveal_strlit(")");
    reveal_strlit(" ");
    let text = "("@ + left + " "@ + operator + " "@ + right + ")"@;
    let p = pos as int;
    let a = left.len() as int;
    let o = operator.len() as int;
    let b = right.len() as int;
    assert(text.len() == a + o + b + 4);
    assert(input[p + 0] == text[0]);
    assert(input[p + (a + 1)] == text[a + 1]);
    assert(input[p + (a + o + 2)] == text[a + o + 2]);
    assert(input[p + (a + o + b + 3)] == text[a + o + b + 3]);
    assert forall|k: int| 0 <= k < left.len() implies input[pos + 1 + k] == #[trigger] left[k] by {
        assert(input[p + (k + 1)] == text[k + 1]);
    }
    assert forall|k: int| 0 <= k < operator.len() implies input[pos + 2 + left.len() + k]
        == #[trigger] operator[k] by {
        assert(input[p + (k + a + 2)] == text[k + a + 2]);
    }
    assert forall|k: int| 0 <= k < right.len() implies input[pos + 3 + left.len()
        + operator.len() + k] == #[trigger] right[k] by {
        assert(input[p + (k + a + o + 3)] == text[k + a + o + 3]);
    }
}

/// An infix operator written as its symbol is read as its token.
pub proof fn lemma_scan_operator(input: Seq<char>, pos: nat, token: TokenView)
    requires
        is_infix_operator(token.token_type),
        token.literal == token.token_type.spec_symbol(),
        text_at(input, pos, token.literal),
    ensures
        scan(input, pos) == (token, pos + token.literal.len()),
{
    reveal_strlit("+");
    reveal_strlit("-");
    reveal_strlit("*");
    reveal_strlit("/");
    reveal_strlit("<");
    reveal_strlit(">");
    reveal_strlit("==");
    reveal_strlit("!=");
    let p = pos as int;
    let operator = token.literal;
    assert(input[p + 0] == operator[0]);
    if operator.len() == 2 {
        assert(input[p + 1] == operator[1]);
        lemma_scan_double(input, pos);
        assert(seq![input[p], '='] =~= operator);
    } else {
        lemma_scan_symbol(input, pos);
        assert(seq![input[p]] =~= operator);
    }
}

/// A prefix operator written as its symbol, before the text of a tree, is
/// read as its token.
pub proof fn lemma_scan_prefix_operator(input: Seq<char>, pos: nat, token: TokenView)
    requires
        token.token_type == TokenType::Minus || token.token_type == TokenType::Bang,
        token.literal == token.token_type.spec_symbol(),
        text_at(input, pos, token.literal),
        pos + 1 < input.len(),
        starts_expression(input[(pos + 1) as int]),
    ensures
        scan(input, pos) == (token, pos + 1),
{
    reveal_strlit("-");
    reveal_strlit("!");
    let p = pos as int;
    assert(input[p + 0] == token.literal[0]);
    if token.token_type == TokenType::Minus {
        lemma_scan_symbol(input, pos);
    } else {
        lemma_scan_bang(input, pos);
    }
    assert(seq![input[p]] =~= token.literal);
}

/// The scanner reads the text of a printable tree, where the end of the
/// input follows it or a character that continues no word, as the tokens of
/// the tree, and ends right behind the text.
pub proof fn lemma_scan_of_text(input: Seq<char>, pos: nat, e: ExpressionView)
    requires
        is_printable(e),
        text_at(input, pos, expression_text(e)),
        ({
            let end = pos + expression_text(e).len();
            end == input.len() || !is_ident_part(input[end as int])
        }),
    ensures
        scans_as(input, pos, expression_tokens(e), pos + expression_text(e).len()),
    decreases e,
{
    let text = expression_text(e);
    let p = pos as int;
    lemma_text_first(e);
    match e {
        ExpressionView::Integer { token, value } => {
            lemma_scan_number(input, pos, token.literal);
            lemma_scans_one(input, pos, token, pos + text.len());
        },
        ExpressionView::Boolean { token, value } => {
            assert(is_letter(token.literal[0]) && all_ident_parts(token.literal)
                && keyword_or_ident(token.literal) == token.token_type) by {
                reveal_strlit("true");
                reveal_strlit("false");
                reveal_strlit("fn");
                reveal_strlit("let");
            }
            lemma_scan_word(input, pos, token.literal);
            lemma_scans_one(input, pos, token, pos + text.len());
        },
        ExpressionView::Identifier(identifier) => {
            lemma_scan_word(input, pos, identifier.token.literal);
            lemma_scans_one(input, pos, identifier.token, pos + text.len());
        },
        ExpressionView::Prefix { token, operator, right } => {
            let operand = *right->0;
            let inner = expression_text(operand);
            lemma_text_first(operand);
            assert(operator.len() == 1) by {
                reveal_strlit("-");
                reveal_strlit("!");
            }
            assert(text == operator + inner);
            assert(text_at(input, pos + 1, inner)) by {
                assert forall|k: int| 0 <= k < inner.len() implies input[pos + 1 + k]
                    == #[trigger] inner[k] by {
                    assert(text[k + 1] == inner[k]);
                    assert(input[p + (k + 1)] == text[k + 1]);
                }
            }
            assert(text_at(input, pos, operator)) by {
                assert forall|k: int| 0 <= k < operator.len() implies input[pos + k]
                    == #[trigger] operator[k] by {
                    assert(text[k] == operator[k]);
                    assert(input[p + k] == text[k]);
                }
            }
            assert(input[p + 1] == inner[0]) by {
                assert(input[(pos + 1) + 0int] == inner[0]);
            }
            lemma_scan_prefix_operator(input, pos, token);
            lemma_scans_one(input, pos, token, pos + 1);
            lemma_scan_of_text(input, pos + 1, operand);
            lemma_scans_both(
                input,
                pos,
                seq![token],
                pos + 1,
                expression_tokens(operand),
                pos + text.len(),
            );
        },
        ExpressionView::Infix { token, operator, right, left } => {
            let lt = expression_text(*left);
            let rt = expression_text(*right);
            let l = expression_tokens(*left);
            let r = expression_tokens(*right);
            lemma_printable_is_arithmetic(*left);
            lemma_printable_is_arithmetic(*right);
            lemma_expression_tokens_first(*left);
            lemma_expression_tokens_first(*right);
            assert(text == "("@ + lt + " "@ + operator + " "@ + rt + ")"@);
            lemma_infix_layout(input, pos, lt, operator, rt);
            let p1 = pos + 1;
            let p2 = p1 + lt.len();
            let p3 = p2 + 1;
            let p4 = p3 + operator.len();
            let p5 = p4 + 1;
            let p6 = p5 + rt.len();
            let end = p6 + 1;
            assert(end == pos + text.len());
            // The `(`.
            lemma_scan_symbol(input, pos);
            assert(seq![input[p]] =~= "("@) by {
                reveal_strlit("(");
            }
            lemma_scans_one(input, pos, left_parenthesis(), p1);
            // The left operand.
            lemma_scan_of_text(input, p1, *left);
            lemma_scans_both(input, pos, seq![left_parenthesis()], p1, l, p2);
            // The operator, behind a space.
            lemma_scan_operator(input, p3, token);
            lemma_scans_one(input, p3, token, p4);
            lemma_scans_after_space(input, p2, seq![token], p4);
            lemma_scans_both(input, pos, seq![left_parenthesis()] + l, p2, seq![token], p4);
            // The right operand, behind a space.
            lemma_scan_of_text(input, p5, *right);
            lemma_scans_after_space(input, p4, r, p6);
            lemma_scans_both(input, pos, seq![left_parenthesis()] + l + seq![token], p4, r, p6);
            // The `)`.
            lemma_scan_symbol(input, p6);
            assert(seq![input[p6 as int]] =~= ")"@) by {
                reveal_strlit(")");
            }
            lemma_scans_one(input, p6, right_parenthesis(), end);
            lemma_scans_both(
                input,
                pos,
                seq![left_parenthesis()] + l + seq![token] + r,
                p6,
                seq![right_parenthesis()],
                end,
            );
        },
        _ => {},
    }
}


/// The tokens of the text of a printable tree are the tokens of the tree,
/// and the end of the input.
pub proof fn lemma_tokens_of_text(e: ExpressionView)
    requires
        is_printable(e),
    ensures
        tokens_of(expression_text(e)) == expression_tokens(e).push(eof()),
{
    let text = expression_text(e);
    lemma_printable_is_arithmetic(e);
    assert(text_at(text, 0, text));
    lemma_scan_of_text(text, 0, e);
    assert forall|k: int| 0 <= k < expression_tokens(e).len() implies (
    #[trigger] expression_tokens(e)[k]).token_type != TokenType::Eof by {
        lemma_expression_tokens_not_eof(e, k);
    }
    lemma_tokens_of_scanned(text, expression_tokens(e));
}

/// The text of a printable tree, scanned and parsed, gives the tree back as
/// the one statement of the program, without a diagnostic: what the
/// printer writes shows, by its parentheses, how the parser groups.
pub proof fn lemma_parse_of_printed_expression(e: ExpressionView)
    requires
        is_printable(e),
    ensures
        parse_tokens(tokens_of(expression_text(e))) == (
            seq![StatementView::Expression(e)],
            Seq::<Seq<char>>::empty(),
        ),
{
    lemma_printable_is_arithmetic(e);
    lemma_tokens_of_text(e);
    lemma_parse_of_expression_tokens(e);
}

/// The token `=`.
pub open spec fn assign_sign() -> TokenView {
    TokenView { token_type: TokenType::Assign, literal: "="@ }
}

/// The token `;`.
pub open spec fn semicolon() -> TokenView {
    TokenView { token_type: TokenType::Semicolon, literal: ";"@ }
}

/// The statements whose tokens hold the very text that stands for them: a
/// `let` of a name to a printable tree, a `return` of one, or one alone.
pub open spec fn is_printable_statement(s: StatementView) -> bool {
    match s {
        StatementView::Let { token, name, value } => token.token_type == TokenType::Let
            && token.literal == "let"@ && name.token.token_type == TokenType::Ident && name.value
            == name.token.literal && is_name(name.token.literal) && is_printable(value),
        StatementView::Return { token, value } => token.token_type == TokenType::Return
            && token.literal == "return"@ && is_printable(value),
        StatementView::Expression(e) => is_printable(e),
        StatementView::Block { .. } => false,
    }
}

/// The tokens of a printable statement: those of a `let` or a `return`
/// end with a semicolon.
pub open spec fn statement_tokens(s: StatementView) -> Seq<TokenView> {
    match s {
        StatementView::Let { token, name, value } => seq![token, name.token, assign_sign()]
            + expression_tokens(value) + seq![semicolon()],
        StatementView::Return { token, value } => seq![token] + expression_tokens(value)
            + seq![semicolon()],
        StatementView::Expression(e) => expression_tokens(e),
        StatementView::Block { .. } => Seq::empty(),
    }
}

/// The tokens of a printable statement, followed by the end of the input,
/// are parsed as that statement alone, without a diagnostic.
pub proof fn lemma_parse_of_statement_tokens(s: StatementView)
    requires
        is_printable_statement(s),
    ensures
        parse_tokens(statement_tokens(s).push(eof())) == (seq![s], Seq::<Seq<char>>::empty()),
{
    let start = Cursor { index: 0, errors: Seq::empty() };
    match s {
        StatementView::Let { token, name, value } => {
            lemma_printable_is_arithmetic(value);
            lemma_expression_tokens_first(value);
            let part = expression_tokens(value);
            let n = part.len() as int;
            let tokens = statement_tokens(s).push(eof());
            assert(tokens.len() == n + 5);
            assert(tokens[0] == token);
            assert(tokens[1] == name.token);
            assert(tokens[2] == assign_sign());
            assert(tokens[n + 3] == semicolon());
            assert(tokens[n + 4] == eof());
            assert(occurs_at(tokens, 3, part)) by {
                assert forall|k: int| 0 <= k < part.len() implies tokens[3 + k]
                    == #[trigger] part[k] by {}
            }
            let at_value = Cursor { index: 3, errors: Seq::empty() };
            lemma_operand_reads_tree(tokens, at_value, value, Precedence::Lowest);
            let at_value_end = Cursor { index: (n + 2) as nat, errors: Seq::empty() };
            let at_semicolon = Cursor { index: (n + 3) as nat, errors: Seq::empty() };
            assert(expect_peek(tokens, start, TokenType::Ident) == (true, start.advance()));
            assert(identifier_at(tokens, start.advance()) == name);
            assert(expect_peek(tokens, start.advance(), TokenType::Assign) == (
                true,
                start.advance().advance(),
            ));
            assert(start.advance().advance().advance() == at_value);
            assert(at_value_end.skip_semicolon(tokens) == at_semicolon);
            assert(parse_let_statement(tokens, start) == (Some(s), at_semicolon));
            assert(parse_statement(tokens, start) == (Some(s), at_semicolon));
            let after = at_semicolon.not_before(0).advance();
            assert(after.current(tokens) == TokenType::Eof);
            let found = Seq::<StatementView>::empty().push(s);
            assert(more_program(tokens, after, found) == (found, after));
            assert(more_program(tokens, start, Seq::empty()) == (found, after));
            assert(found =~= seq![s]);
        },
        StatementView::Return { token, value } => {
            lemma_printable_is_arithmetic(value);
            lemma_expression_tokens_first(value);
            let part = expression_tokens(value);
            let n = part.len() as int;
            let tokens = statement_tokens(s).push(eof());
            assert(tokens.len() == n + 3);
            assert(tokens[0] == token);
            assert(tokens[n + 1] == semicolon());
            assert(tokens[n + 2] == eof());
            assert(occurs_at(tokens, 1, part)) by {
                assert forall|k: int| 0 <= k < part.len() implies tokens[1 + k]
                    == #[trigger] part[k] by {}
            }
            let at_value = Cursor { index: 1, errors: Seq::empty() };
            lemma_operand_reads_tree(tokens, at_value, value, Precedence::Lowest);
            let at_value_end = Cursor { index: n as nat, errors: Seq::empty() };
            let at_semicolon = Cursor { index: (n + 1) as nat, errors: Seq::empty() };
            assert(start.advance() == at_value);
            assert(at_value_end.skip_semicolon(tokens) == at_semicolon);
            assert(parse_return_statement(tokens, start) == (Some(s), at_semicolon));
            assert(parse_statement(tokens, start) == (Some(s), at_semicolon));
            let after = at_semicolon.not_before(0).advance();
            assert(after.current(tokens) == TokenType::Eof);
            let found = Seq::<StatementView>::empty().push(s);
            assert(more_program(tokens, after, found) == (found, after));
            assert(more_program(tokens, start, Seq::empty()) == (found, after));
            assert(found =~= seq![s]);
        },
        StatementView::Expression(e) => {
            lemma_printable_is_arithmetic(e);
            lemma_parse_of_expression_tokens(e);
        },
        StatementView::Block { .. } => {},
    }
}

/// `=` before anything but `=` is read as the token `=`.
pub proof fn lemma_scan_assign(input: Seq<char>, pos: nat)
    requires
        pos < input.len(),
        input[pos as int] == '=',
        pos + 1 == input.len() || input[(pos + 1) as int] != '=',
    ensures
        scan(input, pos) == (assign_sign(), pos + 1),
{
    reveal_strlit("=");
    assert(skip_spaces(input, pos) == pos);
    assert(input.subrange(pos as int, (pos + 1) as int) =~= "="@);
}

/// `;` is read as the token `;`.
pub proof fn lemma_scan_semicolon(input: Seq<char>, pos: nat)
    requires
        pos < input.len(),
        input[pos as int] == ';',
    ensures
        scan(input, pos) == (semicolon(), pos + 1),
{
    reveal_strlit(";");
    lemma_scan_symbol(input, pos);
    assert(seq![input[pos as int]] =~= ";"@);
}

/// Where the text `head`, the text `body` and a semicolon stand in a row,
/// there stand its parts.
pub proof fn lemma_statement_layout(input: Seq<char>, pos: nat, head: Seq<char>, body: Seq<char>)
    requires
        text_at(input, pos, head + body + ";"@),
    ensures
        text_at(input, pos, head),
        text_at(input, pos + head.len(), body),
        input[(pos + head.len() + body.len()) as int] == ';',
        (head + body + ";"@).len() == head.len() + body.len() + 1,
{
    reveal_strlit(";");
    let text = head + body + ";"@;
    let p = pos as int;
    let a = head.len() as int;
    let b = body.len() as int;
    assert(input[p + (a + b)] == text[a + b]);
    assert forall|k: int| 0 <= k < head.len() implies input[pos + k] == #[trigger] head[k] by {
        assert(input[p + k] == text[k]);
    }
    assert forall|k: int| 0 <= k < body.len() implies input[pos + head.len() + k]
        == #[trigger] body[k] by {
        assert(input[p + (k + a)] == text[k + a]);
    }
}

/// Where the text `let name = `, with one space between its parts, stands
/// in the input, the scanner reads `let`, the name and `=`, and ends
/// behind the `=`.
pub proof fn lemma_scan_let_head(input: Seq<char>, pos: nat, token: TokenView, name: TokenView)
    requires
        token.token_type == TokenType::Let,
        token.literal == "let"@,
        name.token_type == TokenType::Ident,
        is_name(name.literal),
        text_at(input, pos, token.literal + " "@ + name.literal + " = "@),
    ensures
        scans_as(
            input,
            pos,
            seq![token, name, assign_sign()],
            (pos + 6 + name.literal.len()) as nat,
        ),
        (token.literal + " "@ + name.literal + " = "@).len() == 7 + name.literal.len(),
        input[(pos + 6 + name.literal.len()) as int] == ' ',
{
    reveal_strlit("let");
    reveal_strlit(" ");
    reveal_strlit(" = ");
    let word = name.literal;
    let text = token.literal + " "@ + word + " = "@;
    let p = pos as int;
    let a = word.len() as int;
    assert(text.len() == a + 7);
    assert(input[p + 0] == text[0]);
    assert(input[p + 1] == text[1]);
    assert(input[p + 2] == text[2]);
    assert(input[p + 3] == text[3]);
    assert(input[p + (a + 4)] == text[a + 4]);
    assert(input[p + (a + 5)] == text[a + 5]);
    assert(input[p + (a + 6)] == text[a + 6]);
    assert(text_at(input, pos, token.literal)) by {
        assert forall|k: int| 0 <= k < token.literal.len() implies input[pos + k]
            == #[trigger] token.literal[k] by {
            assert(input[p + k] == text[k]);
        }
    }
    assert(text_at(input, pos + 4, word)) by {
        assert forall|k: int| 0 <= k < word.len() implies input[pos + 4 + k]
            == #[trigger] word[k] by {
            assert(input[p + (k + 4)] == text[k + 4]);
        }
    }
    assert(all_ident_parts(token.literal));
    lemma_scan_word(input, pos, token.literal);
    lemma_scans_one(input, pos, token, pos + 3);
    lemma_scan_word(input, pos + 4, word);
    lemma_scans_one(input, pos + 4, name, (pos + 4 + a) as nat);
    lemma_scans_after_space(input, pos + 3, seq![name], (pos + 4 + a) as nat);
    lemma_scans_both(input, pos, seq![token], pos + 3, seq![name], (pos + 4 + a) as nat);
    lemma_scan_assign(input, (pos + 5 + a) as nat);
    lemma_scans_one(input, (pos + 5 + a) as nat, assign_sign(), (pos + 6 + a) as nat);
    lemma_scans_after_space(
        input,
        (pos + 4 + a) as nat,
        seq![assign_sign()],
        (pos + 6 + a) as nat,
    );
    lemma_scans_both(
        input,
        pos,
        seq![token] + seq![name],
        (pos + 4 + a) as nat,
        seq![assign_sign()],
        (pos + 6 + a) as nat,
    );
    assert(seq![token] + seq![name] + seq![assign_sign()] =~= seq![token, name, assign_sign()]);
}

/// Where the text `return `, with its space, stands in the input, the
/// scanner reads `return` and ends behind the word.
pub proof fn lemma_scan_return_head(input: Seq<char>, pos: nat, token: TokenView)
    requires
        token.token_type == TokenType::Return,
        token.literal == "return"@,
        text_at(input, pos, "return "@),
    ensures
        scans_as(input, pos, seq![token], pos + 6),
        "return "@.len() == 7,
        input[(pos + 6) as int] == ' ',
{
    reveal_strlit("return");
    reveal_strlit("return ");
    let text = "return "@;
    let p = pos as int;
    assert(input[p + 6] == text[6]);
    assert(text_at(input, pos, token.literal)) by {
        assert forall|k: int| 0 <= k < token.literal.len() implies input[pos + k]
            == #[trigger] token.literal[k] by {
            assert(input[p + k] == text[k]);
            assert(text[k] == token.literal[k]);
        }
    }
    assert(all_ident_parts(token.literal));
    lemma_scan_word(input, pos, token.literal);
    lemma_scans_one(input, pos, token, pos + 6);
}

/// No token of a printable statement is `Eof`.
pub proof fn lemma_statement_tokens_not_eof(s: StatementView, k: int)
    requires
        is_printable_statement(s),
        0 <= k < statement_tokens(s).len(),
    ensures
        statement_tokens(s)[k].token_type != TokenType::Eof,
{
    match s {
        StatementView::Let { token, name, value } => {
            lemma_printable_is_arithmetic(value);
            let n = expression_tokens(value).len() as int;
            if 3 <= k < n + 3 {
                lemma_expression_tokens_not_eof(value, k - 3);
            }
        },
        StatementView::Return { token, value } => {
            lemma_printable_is_arithmetic(value);
            let n = expression_tokens(value).len() as int;
            if 1 <= k < n + 1 {
                lemma_expression_tokens_not_eof(value, k - 1);
            }
        },
        StatementView::Expression(e) => {
            lemma_printable_is_arithmetic(e);
            lemma_expression_tokens_not_eof(e, k);
        },
        StatementView::Block { .. } => {},
    }
}

/// The scanner reads the text of a printable `let` as its tokens.
proof fn lemma_scan_of_let_text(
    text: Seq<char>,
    token: TokenView,
    name: IdentifierView,
    value: ExpressionView,
)
    requires
        is_printable_statement(StatementView::Let { token, name, value }),
        text == statement_text(StatementView::Let { token, name, value }),
    ensures
        scans_as(
            text,
            0,
            statement_tokens(StatementView::Let { token, name, value }),
            text.len(),
        ),
{
    let head = token.literal + " "@ + name.token.literal + " = "@;
    let body = expression_text(value);
    let part = expression_tokens(value);
    lemma_let_text(token.literal, name.token.literal, body);
    assert(text == head + body + ";"@);
    assert(text_at(text, 0, text));
    lemma_statement_layout(text, 0, head, body);
    lemma_scan_let_head(text, 0, token, name.token);
    let p1 = head.len();
    assert(!is_ident_part(';'));
    lemma_scan_of_text(text, p1, value);
    lemma_printable_is_arithmetic(value);
    lemma_expression_tokens_first(value);
    lemma_scans_after_space(text, (p1 - 1) as nat, part, p1 + body.len());
    lemma_scans_both(
        text,
        0,
        seq![token, name.token, assign_sign()],
        (p1 - 1) as nat,
        part,
        p1 + body.len(),
    );
    lemma_scan_semicolon(text, p1 + body.len());
    lemma_scans_one(text, p1 + body.len(), semicolon(), text.len());
    lemma_scans_both(
        text,
        0,
        seq![token, name.token, assign_sign()] + part,
        p1 + body.len(),
        seq![semicolon()],
        text.len(),
    );
}

/// The scanner reads the text of a printable `return` as its tokens.
proof fn lemma_scan_of_return_text(text: Seq<char>, token: TokenView, value: ExpressionView)
    requires
        is_printable_statement(StatementView::Return { token, value }),
        text == statement_text(StatementView::Return { token, value }),
    ensures
        scans_as(text, 0, statement_tokens(StatementView::Return { token, value }), text.len()),
{
    let head = "return "@;
    let body = expression_text(value);
    let part = expression_tokens(value);
    assert(text_at(text, 0, text));
    lemma_statement_layout(text, 0, head, body);
    lemma_scan_return_head(text, 0, token);
    assert(!is_ident_part(';'));
    lemma_scan_of_text(text, 7, value);
    lemma_printable_is_arithmetic(value);
    lemma_expression_tokens_first(value);
    lemma_scans_after_space(text, 6, part, 7 + body.len());
    lemma_scans_both(text, 0, seq![token], 6, part, 7 + body.len());
    lemma_scan_semicolon(text, 7 + body.len());
    lemma_scans_one(text, 7 + body.len(), semicolon(), text.len());
    lemma_scans_both(
        text,
        0,
        seq![token] + part,
        7 + body.len(),
        seq![semicolon()],
        text.len(),
    );
}

/// The tokens of the text of a printable statement are the tokens of the
/// statement, and the end of the input.
pub proof fn lemma_tokens_of_statement_text(s: StatementView)
    requires
        is_printable_statement(s),
    ensures
        tokens_of(statement_text(s)) == statement_tokens(s).push(eof()),
{
    let text = statement_text(s);
    assert forall|k: int| 0 <= k < statement_tokens(s).len() implies (
    #[trigger] statement_tokens(s)[k]).token_type != TokenType::Eof by {
        lemma_statement_tokens_not_eof(s, k);
    }
    match s {
        StatementView::Let { token, name, value } => {
            lemma_scan_of_let_text(text, token, name, value);
            lemma_tokens_of_scanned(text, statement_tokens(s));
        },
        StatementView::Return { token, value } => {
            lemma_scan_of_return_text(text, token, value);
            lemma_tokens_of_scanned(text, statement_tokens(s));
        },
        StatementView::Expression(e) => {
            lemma_tokens_of_text(e);
        },
        StatementView::Block { .. } => {},
    }
}

/// The text of a `let` is its head, up to the space behind the `=`, and
/// then the text of its value and the semicolon.
proof fn lemma_let_text(word: Seq<char>, name: Seq<char>, body: Seq<char>)
    ensures
        word + " "@ + name + " = "@ + body + ";"@ == (word + " "@ + name + " = "@) + body + ";"@,
{
}

/// A text that the scanner reads to its end as tokens none of which is
/// `Eof` has these tokens, and the end of the input.
pub proof fn lemma_tokens_of_scanned(text: Seq<char>, tokens: Seq<TokenView>)
    requires
        scans_as(text, 0, tokens, text.len()),
        forall|k: int| 0 <= k < tokens.len() ==> (#[trigger] tokens[k]).token_type != TokenType::Eof,
    ensures
        tokens_of(text) == tokens.push(eof()),
{
    let n = tokens.len();
    assert(nth_token(text, 0, n) == eof()) by {
        assert(skip_spaces(text, text.len()) == text.len());
    }
    assert forall|k: nat| k < n implies (#[trigger] nth_token(text, 0, k)).token_type
        != TokenType::Eof by {
        assert(nth_token(text, 0, k) == tokens[k as int]);
    }
    lemma_tokens_from_length(text, 0, n);
    let all = tokens_from(text, 0);
    assert forall|k: int| 0 <= k < all.len() implies all[k] == tokens.push(eof())[k] by {
        lemma_tokens_from(text, 0, k as nat);
        if k < n {
            assert(nth_token(text, 0, k as nat) == tokens[k]);
        }
    }
    assert(all =~= tokens.push(eof()));
}

/// The text of a printable statement, scanned and parsed, gives the
/// statement back as the one statement of the program, without a
/// diagnostic: `let` and `return` statements and expressions come back
/// from the printer as they went in.
pub proof fn lemma_parse_of_printed_statement(s: StatementView)
    requires
        is_printable_statement(s),
    ensures
        parse_tokens(tokens_of(statement_text(s))) == (seq![s], Seq::<Seq<char>>::empty()),
{
    lemma_tokens_of_statement_text(s);
    lemma_parse_of_statement_tokens(s);
}

} // verus!

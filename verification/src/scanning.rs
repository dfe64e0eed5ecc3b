use crate::lexer::{char_at, number_end, scan, skip_spaces, word_end};
use crate::text::{all_digits, is_digit, is_ident_part, is_letter};
use crate::token::{keyword_or_ident, TokenType, TokenView};
use vstd::prelude::*;

verus! {

/// The characters `part` stand in `input` from position `pos` on.
pub open spec fn text_at(input: Seq<char>, pos: nat, part: Seq<char>) -> bool {
    &&& pos + part.len() <= input.len()
    &&& forall|k: int| 0 <= k < part.len() ==> input[pos + k] == #[trigger] part[k]
}

/// Every character of `s` may stand in an identifier.
pub open spec fn all_ident_parts(s: Seq<char>) -> bool {
    forall|i: int| 0 <= i < s.len() ==> is_ident_part(#[trigger] s[i])
}

/// The category of a token of one character that stands for itself.
pub open spec fn symbol_kind(c: char) -> Option<TokenType> {
    if c == '(' {
        Some(TokenType::LParen)
    } else if c == ')' {
        Some(TokenType::RParen)
    } else if c == '{' {
        Some(TokenType::LBrace)
    } else if c == '}' {
        Some(TokenType::RBrace)
    } else if c == '+' {
        Some(TokenType::Plus)
    } else if c == '-' {
        Some(TokenType::Minus)
    } else if c == '*' {
        Some(TokenType::Asterisk)
    } else if c == '/' {
        Some(TokenType::Slash)
    } else if c == '<' {
        Some(TokenType::Lt)
    } else if c == '>' {
        Some(TokenType::Gt)
    } else if c == ',' {
        Some(TokenType::Comma)
    } else if c == ';' {
        Some(TokenType::Semicolon)
    } else {
        None
    }
}

/// A character that stands for itself is read as its token, whatever
/// follows.
pub proof fn lemma_scan_symbol(input: Seq<char>, pos: nat)
    requires
        pos < input.len(),
        symbol_kind(input[pos as int]) is Some,
    ensures
        scan(input, pos) == (
            TokenView {
                token_type: symbol_kind(input[pos as int])->0,
                literal: seq![input[pos as int]],
            },
            pos + 1,
        ),
{
    assert(skip_spaces(input, pos) == pos);
    assert(input.subrange(pos as int, (pos + 1) as int) =~= seq![input[pos as int]]);
}

/// `!` before anything but `=` is read as the token `!`.
pub proof fn lemma_scan_bang(input: Seq<char>, pos: nat)
    requires
        pos < input.len(),
        input[pos as int] == '!',
        char_at(input, pos + 1) != '=',
    ensures
        scan(input, pos) == (TokenView { token_type: TokenType::Bang, literal: seq!['!'] }, pos + 1),
{
    assert(skip_spaces(input, pos) == pos);
    assert(input.subrange(pos as int, (pos + 1) as int) =~= seq!['!']);
}

/// `==` and `!=` are read as one token.
pub proof fn lemma_scan_double(input: Seq<char>, pos: nat)
    requires
        pos + 1 < input.len(),
        input[pos as int] == '=' || input[pos as int] == '!',
        input[(pos + 1) as int] == '=',
    ensures
        scan(input, pos) == (
            TokenView {
                token_type: if input[pos as int] == '=' {
                    TokenType::Eq
                } else {
                    TokenType::NotEq
                },
                literal: seq![input[pos as int], '='],
            },
            pos + 2,
        ),
{
    assert(skip_spaces(input, pos) == pos);
    assert(input.subrange(pos as int, (pos + 2) as int) =~= seq![input[pos as int], '=']);
}

/// A space before a token changes nothing of the token.
pub proof fn lemma_scan_after_space(input: Seq<char>, pos: nat)
    requires
        pos < input.len(),
        input[pos as int] == ' ',
    ensures
        scan(input, pos) == scan(input, pos + 1),
{
    assert(skip_spaces(input, pos) == skip_spaces(input, pos + 1));
}

/// A run of digits ends where the digits end.
pub proof fn lemma_number_end(input: Seq<char>, pos: nat, end: nat)
    requires
        pos <= end <= input.len(),
        forall|k: int| pos <= k < end ==> is_digit(#[trigger] input[k]),
        end == input.len() || !is_digit(input[end as int]),
    ensures
        number_end(input, pos) == end,
    decreases end - pos,
{
    if pos < end {
        lemma_number_end(input, pos + 1, end);
    }
}

/// A run of identifier characters ends where they end.
pub proof fn lemma_word_end(input: Seq<char>, pos: nat, end: nat)
    requires
        pos <= end <= input.len(),
        forall|k: int| pos <= k < end ==> is_ident_part(#[trigger] input[k]),
        end == input.len() || !is_ident_part(input[end as int]),
    ensures
        word_end(input, pos) == end,
    decreases end - pos,
{
    if pos < end {
        lemma_word_end(input, pos + 1, end);
    }
}

/// Digits followed by no digit are read as one integer token.
pub proof fn lemma_scan_number(input: Seq<char>, pos: nat, digits: Seq<char>)
    requires
        digits.len() > 0,
        all_digits(digits),
        text_at(input, pos, digits),
        pos + digits.len() == input.len() || !is_digit(input[(pos + digits.len()) as int]),
    ensures
        scan(input, pos) == (
            TokenView { token_type: TokenType::Int, literal: digits },
            pos + digits.len(),
        ),
{
    let end = pos + digits.len();
    assert(is_digit(digits[0]));
    assert(input[pos as int] == digits[0]);
    assert(skip_spaces(input, pos) == pos);
    assert forall|k: int| pos <= k < end implies is_digit(#[trigger] input[k]) by {
        assert(input[pos + (k - pos)] == digits[k - pos]);
    }
    lemma_number_end(input, pos, end);
    assert(input.subrange(pos as int, end as int) =~= digits) by {
        assert forall|k: int| 0 <= k < digits.len() implies input.subrange(
            pos as int,
            end as int,
        )[k] == digits[k] by {
            assert(input[pos + k] == digits[k]);
        }
    }
}

/// A letter followed by letters and digits, and then by neither, is read as
/// one word: a keyword or a name.
pub proof fn lemma_scan_word(input: Seq<char>, pos: nat, word: Seq<char>)
    requires
        word.len() > 0,
        is_letter(word[0]),
        all_ident_parts(word),
        text_at(input, pos, word),
        pos + word.len() == input.len() || !is_ident_part(input[(pos + word.len()) as int]),
    ensures
        scan(input, pos) == (
            TokenView { token_type: keyword_or_ident(word), literal: word },
            pos + word.len(),
        ),
{
    let end = pos + word.len();
    assert(input[pos as int] == word[0]);
    assert(skip_spaces(input, pos) == pos);
    assert forall|k: int| pos <= k < end implies is_ident_part(#[trigger] input[k]) by {
        assert(input[pos + (k - pos)] == word[k - pos]);
    }
    lemma_word_end(input, pos, end);
    assert(input.subrange(pos as int, end as int) =~= word) by {
        assert forall|k: int| 0 <= k < word.len() implies input.subrange(
            pos as int,
            end as int,
        )[k] == word[k] by {
            assert(input[pos + k] == word[k]);
        }
    }
}

} // verus!

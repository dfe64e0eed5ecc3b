use crate::text::{
    digit, ident_part, is_digit, is_ident_part, is_letter, is_space, letter, push_char, same_text,
    space,
};
use crate::token::{keyword_or_ident, Token, TokenType, TokenView};
use vstd::prelude::*;

verus! {

/// The character at `pos`, or NUL past the end of the input.
pub open spec fn char_at(input: Seq<char>, pos: nat) -> char {
    if pos < input.len() {
        input[pos as int]
    } else {
        '\0'
    }
}

/// The first position from `pos` on that holds no whitespace.
pub open spec fn skip_spaces(input: Seq<char>, pos: nat) -> nat
    decreases input.len() - pos,
{
    if pos < input.len() && is_space(input[pos as int]) {
        skip_spaces(input, pos + 1)
    } else {
        pos
    }
}

/// The end of the longest run of identifier characters that starts at `pos`.
pub open spec fn word_end(input: Seq<char>, pos: nat) -> nat
    decreases input.len() - pos,
{
    if pos < input.len() && is_ident_part(input[pos as int]) {
        word_end(input, pos + 1)
    } else {
        pos
    }
}

/// The end of the longest run of digits that starts at `pos`.
pub open spec fn number_end(input: Seq<char>, pos: nat) -> nat
    decreases input.len() - pos,
{
    if pos < input.len() && is_digit(input[pos as int]) {
        number_end(input, pos + 1)
    } else {
        pos
    }
}

/// Where the token that starts at `start` ends. `start` is inside the input
/// and holds no whitespace.
pub open spec fn token_end(input: Seq<char>, start: nat) -> nat {
    let c = input[start as int];
    if (c == '=' || c == '!') && char_at(input, start + 1) == '=' {
        start + 2
    } else if is_letter(c) {
        word_end(input, start)
    } else if is_digit(c) {
        number_end(input, start)
    } else {
        start + 1
    }
}

/// The category of the token that starts at `start`.
pub open spec fn token_kind(input: Seq<char>, start: nat) -> TokenType {
    let c = input[start as int];
    let two = char_at(input, start + 1) == '=';
    if c == '=' {
        if two {
            TokenType::Eq
        } else {
            TokenType::Assign
        }
    } else if c == '!' {
        if two {
            TokenType::NotEq
        } else {
            TokenType::Bang
        }
    } else if c == '{' {
        TokenType::LBrace
    } else if c == '}' {
        TokenType::RBrace
    } else if c == '+' {
        TokenType::Plus
    } else if c == '-' {
        TokenType::Minus
    } else if c == '<' {
        TokenType::Lt
    } else if c == '>' {
        TokenType::Gt
    } else if c == '*' {
        TokenType::Asterisk
    } else if c == '/' {
        TokenType::Slash
    } else if c == ',' {
        TokenType::Comma
    } else if c == ';' {
        TokenType::Semicolon
    } else if c == '(' {
        TokenType::LParen
    } else if c == ')' {
        TokenType::RParen
    } else if is_letter(c) {
        keyword_or_ident(input.subrange(start as int, word_end(input, start) as int))
    } else if is_digit(c) {
        TokenType::Int
    } else {
        TokenType::Illegal
    }
}

/// One step of the scanner from `pos`: the next token and the position after
/// it. At the end of the input the token is `Eof` with an empty literal and
/// the position stays where it is.
pub open spec fn scan(input: Seq<char>, pos: nat) -> (TokenView, nat) {
    let start = skip_spaces(input, pos);
    if start >= input.len() {
        (TokenView { token_type: TokenType::Eof, literal: Seq::empty() }, start)
    } else {
        let end = token_end(input, start);
        (
            TokenView {
                token_type: token_kind(input, start),
                literal: input.subrange(start as int, end as int),
            },
            end,
        )
    }
}

/// The position of the scanner after `k` steps from `pos`.
pub open spec fn position_after(input: Seq<char>, pos: nat, k: nat) -> nat
    decreases k,
{
    if k == 0 {
        pos
    } else {
        position_after(input, scan(input, pos).1, (k - 1) as nat)
    }
}

/// The token that the `k`-th step from `pos` yields, counting from 0.
pub open spec fn nth_token(input: Seq<char>, pos: nat, k: nat) -> TokenView {
    scan(input, position_after(input, pos, k)).0
}

/// Skipping whitespace stays inside the input and ends on no whitespace.
pub proof fn lemma_skip_spaces_bounds(input: Seq<char>, pos: nat)
    requires
        pos <= input.len(),
    ensures
        pos <= skip_spaces(input, pos) <= input.len(),
        skip_spaces(input, pos) < input.len() ==> !is_space(
            input[skip_spaces(input, pos) as int],
        ),
    decreases input.len() - pos,
{
    if pos < input.len() && is_space(input[pos as int]) {
        lemma_skip_spaces_bounds(input, pos + 1);
    }
}

/// A run of identifier characters ends inside the input, and behind its
/// first character where it has one.
pub proof fn lemma_word_end_bounds(input: Seq<char>, pos: nat)
    requires
        pos <= input.len(),
    ensures
        pos <= word_end(input, pos) <= input.len(),
        pos < input.len() && is_ident_part(input[pos as int]) ==> pos < word_end(input, pos),
    decreases input.len() - pos,
{
    if pos < input.len() && is_ident_part(input[pos as int]) {
        lemma_word_end_bounds(input, pos + 1);
    }
}

/// A run of digits ends inside the input, and behind its first digit where
/// it has one.
pub proof fn lemma_number_end_bounds(input: Seq<char>, pos: nat)
    requires
        pos <= input.len(),
    ensures
        pos <= number_end(input, pos) <= input.len(),
        pos < input.len() && is_digit(input[pos as int]) ==> pos < number_end(input, pos),
    decreases input.len() - pos,
{
    if pos < input.len() && is_digit(input[pos as int]) {
        lemma_number_end_bounds(input, pos + 1);
    }
}

/// Every step of the scanner stays inside the input, and every token but
/// `Eof` is read from at least one character: the scanner moves forward.
pub proof fn lemma_scan_advances(input: Seq<char>, pos: nat)
    requires
        pos <= input.len(),
    ensures
        pos <= scan(input, pos).1 <= input.len(),
        scan(input, pos).0.token_type != TokenType::Eof ==> pos < scan(input, pos).1,
        scan(input, pos).0.token_type == TokenType::Eof <==> skip_spaces(input, pos)
            == input.len(),
        scan(input, pos).0.token_type == TokenType::Eof ==> scan(input, pos).0.literal.len() == 0
            && scan(input, pos).1 == input.len(),
        scan(input, pos).0.token_type != TokenType::Eof ==> scan(input, pos).0.literal.len() > 0,
{
    lemma_skip_spaces_bounds(input, pos);
    let start = skip_spaces(input, pos);
    if start < input.len() {
        lemma_word_end_bounds(input, start);
        lemma_number_end_bounds(input, start);
        let c = input[start as int];
        if (c == '=' || c == '!') && char_at(input, start + 1) == '=' {
        } else if is_letter(c) {
            lemma_keyword_is_not_eof(input.subrange(start as int, word_end(input, start) as int));
        }
    }
}

/// A word is never taken for the end of the input.
pub proof fn lemma_keyword_is_not_eof(word: Seq<char>)
    ensures
        keyword_or_ident(word) != TokenType::Eof,
        keyword_or_ident(word) != TokenType::Illegal,
{
}

/// Once the scanner has reached the end of the input, every further step
/// yields `Eof` with an empty literal and leaves it there.
pub proof fn lemma_eof_is_final(input: Seq<char>, k: nat)
    ensures
        position_after(input, input.len(), k) == input.len(),
        nth_token(input, input.len(), k) == (TokenView {
            token_type: TokenType::Eof,
            literal: Seq::empty(),
        }),
    decreases k,
{
    assert(skip_spaces(input, input.len()) == input.len());
    if k > 0 {
        lemma_eof_is_final(input, (k - 1) as nat);
    }
}

/// After a step that yields `Eof`, all later steps yield `Eof` too.
pub proof fn lemma_eof_repeats(input: Seq<char>, pos: nat, k: nat)
    requires
        pos <= input.len(),
        scan(input, pos).0.token_type == TokenType::Eof,
    ensures
        nth_token(input, pos, k).token_type == TokenType::Eof,
        nth_token(input, pos, k).literal.len() == 0,
    decreases k,
{
    lemma_scan_advances(input, pos);
    if k > 0 {
        assert(scan(input, pos).1 == input.len());
        lemma_eof_is_final(input, (k - 1) as nat);
        assert(position_after(input, pos, k) == position_after(
            input,
            input.len(),
            (k - 1) as nat,
        ));
        lemma_eof_is_final(input, 0);
        assert(skip_spaces(input, input.len()) == input.len());
    }
}

/// `a + b` steps of the scanner are `a` steps and then `b` more.
pub proof fn lemma_position_after_sum(input: Seq<char>, pos: nat, a: nat, b: nat)
    ensures
        position_after(input, pos, a + b) == position_after(
            input,
            position_after(input, pos, a),
            b,
        ),
        nth_token(input, pos, a + b) == nth_token(input, position_after(input, pos, a), b),
    decreases a,
{
    if a > 0 {
        lemma_position_after_sum(input, scan(input, pos).1, (a - 1) as nat, b);
    }
}

/// A scanner over one source text, one character of lookahead.
#[derive(Debug)]
pub struct Lexer {
    input: Vec<char>,
    position: usize,
    read_position: usize,
    ch: char,
}

impl Lexer {
    /// The source text.
    pub closed spec fn source(&self) -> Seq<char> {
        self.input@
    }

    /// The position of the character under examination.
    pub closed spec fn pos(&self) -> nat {
        self.position as nat
    }

    /// The character under examination, NUL at the end of the input.
    pub closed spec fn current(&self) -> char {
        self.ch
    }

    /// The state is consistent: the position is inside the input or at its
    /// end, and the character under examination is the one at the position.
    pub closed spec fn wf(&self) -> bool {
        &&& self.position <= self.input.len()
        &&& self.ch == char_at(self.input@, self.position as nat)
        &&& self.read_position == if self.position < self.input.len() {
            self.position + 1
        } else {
            self.position as int
        }
    }

    /// What a consistent state says of the position and the character under
    /// examination.
    pub proof fn lemma_wf(&self)
        requires
            self.wf(),
        ensures
            self.pos() <= self.source().len(),
            self.current() == char_at(self.source(), self.pos()),
    {
    }

    /// A scanner at the start of `input`.
    pub fn new(input: &str) -> (lexer: Self)
        ensures
            lexer.wf(),
            lexer.source() == input@,
            lexer.pos() == 0,
    {
        let mut chars: Vec<char> = Vec::new();
        for c in it: input.chars()
            invariant
                it.seq() == input@,
                chars@ == it.seq().take(it.index()),
        {
            chars.push(c);
        }
        assert(chars@ == input@.take(input@.len() as int));
        let ch = if chars.len() > 0 {
            chars[0]
        } else {
            '\0'
        };
        let read_position: usize = if chars.len() > 0 {
            1
        } else {
            0
        };
        Lexer { input: chars, position: 0, read_position, ch }
    }

    /// Moves to the next character; at the end of the input nothing moves.
    pub fn read_char(&mut self)
        requires
            old(self).wf(),
        ensures
            final(self).wf(),
            final(self).source() == old(self).source(),
            final(self).pos() == if old(self).pos() < old(self).source().len() {
                old(self).pos() + 1
            } else {
                old(self).pos()
            },
    {
        if self.read_position >= self.input.len() {
            self.ch = '\0';
            self.position = self.input.len();
            self.read_position = self.input.len();
        } else {
            self.ch = self.input[self.read_position];
            self.position = self.read_position;
            self.read_position = self.read_position + 1;
        }
    }

    /// The character after the one under examination, NUL at the end.
    pub fn peek_char(&self) -> (c: char)
        requires
            self.wf(),
        ensures
            c == char_at(self.source(), self.pos() + 1),
    {
        if self.position >= self.input.len() || self.read_position >= self.input.len() {
            '\0'
        } else {
            self.input[self.read_position]
        }
    }

    /// The text of the input from `from` up to the position.
    fn slice_from(&self, from: usize) -> (s: String)
        requires
            self.wf(),
            from <= self.pos(),
        ensures
            s@ == self.source().subrange(from as int, self.pos() as int),
    {
        let mut s = String::new();
        let mut i = from;
        while i < self.position
            invariant
                from <= i <= self.position <= self.input.len(),
                s@ == self.input@.subrange(from as int, i as int),
            decreases self.position - i,
        {
            push_char(&mut s, self.input[i]);
            i += 1;
        }
        s
    }

    /// Passes over whitespace.
    pub fn skip_whitespace(&mut self)
        requires
            old(self).wf(),
        ensures
            final(self).wf(),
            final(self).source() == old(self).source(),
            final(self).pos() == skip_spaces(old(self).source(), old(self).pos()),
    {
        while self.position < self.input.len() && space(self.ch)
            invariant
                self.wf(),
                self.input@ == old(self).input@,
                skip_spaces(self.input@, self.position as nat) == skip_spaces(
                    old(self).input@,
                    old(self).position as nat,
                ),
            decreases self.input.len() - self.position,
        {
            self.read_char();
        }
    }

    /// Reads the longest run of identifier characters from the position on.
    pub fn read_identifier(&mut self) -> (word: String)
        requires
            old(self).wf(),
        ensures
            final(self).wf(),
            final(self).source() == old(self).source(),
            final(self).pos() == word_end(old(self).source(), old(self).pos()),
            word@ == old(self).source().subrange(
                old(self).pos() as int,
                final(self).pos() as int,
            ),
    {
        let start = self.position;
        while self.position < self.input.len() && ident_part(self.ch)
            invariant
                self.wf(),
                self.input@ == old(self).input@,
                start <= self.position,
                word_end(self.input@, self.position as nat) == word_end(
                    old(self).input@,
                    old(self).position as nat,
                ),
            decreases self.input.len() - self.position,
        {
            self.read_char();
        }
        self.slice_from(start)
    }

    /// Reads the longest run of digits from the position on.
    pub fn read_number(&mut self) -> (digits: String)
        requires
            old(self).wf(),
        ensures
            final(self).wf(),
            final(self).source() == old(self).source(),
            final(self).pos() == number_end(old(self).source(), old(self).pos()),
            digits@ == old(self).source().subrange(
                old(self).pos() as int,
                final(self).pos() as int,
            ),
    {
        let start = self.position;
        while self.position < self.input.len() && digit(self.ch)
            invariant
                self.wf(),
                self.input@ == old(self).input@,
                start <= self.position,
                number_end(self.input@, self.position as nat) == number_end(
                    old(self).input@,
                    old(self).position as nat,
                ),
            decreases self.input.len() - self.position,
        {
            self.read_char();
        }
        self.slice_from(start)
    }

    /// The category of a word: keyword or identifier.
    pub fn lookup_identifier(&self, ident: &str) -> (kind: TokenType)
        ensures
            kind == keyword_or_ident(ident@),
    {
        proof {
            reveal_strlit("fn");
            reveal_strlit("let");
            reveal_strlit("true");
            reveal_strlit("false");
            reveal_strlit("else");
            reveal_strlit("if");
            reveal_strlit("return");
            let word = ident@;
            if keyword_or_ident(word) == TokenType::Function {
                assert(word =~= "fn"@);
            }
            if keyword_or_ident(word) == TokenType::Let {
                assert(word =~= "let"@);
            }
            if keyword_or_ident(word) == TokenType::True {
                assert(word =~= "true"@);
            }
            if keyword_or_ident(word) == TokenType::False {
                assert(word =~= "false"@);
            }
            if keyword_or_ident(word) == TokenType::Else {
                assert(word =~= "else"@);
            }
            if keyword_or_ident(word) == TokenType::If {
                assert(word =~= "if"@);
            }
            if keyword_or_ident(word) == TokenType::Return {
                assert(word =~= "return"@);
            }
        }
        if same_text(ident, "fn") {
            TokenType::Function
        } else if same_text(ident, "let") {
            TokenType::Let
        } else if same_text(ident, "true") {
            TokenType::True
        } else if same_text(ident, "false") {
            TokenType::False
        } else if same_text(ident, "else") {
            TokenType::Else
        } else if same_text(ident, "if") {
            TokenType::If
        } else if same_text(ident, "return") {
            TokenType::Return
        } else {
            TokenType::Ident
        }
    }

    /// Reads the next token. At the end of the input it yields `Eof`, with an
    /// empty literal, as often as it is called.
    pub fn next_token(&mut self) -> (token: Token)
        requires
            old(self).wf(),
        ensures
            final(self).wf(),
            final(self).source() == old(self).source(),
            token@ == scan(old(self).source(), old(self).pos()).0,
            final(self).pos() == scan(old(self).source(), old(self).pos()).1,
    {
        self.skip_whitespace();
        let start = self.position;
        if start >= self.input.len() {
            return Token { token_type: TokenType::Eof, literal: String::new() };
        }
        let c = self.ch;
        proof {
            lemma_word_end_bounds(self.input@, start as nat);
            lemma_number_end_bounds(self.input@, start as nat);
        }
        if letter(c) {
            let word = self.read_identifier();
            let kind = self.lookup_identifier(word.as_str());
            return Token { token_type: kind, literal: word };
        }
        if digit(c) {
            let digits = self.read_number();
            return Token { token_type: TokenType::Int, literal: digits };
        }
        let two = (c == '=' || c == '!') && self.peek_char() == '=';
        let kind = if c == '=' {
            if two {
                TokenType::Eq
            } else {
                TokenType::Assign
            }
        } else if c == '!' {
            if two {
                TokenType::NotEq
            } else {
                TokenType::Bang
            }
        } else if c == '{' {
            TokenType::LBrace
        } else if c == '}' {
            TokenType::RBrace
        } else if c == '+' {
            TokenType::Plus
        } else if c == '-' {
            TokenType::Minus
        } else if c == '<' {
            TokenType::Lt
        } else if c == '>' {
            TokenType::Gt
        } else if c == '*' {
            TokenType::Asterisk
        } else if c == '/' {
            TokenType::Slash
        } else if c == ',' {
            TokenType::Comma
        } else if c == ';' {
            TokenType::Semicolon
        } else if c == '(' {
            TokenType::LParen
        } else if c == ')' {
            TokenType::RParen
        } else {
            TokenType::Illegal
        };
        if two {
            self.read_char();
        }
        self.read_char();
        let literal = self.slice_from(start);
        Token { token_type: kind, literal }
    }
}

} // verus!

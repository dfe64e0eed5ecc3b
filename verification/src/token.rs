use vstd::prelude::*;

verus! {

/// The lexical categories of the language.
#[derive(Debug, PartialEq, Eq, Clone, Copy, Structural)]
pub enum TokenType {
    Illegal,
    Eof,
    Ident,
    Int,
    Assign,
    Plus,
    Minus,
    Bang,
    Asterisk,
    Slash,
    Lt,
    Gt,
    Comma,
    Semicolon,
    LParen,
    RParen,
    LBrace,
    RBrace,
    Function,
    Let,
    True,
    False,
    Else,
    If,
    Return,
    Eq,
    NotEq,
    NotSet,
}

impl TokenType {
    /// The name of the category, as diagnostics print it.
    pub open spec fn spec_name(self) -> Seq<char> {
        match self {
            TokenType::Illegal => "Illegal"@,
            TokenType::Eof => "Eof"@,
            TokenType::Ident => "Ident"@,
            TokenType::Int => "Int"@,
            TokenType::Assign => "Assign"@,
            TokenType::Plus => "Plus"@,
            TokenType::Minus => "Minus"@,
            TokenType::Bang => "Bang"@,
            TokenType::Asterisk => "Asterisk"@,
            TokenType::Slash => "Slash"@,
            TokenType::Lt => "Lt"@,
            TokenType::Gt => "Gt"@,
            TokenType::Comma => "Comma"@,
            TokenType::Semicolon => "Semicolon"@,
            TokenType::LParen => "LParen"@,
            TokenType::RParen => "RParen"@,
            TokenType::LBrace => "LBrace"@,
            TokenType::RBrace => "RBrace"@,
            TokenType::Function => "Function"@,
            TokenType::Let => "Let"@,
            TokenType::True => "True"@,
            TokenType::False => "False"@,
            TokenType::Else => "Else"@,
            TokenType::If => "If"@,
            TokenType::Return => "Return"@,
            TokenType::Eq => "Eq"@,
            TokenType::NotEq => "NotEq"@,
            TokenType::NotSet => "NotSet"@,
        }
    }

    /// The category as source text shows it: the symbol or keyword where
    /// there is one, a word for the others.
    pub open spec fn spec_symbol(self) -> Seq<char> {
        match self {
            TokenType::Illegal => "Illegal"@,
            TokenType::Eof => "Eof"@,
            TokenType::Ident => "Ident"@,
            TokenType::Int => "Int"@,
            TokenType::Assign => "="@,
            TokenType::Plus => "+"@,
            TokenType::Minus => "-"@,
            TokenType::Bang => "!"@,
            TokenType::Asterisk => "*"@,
            TokenType::Slash => "/"@,
            TokenType::Lt => "<"@,
            TokenType::Gt => ">"@,
            TokenType::Comma => ","@,
            TokenType::Semicolon => ";"@,
            TokenType::LParen => "("@,
            TokenType::RParen => ")"@,
            TokenType::LBrace => "{"@,
            TokenType::RBrace => "}"@,
            TokenType::Function => "function"@,
            TokenType::Let => "let"@,
            TokenType::True => "true"@,
            TokenType::False => "false"@,
            TokenType::Else => "else"@,
            TokenType::If => "if"@,
            TokenType::Return => "return"@,
            TokenType::Eq => "=="@,
            TokenType::NotEq => "!="@,
            TokenType::NotSet => "notSet"@,
        }
    }

    /// The name of the category, as diagnostics print it.
    pub fn name(&self) -> (s: String)
        ensures
            s@ == self.spec_name(),
    {
        let text = match self {
            TokenType::Illegal => "Illegal",
            TokenType::Eof => "Eof",
            TokenType::Ident => "Ident",
            TokenType::Int => "Int",
            TokenType::Assign => "Assign",
            TokenType::Plus => "Plus",
            TokenType::Minus => "Minus",
            TokenType::Bang => "Bang",
            TokenType::Asterisk => "Asterisk",
            TokenType::Slash => "Slash",
            TokenType::Lt => "Lt",
            TokenType::Gt => "Gt",
            TokenType::Comma => "Comma",
            TokenType::Semicolon => "Semicolon",
            TokenType::LParen => "LParen",
            TokenType::RParen => "RParen",
            TokenType::LBrace => "LBrace",
            TokenType::RBrace => "RBrace",
            TokenType::Function => "Function",
            TokenType::Let => "Let",
            TokenType::True => "True",
            TokenType::False => "False",
            TokenType::Else => "Else",
            TokenType::If => "If",
            TokenType::Return => "Return",
            TokenType::Eq => "Eq",
            TokenType::NotEq => "NotEq",
            TokenType::NotSet => "NotSet",
        };
        String::from_str(text)
    }

    /// The category as source text shows it.
    pub fn to_string(&self) -> (s: String)
        ensures
            s@ == self.spec_symbol(),
    {
        let text = match self {
            TokenType::Illegal => "Illegal",
            TokenType::Eof => "Eof",
            TokenType::Ident => "Ident",
            TokenType::Int => "Int",
            TokenType::Assign => "=",
            TokenType::Plus => "+",
            TokenType::Minus => "-",
            TokenType::Bang => "!",
            TokenType::Asterisk => "*",
            TokenType::Slash => "/",
            TokenType::Lt => "<",
            TokenType::Gt => ">",
            TokenType::Comma => ",",
            TokenType::Semicolon => ";",
            TokenType::LParen => "(",
            TokenType::RParen => ")",
            TokenType::LBrace => "{",
            TokenType::RBrace => "}",
            TokenType::Function => "function",
            TokenType::Let => "let",
            TokenType::True => "true",
            TokenType::False => "false",
            TokenType::Else => "else",
            TokenType::If => "if",
            TokenType::Return => "return",
            TokenType::Eq => "==",
            TokenType::NotEq => "!=",
            TokenType::NotSet => "notSet",
        };
        String::from_str(text)
    }
}

impl Default for TokenType {
    fn default() -> (r: Self)
        ensures
            r == TokenType::NotSet,
    {
        TokenType::NotSet
    }
}

/// A token: its category and the exact slice of source text it was read from.
#[derive(Debug, PartialEq, Eq)]
pub struct Token {
    pub token_type: TokenType,
    pub literal: String,
}

/// What a token holds, as plain values.
pub struct TokenView {
    pub token_type: TokenType,
    pub literal: Seq<char>,
}

impl View for Token {
    type V = TokenView;

    open spec fn view(&self) -> TokenView {
        TokenView { token_type: self.token_type, literal: self.literal@ }
    }
}

impl Clone for Token {
    fn clone(&self) -> (r: Self)
        ensures
            r == *self,
    {
        Token { token_type: self.token_type, literal: self.literal.clone() }
    }
}

impl Default for Token {
    fn default() -> (r: Self)
        ensures
            r@ == (TokenView { token_type: TokenType::NotSet, literal: Seq::<char>::empty() }),
    {
        Token { token_type: TokenType::NotSet, literal: String::new() }
    }
}

impl Token {
    /// A token of category `token_type` with the text `literal`.
    pub fn new(token_type: TokenType, literal: &str) -> (r: Self)
        ensures
            r@ == (TokenView { token_type, literal: literal@ }),
    {
        Token { token_type, literal: String::from_str(literal) }
    }

    /// The text `TokenType : <symbol> Literal : <literal>`.
    pub open spec fn spec_to_string(t: TokenView) -> Seq<char> {
        "TokenType : "@ + t.token_type.spec_symbol() + " Literal : "@ + t.literal
    }

    /// The text of the token, with its category and its literal.
    pub fn to_string(&self) -> (s: String)
        ensures
            s@ == Self::spec_to_string(self@),
    {
        let mut s = String::from_str("TokenType : ");
        let sym = self.token_type.to_string();
        s.append(sym.as_str());
        s.append(" Literal : ");
        s.append(self.literal.as_str());
        s
    }
}

/// The category of a word: one of the seven keywords `fn`, `let`, `true`,
/// `false`, `else`, `if` and `return`, or an identifier.
pub open spec fn keyword_or_ident(word: Seq<char>) -> TokenType {
    if word.len() == 2 && word[0] == 'f' && word[1] == 'n' {
        TokenType::Function
    } else if word.len() == 3 && word[0] == 'l' && word[1] == 'e' && word[2] == 't' {
        TokenType::Let
    } else if word.len() == 4 && word[0] == 't' && word[1] == 'r' && word[2] == 'u' && word[3]
        == 'e' {
        TokenType::True
    } else if word.len() == 5 && word[0] == 'f' && word[1] == 'a' && word[2] == 'l' && word[3]
        == 's' && word[4] == 'e' {
        TokenType::False
    } else if word.len() == 4 && word[0] == 'e' && word[1] == 'l' && word[2] == 's' && word[3]
        == 'e' {
        TokenType::Else
    } else if word.len() == 2 && word[0] == 'i' && word[1] == 'f' {
        TokenType::If
    } else if word.len() == 6 && word[0] == 'r' && word[1] == 'e' && word[2] == 't' && word[3]
        == 'u' && word[4] == 'r' && word[5] == 'n' {
        TokenType::Return
    } else {
        TokenType::Ident
    }
}

} // verus!

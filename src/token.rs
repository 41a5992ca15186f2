use vstd::prelude::*;

verus! {

/// What a token is, with any literal payload kept as source text.
#[derive(Debug, Clone, PartialEq)]
pub enum TokenKind {
    Number(String),
    Identifier(String),
    String(String),
    True,
    False,
    LeftParen,
    RightParen,
    EOF,
}

/// A classified token and the position at which the scanner recorded it: the
/// 1-based line and column reached just after the token's last character. Every
/// character moves the column on by one, except a newline, between tokens or
/// inside a string literal, which moves to column 1 of the next line.
#[derive(Debug, Clone)]
pub struct Token {
    pub kind: TokenKind,
    pub line: usize,
    pub column: usize,
}

/// The mathematical value of a `TokenKind`: the same variants, with text as `Seq<char>`.
pub enum Lexeme {
    Number(Seq<char>),
    Identifier(Seq<char>),
    Text(Seq<char>),
    True,
    False,
    LeftParen,
    RightParen,
    Eof,
}

/// The mathematical value of a `Token`.
pub struct TokenView {
    pub kind: Lexeme,
    pub line: int,
    pub column: int,
}

impl View for TokenKind {
    type V = Lexeme;

    open spec fn view(&self) -> Lexeme {
        match self {
            TokenKind::Number(s) => Lexeme::Number(s@),
            TokenKind::Identifier(s) => Lexeme::Identifier(s@),
            TokenKind::String(s) => Lexeme::Text(s@),
            TokenKind::True => Lexeme::True,
            TokenKind::False => Lexeme::False,
            TokenKind::LeftParen => Lexeme::LeftParen,
            TokenKind::RightParen => Lexeme::RightParen,
            TokenKind::EOF => Lexeme::Eof,
        }
    }
}

impl View for Token {
    type V = TokenView;

    open spec fn view(&self) -> TokenView {
        TokenView { kind: self.kind@, line: self.line as int, column: self.column as int }
    }
}

/// The views of a sequence of tokens, in order.
pub open spec fn tokens_view(ts: Seq<Token>) -> Seq<TokenView> {
    ts.map_values(|t: Token| t@)
}

/// Relies on `String::push`: the character is appended at the end.
pub assume_specification[ std::string::String::push ](s: &mut std::string::String, ch: char)
    ensures
        final(s)@ == old(s)@.push(ch),
;

} // verus!

//! The tokens of the source language.
use vstd::prelude::*;

verus! {

/// The kinds of tokens.
#[derive(Debug, Clone, PartialEq, Eq)]
pub enum TokenType {
    Keyword(Keyword),
    Punctuation(Punctuation),
    Literal(DataType),
    Identifier,
}

/// Operators and separators. `And`, `Or` and `Bang` are also written as the
/// words `and`, `or` and `not`.
#[derive(Debug, Clone, Copy, PartialEq, Eq, Hash, Structural)]
pub enum Punctuation {
    Plus,
    Minus,
    Star,
    Slash,
    Percent,
    Equal,
    Bang,
    Or,
    And,
    BangEqual,
    EqualEqual,
    Less,
    LessEqual,
    Greater,
    GreaterEqual,
    Semicolon,
    Colon,
    Comma,
    Dot,
    Arrow,
    LeftParen,
    RightParen,
    LeftBrace,
    RightBrace,
    LeftBracket,
    RightBracket,
}

/// The reserved words that start a statement or a part of one.
#[derive(Debug, Clone, Copy, PartialEq, Eq, Hash, Structural)]
pub enum Keyword {
    For,
    While,
    If,
    Else,
    Var,
    Fun,
    Return,
    Struct,
}

/// The value of a literal.
#[derive(Debug, Clone, PartialEq, Eq)]
pub enum DataType {
    String(String),
    Bool(bool),
    Int(i64),
    Nil,
}

/// A token: its text in the source and its kind.
#[derive(Debug, Clone, PartialEq, Eq)]
pub struct Token {
    pub lexeme: String,
    pub type_of: TokenType,
}

/// The value of a literal with its text as a sequence of characters.
pub enum DataTypeView {
    String(Seq<char>),
    Bool(bool),
    Int(i64),
    Nil,
}

/// The kind of a token with its text as a sequence of characters.
pub enum TokenTypeView {
    Keyword(Keyword),
    Punctuation(Punctuation),
    Literal(DataTypeView),
    Identifier,
}

/// A token with its text as a sequence of characters.
pub struct TokenView {
    pub lexeme: Seq<char>,
    pub type_of: TokenTypeView,
}

impl View for DataType {
    type V = DataTypeView;

    open spec fn view(&self) -> DataTypeView {
        match self {
            DataType::String(s) => DataTypeView::String(s@),
            DataType::Bool(b) => DataTypeView::Bool(*b),
            DataType::Int(n) => DataTypeView::Int(*n),
            DataType::Nil => DataTypeView::Nil,
        }
    }
}

impl View for TokenType {
    type V = TokenTypeView;

    open spec fn view(&self) -> TokenTypeView {
        match self {
            TokenType::Keyword(k) => TokenTypeView::Keyword(*k),
            TokenType::Punctuation(p) => TokenTypeView::Punctuation(*p),
            TokenType::Literal(d) => TokenTypeView::Literal(d@),
            TokenType::Identifier => TokenTypeView::Identifier,
        }
    }
}

impl View for Token {
    type V = TokenView;

    open spec fn view(&self) -> TokenView {
        TokenView { lexeme: self.lexeme@, type_of: self.type_of@ }
    }
}

/// The tokens with their texts as sequences of characters.
pub open spec fn tokens_view(tokens: Seq<Token>) -> Seq<TokenView> {
    Seq::new(tokens.len(), |i: int| tokens[i]@)
}

} // verus!

//! The lexical units that the parser consumes.

use vstd::prelude::*;

verus! {

/// One lexical unit, as handed over by a scanner.
///
/// `Number` and `Identifier` carry their source text unchanged. `Other`
/// stands for any lexeme that cannot start an expression.
#[derive(Debug, PartialEq)]
pub enum Token {
    Number(String),
    Identifier(String),
    LeftParen,
    RightParen,
    Other(String),
}

/// The mathematical value of a [`Token`]: the same variants, with the text as
/// a sequence of characters.
pub enum TokenView {
    Number(Seq<char>),
    Identifier(Seq<char>),
    LeftParen,
    RightParen,
    Other(Seq<char>),
}

impl View for Token {
    type V = TokenView;

    open spec fn view(&self) -> TokenView {
        match self {
            Token::Number(text) => TokenView::Number(text@),
            Token::Identifier(text) => TokenView::Identifier(text@),
            Token::LeftParen => TokenView::LeftParen,
            Token::RightParen => TokenView::RightParen,
            Token::Other(text) => TokenView::Other(text@),
        }
    }
}

impl Clone for Token {
    fn clone(&self) -> (copy: Token)
        ensures
            copy == *self,
    {
        match self {
            Token::Number(text) => Token::Number(text.clone()),
            Token::Identifier(text) => Token::Identifier(text.clone()),
            Token::LeftParen => Token::LeftParen,
            Token::RightParen => Token::RightParen,
            Token::Other(text) => Token::Other(text.clone()),
        }
    }
}

impl TokenView {
    /// Whether the token is a number or an identifier, the two tokens that
    /// are an expression by themselves.
    pub open spec fn is_leaf(self) -> bool {
        self is Number || self is Identifier
    }
}

/// The views of a sequence of tokens, in the same order.
pub open spec fn views(tokens: Seq<Token>) -> Seq<TokenView> {
    tokens.map_values(|t: Token| t@)
}

} // verus!

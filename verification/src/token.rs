//! The tokens that the parser reads. A lexer produces them, each tagged with
//! the range of source text it covers.

use crate::name::same_text;
use crate::range::Located;
use vstd::prelude::*;
use vstd::std_specs::cmp::PartialEqSpecImpl;
use vstd::std_specs::convert::FromSpecImpl;

verus! {

/// The reserved words.
#[derive(Clone, Copy, Debug, PartialEq, Eq, Hash, Structural)]
pub enum Keyword {
    Import,
    For,
    In,
    Do,
    If,
}

/// The punctuation.
#[derive(Clone, Copy, Debug, PartialEq, Eq, Hash, Structural)]
pub enum Symbol {
    Colon,
    Equal,
    DotDot,
    OpenParen,
    CloseParen,
    OpenCurly,
    CloseCurly,
    DoubleColon,
}

/// One token. Texts are borrowed from the source.
#[derive(Clone, Copy, Debug)]
pub enum Token<'a> {
    Keyword(Keyword),
    Symbol(Symbol),
    Identifier(&'a str),
    StringLiteral(&'a str),
    IntLiteral(i32),
    /// A line break; `indent` is the column at which the next line starts.
    NewLine { indent: usize },
}

/// A token as a mathematical value: texts are sequences of characters.
pub enum TokenView {
    Keyword(Keyword),
    Symbol(Symbol),
    Identifier(Seq<char>),
    StringLiteral(Seq<char>),
    IntLiteral(i32),
    NewLine { indent: usize },
}

/// A token tagged with its range.
pub type LToken<'a> = Located<Token<'a>>;

/// The mathematical value of a token sequence.
pub type Tokens = Seq<Located<TokenView>>;

impl<'a> View for Token<'a> {
    type V = TokenView;

    open spec fn view(&self) -> TokenView {
        match *self {
            Token::Keyword(keyword) => TokenView::Keyword(keyword),
            Token::Symbol(symbol) => TokenView::Symbol(symbol),
            Token::Identifier(text) => TokenView::Identifier(text@),
            Token::StringLiteral(text) => TokenView::StringLiteral(text@),
            Token::IntLiteral(number) => TokenView::IntLiteral(number),
            Token::NewLine { indent } => TokenView::NewLine { indent },
        }
    }
}

impl<'a> DeepView for Token<'a> {
    type V = TokenView;

    open spec fn deep_view(&self) -> TokenView {
        self@
    }
}

/// The views of a sequence of range-tagged tokens, in order.
pub open spec fn token_views(tokens: Seq<LToken>) -> Tokens {
    Seq::new(tokens.len(), |i: int| tokens[i]@)
}

impl<'a> PartialEq for Token<'a> {
    /// Structural equality: the same variant with the same payload, texts
    /// compared by their characters.
    fn eq(&self, other: &Self) -> (equal: bool) {
        match (*self, *other) {
            (Token::Keyword(a), Token::Keyword(b)) => a == b,
            (Token::Symbol(a), Token::Symbol(b)) => a == b,
            (Token::Identifier(a), Token::Identifier(b)) => same_text(a, b),
            (Token::StringLiteral(a), Token::StringLiteral(b)) => same_text(a, b),
            (Token::IntLiteral(a), Token::IntLiteral(b)) => a == b,
            (Token::NewLine { indent: a }, Token::NewLine { indent: b }) => a == b,
            _ => false,
        }
    }
}

impl<'a> PartialEqSpecImpl for Token<'a> {
    open spec fn obeys_eq_spec() -> bool {
        true
    }

    open spec fn eq_spec(&self, other: &Self) -> bool {
        self@ == other@
    }
}

impl<'a> Eq for Token<'a> {

}

impl<'a> From<Keyword> for Token<'a> {
    fn from(keyword: Keyword) -> (token: Self) {
        Token::Keyword(keyword)
    }
}

impl<'a> FromSpecImpl<Keyword> for Token<'a> {
    open spec fn obeys_from_spec() -> bool {
        true
    }

    open spec fn from_spec(keyword: Keyword) -> Self {
        Token::Keyword(keyword)
    }
}

impl<'a> From<Symbol> for Token<'a> {
    fn from(symbol: Symbol) -> (token: Self) {
        Token::Symbol(symbol)
    }
}

impl<'a> FromSpecImpl<Symbol> for Token<'a> {
    open spec fn obeys_from_spec() -> bool {
        true
    }

    open spec fn from_spec(symbol: Symbol) -> Self {
        Token::Symbol(symbol)
    }
}

} // verus!

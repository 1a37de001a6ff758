//! A single-pass cursor over a token sequence, with the bookkeeping that the
//! indentation rule of blocks needs.
//!
//! The cursor never moves backwards. Beside its position it keeps the
//! indentation of the line it is on: the `indent` of the last line break
//! that it has passed, or 0 before the first one. It also counts the braces
//! and parentheses that were opened and not closed since a position that
//! the caller has marked.

use crate::range::{Located, Range};
use crate::token::{token_views, LToken, Symbol, Token, TokenView, Tokens};
use vstd::prelude::*;

verus! {

/// The token at `pos`, if there is one.
pub open spec fn token_at(tokens: Tokens, pos: nat) -> Option<TokenView> {
    if pos < tokens.len() {
        Some(tokens[pos as int].0)
    } else {
        None
    }
}

/// Whether the token at `pos` exists and is `token`.
pub open spec fn is_at(tokens: Tokens, pos: nat, token: TokenView) -> bool {
    token_at(tokens, pos) == Some(token)
}

/// The range of the token at `pos`. Past the last token it is the empty
/// range at the end of the last token, and `[0, 0)` where there is no token
/// at all.
pub open spec fn range_at(tokens: Tokens, pos: nat) -> Range {
    if pos < tokens.len() {
        tokens[pos as int].1
    } else if tokens.len() > 0 {
        Range(tokens.last().1.1, tokens.last().1.1)
    } else {
        Range(0, 0)
    }
}

/// The range of the token before `pos`, or `[0, 0)` where there is none.
pub open spec fn range_before(tokens: Tokens, pos: nat) -> Range {
    if 0 < pos <= tokens.len() {
        tokens[pos - 1].1
    } else {
        Range(0, 0)
    }
}

/// The indentation of the line that position `pos` is on: the `indent` of
/// the last line break among the first `pos` tokens, or 0 if there is none.
pub open spec fn indent_at(tokens: Tokens, pos: nat) -> usize
    decreases pos,
{
    if pos == 0 || pos > tokens.len() {
        0
    } else {
        match tokens[pos - 1].0 {
            TokenView::NewLine { indent } => indent,
            _ => indent_at(tokens, (pos - 1) as nat),
        }
    }
}

/// How many braces and parentheses are open.
pub struct Open {
    pub braces: nat,
    pub parens: nat,
}

impl Open {
    /// Nothing is open.
    pub open spec fn none() -> Open {
        Open { braces: 0, parens: 0 }
    }

    /// What is open after `token`: an opening brace or parenthesis opens
    /// one more, a closing one closes one of its kind if one is open.
    pub open spec fn after(self, token: TokenView) -> Open {
        if token == TokenView::Symbol(Symbol::OpenCurly) {
            Open { braces: self.braces + 1, parens: self.parens }
        } else if token == TokenView::Symbol(Symbol::CloseCurly) {
            Open { braces: if self.braces > 0 { (self.braces - 1) as nat } else { 0 }, parens: self.parens }
        } else if token == TokenView::Symbol(Symbol::OpenParen) {
            Open { braces: self.braces, parens: self.parens + 1 }
        } else if token == TokenView::Symbol(Symbol::CloseParen) {
            Open { braces: self.braces, parens: if self.parens > 0 { (self.parens - 1) as nat } else { 0 } }
        } else {
            self
        }
    }
}

/// What is open at position `to`, of the braces and parentheses from
/// position `from` on.
pub open spec fn open_between(tokens: Tokens, from: nat, to: nat) -> Open
    decreases to,
{
    if to <= from || to > tokens.len() {
        Open::none()
    } else {
        open_between(tokens, from, (to - 1) as nat).after(tokens[to - 1].0)
    }
}

/// No more can be open than tokens were passed.
pub proof fn lemma_open_between(tokens: Tokens, from: nat, to: nat)
    ensures
        to >= from ==> open_between(tokens, from, to).braces <= to - from,
        to >= from ==> open_between(tokens, from, to).parens <= to - from,
        to <= from ==> open_between(tokens, from, to) == Open::none(),
    decreases to,
{
    if to > from && to <= tokens.len() {
        lemma_open_between(tokens, from, (to - 1) as nat);
    }
}

/// Where the cursor stands: its position and the indentation there, the
/// position that was marked, and what is open since.
struct Mark {
    pos: usize,
    indent: usize,
    since: usize,
    braces: usize,
    parens: usize,
}

/// A cursor over a token sequence.
pub struct TokenReader<'a> {
    tokens: Vec<LToken<'a>>,
    mark: Mark,
}

impl<'a> TokenReader<'a> {
    /// The token sequence that the cursor runs over.
    pub closed spec fn tokens(&self) -> Tokens {
        token_views(self.tokens@)
    }

    /// The number of tokens consumed so far.
    pub closed spec fn pos(&self) -> nat {
        self.mark.pos as nat
    }

    #[verifier::type_invariant]
    spec fn inv(&self) -> bool {
        &&& self.mark.pos <= self.tokens.len()
        &&& self.mark.indent == indent_at(token_views(self.tokens@), self.mark.pos as nat)
        &&& self.mark.since <= self.mark.pos
        &&& self.mark.braces == open_between(
            token_views(self.tokens@),
            self.mark.since as nat,
            self.mark.pos as nat,
        ).braces
        &&& self.mark.parens == open_between(
            token_views(self.tokens@),
            self.mark.since as nat,
            self.mark.pos as nat,
        ).parens
    }

    /// The position that was marked last, or 0.
    pub closed spec fn marked(&self) -> nat {
        self.mark.since as nat
    }

    /// A cursor before the first of `tokens`.
    pub fn new(tokens: Vec<LToken<'a>>) -> (reader: Self)
        ensures
            reader.tokens() == token_views(tokens@),
            reader.pos() == 0,
            reader.marked() == 0,
    {
        TokenReader { tokens, mark: Mark { pos: 0, indent: 0, since: 0, braces: 0, parens: 0 } }
    }

    /// Marks the position of the cursor: braces and parentheses are counted
    /// from here on.
    pub fn mark(&mut self)
        ensures
            final(self).tokens() == old(self).tokens(),
            final(self).pos() == old(self).pos(),
            final(self).marked() == old(self).pos(),
    {
        proof {
            use_type_invariant(&*self);
        }
        self.mark = Mark {
            pos: self.mark.pos,
            indent: self.mark.indent,
            since: self.mark.pos,
            braces: 0,
            parens: 0,
        };
    }

    /// The braces that were opened since the marked position and are not
    /// closed.
    pub fn open_braces(&self) -> (braces: usize)
        ensures
            braces == open_between(self.tokens(), self.marked(), self.pos()).braces,
            braces <= self.pos(),
    {
        proof {
            use_type_invariant(self);
            lemma_open_between(self.tokens(), self.marked(), self.pos());
        }
        self.mark.braces
    }

    /// The parentheses that were opened since the marked position and are
    /// not closed.
    pub fn open_parens(&self) -> (parens: usize)
        ensures
            parens == open_between(self.tokens(), self.marked(), self.pos()).parens,
            parens <= self.pos(),
    {
        proof {
            use_type_invariant(self);
            lemma_open_between(self.tokens(), self.marked(), self.pos());
        }
        self.mark.parens
    }

    /// The number of tokens consumed so far.
    pub fn position(&self) -> (pos: usize)
        ensures
            pos == self.pos(),
            pos <= self.tokens().len(),
    {
        proof {
            use_type_invariant(self);
        }
        self.mark.pos
    }

    /// The number of tokens in all.
    pub fn len(&self) -> (len: usize)
        ensures
            len == self.tokens().len(),
            self.pos() <= len,
    {
        proof {
            use_type_invariant(self);
        }
        self.tokens.len()
    }

    /// The token under the cursor with its range, or `None` past the end.
    pub fn current(&self) -> (current: Option<&LToken<'a>>)
        ensures
            self.pos() <= self.tokens().len(),
            match current {
                Some(token) => self.pos() < self.tokens().len() && token@
                    == self.tokens()[self.pos() as int],
                None => self.pos() >= self.tokens().len(),
            },
    {
        proof {
            use_type_invariant(self);
        }
        if self.mark.pos < self.tokens.len() {
            Some(&self.tokens[self.mark.pos])
        } else {
            None
        }
    }

    /// The token under the cursor, or `None` past the end.
    pub fn curr_token(&self) -> (current: Option<Token<'a>>)
        ensures
            self.pos() <= self.tokens().len(),
            match current {
                Some(token) => token_at(self.tokens(), self.pos()) == Some(token@),
                None => token_at(self.tokens(), self.pos()) is None,
            },
    {
        proof {
            use_type_invariant(self);
        }
        if self.mark.pos < self.tokens.len() {
            Some(self.tokens[self.mark.pos].0)
        } else {
            None
        }
    }

    /// Moves the cursor over the token under it. The caller has seen that
    /// there is one.
    fn advance(&mut self)
        requires
            old(self).mark.pos < old(self).tokens.len(),
        ensures
            final(self).tokens == old(self).tokens,
            final(self).mark.pos == old(self).mark.pos + 1,
            final(self).mark.since == old(self).mark.since,
    {
        proof {
            use_type_invariant(&*self);
            lemma_open_between(
                token_views(self.tokens@),
                self.mark.since as nat,
                self.mark.pos as nat,
            );
        }
        let token = self.tokens[self.mark.pos].0;
        let indent = match token {
            Token::NewLine { indent } => indent,
            _ => self.mark.indent,
        };
        let mut braces = self.mark.braces;
        let mut parens = self.mark.parens;
        match token {
            Token::Symbol(Symbol::OpenCurly) => {
                braces = braces + 1;
            },
            Token::Symbol(Symbol::CloseCurly) => {
                if braces > 0 {
                    braces = braces - 1;
                }
            },
            Token::Symbol(Symbol::OpenParen) => {
                parens = parens + 1;
            },
            Token::Symbol(Symbol::CloseParen) => {
                if parens > 0 {
                    parens = parens - 1;
                }
            },
            _ => {},
        }
        self.mark = Mark {
            pos: self.mark.pos + 1,
            indent,
            since: self.mark.since,
            braces,
            parens,
        };
    }

    /// Consumes the token under the cursor and returns it with its range;
    /// `None` past the end.
    pub fn pop(&mut self) -> (popped: Option<LToken<'a>>)
        ensures
            final(self).tokens() == old(self).tokens(),
            final(self).marked() == old(self).marked(),
            final(self).pos() <= final(self).tokens().len(),
            match popped {
                Some(token) => old(self).pos() < old(self).tokens().len() && token@
                    == old(self).tokens()[old(self).pos() as int] && final(self).pos() == old(
                    self,
                ).pos() + 1,
                None => old(self).pos() >= old(self).tokens().len() && final(self).pos() == old(
                    self,
                ).pos(),
            },
    {
        proof {
            use_type_invariant(&*self);
        }
        if self.mark.pos < self.tokens.len() {
            let token = self.tokens[self.mark.pos].0;
            let range = self.tokens[self.mark.pos].1;
            self.advance();
            Some(Located(token, range))
        } else {
            None
        }
    }

    /// Consumes the token under the cursor and returns it; `None` past the
    /// end.
    pub fn pop_token(&mut self) -> (popped: Option<Token<'a>>)
        ensures
            final(self).tokens() == old(self).tokens(),
            final(self).marked() == old(self).marked(),
            final(self).pos() <= final(self).tokens().len(),
            final(self).pos() <= usize::MAX,
            match popped {
                Some(token) => token_at(old(self).tokens(), old(self).pos()) == Some(token@)
                    && final(self).pos() == old(self).pos() + 1,
                None => token_at(old(self).tokens(), old(self).pos()) is None && final(self).pos()
                    == old(self).pos(),
            },
    {
        proof {
            use_type_invariant(&*self);
        }
        if self.mark.pos < self.tokens.len() {
            let token = self.tokens[self.mark.pos].0;
            self.advance();
            Some(token)
        } else {
            None
        }
    }

    /// Consumes the token under the cursor if it equals `expected`, and says
    /// whether it did. Line breaks are not skipped.
    pub fn pop_token_eq(&mut self, expected: Token<'a>) -> (matched: bool)
        ensures
            final(self).tokens() == old(self).tokens(),
            final(self).marked() == old(self).marked(),
            final(self).pos() <= final(self).tokens().len(),
            matched == is_at(old(self).tokens(), old(self).pos(), expected@),
            final(self).pos() == if matched {
                old(self).pos() + 1
            } else {
                old(self).pos()
            },
    {
        proof {
            use_type_invariant(&*self);
        }
        if self.mark.pos < self.tokens.len() {
            let token = self.tokens[self.mark.pos].0;
            if token == expected {
                self.advance();
                return true;
            }
        }
        false
    }

    /// Consumes an identifier and returns its text; consumes nothing where
    /// the token under the cursor is no identifier.
    pub fn pop_token_ident(&mut self) -> (text: Option<&'a str>)
        ensures
            final(self).tokens() == old(self).tokens(),
            final(self).marked() == old(self).marked(),
            final(self).pos() <= final(self).tokens().len(),
            match text {
                Some(text) => is_at(
                    old(self).tokens(),
                    old(self).pos(),
                    TokenView::Identifier(text@),
                ) && final(self).pos() == old(self).pos() + 1,
                None => !(token_at(old(self).tokens(), old(self).pos()) matches Some(
                    TokenView::Identifier(_),
                )) && final(self).pos() == old(self).pos(),
            },
    {
        proof {
            use_type_invariant(&*self);
        }
        if self.mark.pos < self.tokens.len() {
            if let Token::Identifier(text) = self.tokens[self.mark.pos].0 {
                self.advance();
                return Some(text);
            }
        }
        None
    }

    /// Consumes a string literal and returns its text; consumes nothing
    /// where the token under the cursor is no string literal.
    pub fn pop_token_string(&mut self) -> (text: Option<&'a str>)
        ensures
            final(self).tokens() == old(self).tokens(),
            final(self).marked() == old(self).marked(),
            final(self).pos() <= final(self).tokens().len(),
            match text {
                Some(text) => is_at(
                    old(self).tokens(),
                    old(self).pos(),
                    TokenView::StringLiteral(text@),
                ) && final(self).pos() == old(self).pos() + 1,
                None => !(token_at(old(self).tokens(), old(self).pos()) matches Some(
                    TokenView::StringLiteral(_),
                )) && final(self).pos() == old(self).pos(),
            },
    {
        proof {
            use_type_invariant(&*self);
        }
        if self.mark.pos < self.tokens.len() {
            if let Token::StringLiteral(text) = self.tokens[self.mark.pos].0 {
                self.advance();
                return Some(text);
            }
        }
        None
    }

    /// Consumes an integer literal and returns its number; consumes nothing
    /// where the token under the cursor is no integer literal.
    pub fn pop_token_int(&mut self) -> (number: Option<i32>)
        ensures
            final(self).tokens() == old(self).tokens(),
            final(self).marked() == old(self).marked(),
            final(self).pos() <= final(self).tokens().len(),
            match number {
                Some(number) => is_at(
                    old(self).tokens(),
                    old(self).pos(),
                    TokenView::IntLiteral(number),
                ) && final(self).pos() == old(self).pos() + 1,
                None => !(token_at(old(self).tokens(), old(self).pos()) matches Some(
                    TokenView::IntLiteral(_),
                )) && final(self).pos() == old(self).pos(),
            },
    {
        proof {
            use_type_invariant(&*self);
        }
        if self.mark.pos < self.tokens.len() {
            if let Token::IntLiteral(number) = self.tokens[self.mark.pos].0 {
                self.advance();
                return Some(number);
            }
        }
        None
    }

    /// Consumes a line break, whatever its indentation, and returns that
    /// indentation; consumes nothing where the token under the cursor is no
    /// line break.
    pub fn pop_token_newline(&mut self) -> (indent: Option<usize>)
        ensures
            final(self).tokens() == old(self).tokens(),
            final(self).marked() == old(self).marked(),
            final(self).pos() <= final(self).tokens().len(),
            match indent {
                Some(indent) => is_at(
                    old(self).tokens(),
                    old(self).pos(),
                    TokenView::NewLine { indent },
                ) && final(self).pos() == old(self).pos() + 1,
                None => !(token_at(old(self).tokens(), old(self).pos()) matches Some(
                    TokenView::NewLine { .. },
                )) && final(self).pos() == old(self).pos(),
            },
    {
        proof {
            use_type_invariant(&*self);
        }
        if self.mark.pos < self.tokens.len() {
            if let Token::NewLine { indent } = self.tokens[self.mark.pos].0 {
                self.advance();
                return Some(indent);
            }
        }
        None
    }

    /// The indentation of the line the cursor is on.
    pub fn indent(&self) -> (indent: usize)
        ensures
            self.pos() <= self.tokens().len(),
            indent == indent_at(self.tokens(), self.pos()),
    {
        proof {
            use_type_invariant(self);
        }
        self.mark.indent
    }

    /// Consumes a line break that indents further than the line the cursor
    /// is on, and says whether it did.
    pub fn pop_indent_in(&mut self) -> (entered: bool)
        ensures
            final(self).tokens() == old(self).tokens(),
            final(self).marked() == old(self).marked(),
            final(self).pos() <= final(self).tokens().len(),
            entered == (token_at(old(self).tokens(), old(self).pos()) matches Some(
                TokenView::NewLine { indent },
            ) && indent > indent_at(old(self).tokens(), old(self).pos())),
            final(self).pos() == if entered {
                old(self).pos() + 1
            } else {
                old(self).pos()
            },
    {
        proof {
            use_type_invariant(&*self);
        }
        if self.mark.pos < self.tokens.len() {
            if let Token::NewLine { indent } = self.tokens[self.mark.pos].0 {
                if indent > self.mark.indent {
                    self.advance();
                    return true;
                }
            }
        }
        false
    }

    /// Consumes a line break that indents to exactly `baseline`, and says
    /// whether it did.
    pub fn pop_indent_same(&mut self, baseline: usize) -> (aligned: bool)
        ensures
            final(self).tokens() == old(self).tokens(),
            final(self).marked() == old(self).marked(),
            final(self).pos() <= final(self).tokens().len(),
            aligned == is_at(
                old(self).tokens(),
                old(self).pos(),
                TokenView::NewLine { indent: baseline },
            ),
            final(self).pos() == if aligned {
                old(self).pos() + 1
            } else {
                old(self).pos()
            },
    {
        proof {
            use_type_invariant(&*self);
        }
        if self.mark.pos < self.tokens.len() {
            if let Token::NewLine { indent } = self.tokens[self.mark.pos].0 {
                if indent == baseline {
                    self.advance();
                    return true;
                }
            }
        }
        false
    }

    /// The range of the token under the cursor.
    pub fn curr_range(&self) -> (range: Range)
        ensures
            self.pos() <= self.tokens().len(),
            range == range_at(self.tokens(), self.pos()),
    {
        proof {
            use_type_invariant(self);
        }
        if self.mark.pos < self.tokens.len() {
            self.tokens[self.mark.pos].1
        } else if self.tokens.len() > 0 {
            let end = self.tokens[self.tokens.len() - 1].1.1;
            Range(end, end)
        } else {
            Range(0, 0)
        }
    }

    /// The range of the token consumed last.
    pub fn prev_range(&self) -> (range: Range)
        ensures
            self.pos() <= self.tokens().len(),
            range == range_before(self.tokens(), self.pos()),
    {
        proof {
            use_type_invariant(self);
        }
        if self.mark.pos > 0 {
            self.tokens[self.mark.pos - 1].1
        } else {
            Range(0, 0)
        }
    }
}

} // verus!

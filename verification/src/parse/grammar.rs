//! The grammar as a mathematical function.
//!
//! Each rule is a function from the token sequence and a parse state to a
//! [`Step`]: the rule's value, or the signal that the rule was abandoned,
//! together with the state after it. A state is a position in the token
//! sequence and the diagnostics reported so far. The executable parser is
//! proved to compute these functions.
//!
//! ```text
//! Program   := (Newline* Statement)* Newline* <end>
//! Statement := ImportStmt | ForStmt | IfStmt
//!            | Expr (':' TypeExpr? '=' Expr)?
//! Expr      := Atom Atom*
//! Atom      := Literal | '(' Expr ')' | QualifiedName
//! QualifiedName := Identifier ('::' Identifier)*
//! ImportStmt := 'import' QualifiedName
//! ForStmt   := 'for' Identifier? 'in' Expr '..' Expr 'do' Block
//! IfStmt    := 'if' Expr ('do' | <skip to 'do' or '{'>) Block
//! Block     := '{' <indent in> Statement* <indent back to outer> '}'
//! ```
//!
//! Every diagnostic abandons the rule that reports it, and with it every
//! rule up to the statement: a statement adds at most one diagnostic, and
//! one that yields a value adds none. A rule is abandoned without a
//! diagnostic only where a `for` statement lacks its `in`, `..` or `do`.
//!
//! A rule that calls another rule at a later state first checks that the
//! state has moved on and lies within the token sequence. The check makes
//! the definitions well founded; the laws of this grammar show that it
//! always holds.

use crate::ast::{ExprView, LiteralView, StatementView, TypeExprView};
use crate::parse::token_reader::{
    indent_at, is_at, open_between, range_at, range_before, token_at, Open,
};
use crate::parse::ErrorView;
use crate::range::{Located, Range};
use crate::token::{Keyword, Symbol, TokenView, Tokens};
use vstd::prelude::*;

verus! {

/// What parsing carries along: how many tokens are consumed, and the
/// diagnostics reported so far, in the order in which they were found.
pub struct ParseState {
    pub pos: nat,
    pub errors: Seq<ErrorView>,
}

impl ParseState {
    /// The state before the first token, with nothing reported.
    pub open spec fn start() -> ParseState {
        ParseState { pos: 0, errors: Seq::empty() }
    }

    /// The same state at position `pos`.
    pub open spec fn at(self, pos: nat) -> ParseState {
        ParseState { pos, errors: self.errors }
    }

    /// The same state one token further.
    pub open spec fn next(self) -> ParseState {
        self.at(self.pos + 1)
    }

    /// The same state with `error` reported.
    pub open spec fn report(self, error: ErrorView) -> ParseState {
        ParseState { pos: self.pos, errors: self.errors.push(error) }
    }

    /// Whether `self` lies after `from` and within `tokens`.
    pub open spec fn moved_from(self, from: ParseState, tokens: Tokens) -> bool {
        from.pos < self.pos <= tokens.len()
    }

    /// Whether `self` lies at or after `from` and within `tokens`.
    pub open spec fn reached_from(self, from: ParseState, tokens: Tokens) -> bool {
        from.pos <= self.pos <= tokens.len()
    }
}

/// The outcome of one rule: its value, or `Err(())` where the rule was
/// abandoned, and the state after it.
pub struct Step<T> {
    pub value: Result<T, ()>,
    pub state: ParseState,
}

/// The rule produced `value`.
pub open spec fn done<T>(value: T, state: ParseState) -> Step<T> {
    Step { value: Ok(value), state }
}

/// The rule was abandoned.
pub open spec fn fail<T>(state: ParseState) -> Step<T> {
    Step { value: Err(()), state }
}

/// The first position at or after `pos` whose token is `token`, or the end
/// of the tokens where there is none.
pub open spec fn find(tokens: Tokens, pos: nat, token: TokenView) -> nat
    decreases tokens.len() - pos,
{
    if pos >= tokens.len() || tokens[pos as int].0 == token {
        pos
    } else {
        find(tokens, pos + 1, token)
    }
}

/// Whether a token opens a block or is the keyword `do`: where the skipping
/// after the condition of an `if` stops.
pub open spec fn ends_condition(token: TokenView) -> bool {
    token == TokenView::Symbol(Symbol::OpenCurly) || token == TokenView::Keyword(Keyword::Do)
}

/// The first position at or after `pos` whose token ends a condition, or
/// the end of the tokens where there is none.
pub open spec fn condition_end(tokens: Tokens, pos: nat) -> nat
    decreases tokens.len() - pos,
{
    if pos >= tokens.len() || ends_condition(tokens[pos as int].0) {
        pos
    } else {
        condition_end(tokens, pos + 1)
    }
}

/// The first position at or after `pos` whose token is no line break, or
/// the end of the tokens where there is none.
pub open spec fn statement_start(tokens: Tokens, pos: nat) -> nat
    decreases tokens.len() - pos,
{
    if pos >= tokens.len() || !(tokens[pos as int].0 is NewLine) {
        pos
    } else {
        statement_start(tokens, pos + 1)
    }
}

/// `find` gives the one position with no `token` before it and `token`, or
/// the end, at it.
pub proof fn lemma_find(tokens: Tokens, from: nat, to: nat, token: TokenView)
    requires
        from <= to <= tokens.len(),
        forall|i: int| from <= i < to ==> (#[trigger] tokens[i]).0 != token,
        to == tokens.len() || tokens[to as int].0 == token,
    ensures
        find(tokens, from, token) == to,
    decreases to - from,
{
    if from < to {
        lemma_find(tokens, from + 1, to, token);
    }
}

/// `condition_end` gives the one position with nothing that ends a
/// condition before it and such a token, or the end, at it.
pub proof fn lemma_condition_end(tokens: Tokens, from: nat, to: nat)
    requires
        from <= to <= tokens.len(),
        forall|i: int| from <= i < to ==> !ends_condition((#[trigger] tokens[i]).0),
        to == tokens.len() || ends_condition(tokens[to as int].0),
    ensures
        condition_end(tokens, from) == to,
    decreases to - from,
{
    if from < to {
        lemma_condition_end(tokens, from + 1, to);
    }
}

/// `statement_start` gives the one position with only line breaks before
/// it and another token, or the end, at it.
pub proof fn lemma_statement_start(tokens: Tokens, from: nat, to: nat)
    requires
        from <= to <= tokens.len(),
        forall|i: int| from <= i < to ==> (#[trigger] tokens[i]).0 is NewLine,
        to == tokens.len() || !(tokens[to as int].0 is NewLine),
    ensures
        statement_start(tokens, from) == to,
    decreases to - from,
{
    if from < to {
        lemma_statement_start(tokens, from + 1, to);
    }
}

/// `find`, `condition_end` and `statement_start` stop within the tokens,
/// not before where they started.
pub proof fn lemma_searches_stop(tokens: Tokens, from: nat, token: TokenView)
    requires
        from <= tokens.len(),
    ensures
        from <= find(tokens, from, token) <= tokens.len(),
        from <= condition_end(tokens, from) <= tokens.len(),
        from <= statement_start(tokens, from) <= tokens.len(),
    decreases tokens.len() - from,
{
    if from < tokens.len() {
        lemma_searches_stop(tokens, from + 1, token);
    }
}

/// `QualifiedName`, after its first identifier: the segments that follow
/// `segments`. A `::` without an identifier after it is reported at the
/// token that follows it.
pub open spec fn name_segments(tokens: Tokens, state: ParseState, segments: Seq<Seq<char>>) -> Step<
    Option<Seq<Seq<char>>>,
>
    decreases tokens.len() - state.pos,
{
    if is_at(tokens, state.pos, TokenView::Symbol(Symbol::DoubleColon)) {
        match token_at(tokens, state.pos + 1) {
            Some(TokenView::Identifier(segment)) => name_segments(
                tokens,
                state.at(state.pos + 2),
                segments.push(segment),
            ),
            _ => fail(
                state.next().report(
                    ErrorView::NoIdentifierAfterDoubleColon(range_at(tokens, state.pos + 1)),
                ),
            ),
        }
    } else {
        done(Some(segments), state)
    }
}

/// `QualifiedName`; `None` where the state is not at an identifier.
pub open spec fn qualified_name(tokens: Tokens, state: ParseState) -> Step<Option<Seq<Seq<char>>>> {
    match token_at(tokens, state.pos) {
        Some(TokenView::Identifier(first)) => name_segments(tokens, state.next(), seq![first]),
        _ => done(None, state),
    }
}

/// `Literal`; `None` where the state is not at one.
pub open spec fn literal(tokens: Tokens, state: ParseState) -> Step<Option<LiteralView>> {
    match token_at(tokens, state.pos) {
        Some(TokenView::StringLiteral(text)) => done(Some(LiteralView::Str(text)), state.next()),
        Some(TokenView::IntLiteral(number)) => done(Some(LiteralView::I32(number)), state.next()),
        _ => done(None, state),
    }
}

/// `TypeExpr`; `None` where the state is not at an identifier.
pub open spec fn type_expr(tokens: Tokens, state: ParseState) -> Step<Option<TypeExprView>> {
    match token_at(tokens, state.pos) {
        Some(TokenView::Identifier(name)) => done(
            Some(TypeExprView::Var(name, range_before(tokens, state.pos + 1))),
            state.next(),
        ),
        _ => done(None, state),
    }
}

/// `Atom`; `None` where none starts at the state. A literal or a name gets
/// the range from its first token to its last. A parenthesis that is not
/// closed after its expression is reported at the token found in its place.
pub open spec fn atom(tokens: Tokens, state: ParseState) -> Step<Option<ExprView>>
    decreases tokens.len() - state.pos, 1nat,
{
    let start = range_at(tokens, state.pos);
    let constant = literal(tokens, state);
    if let Ok(Some(value)) = constant.value {
        done(
            Some(ExprView::Literal(value, start.merge(range_before(tokens, constant.state.pos)))),
            constant.state,
        )
    } else if is_at(tokens, state.pos, TokenView::Symbol(Symbol::OpenParen)) {
        let inner = expression(tokens, state.next());
        match inner.value {
            Ok(expr) => if is_at(
                tokens,
                inner.state.pos,
                TokenView::Symbol(Symbol::CloseParen),
            ) {
                done(Some(expr), inner.state.next())
            } else {
                fail(
                    inner.state.report(
                        ErrorView::NoClosingParen(range_at(tokens, inner.state.pos)),
                    ),
                )
            },
            Err(_) => fail(inner.state),
        }
    } else {
        let name = qualified_name(tokens, state);
        match name.value {
            Ok(Some(segments)) => done(
                Some(ExprView::Var(segments, start.merge(range_before(tokens, name.state.pos)))),
                name.state,
            ),
            Ok(None) => done(None, name.state),
            Err(_) => fail(name.state),
        }
    }
}

/// The arguments of an application.
pub struct Arguments {
    /// The arguments that were parsed.
    pub items: Seq<ExprView>,
    /// Whether an argument was begun and abandoned, which ends the list.
    pub failed: bool,
    pub state: ParseState,
}

/// `Atom*`, after the arguments `items`: atoms are taken until none starts
/// or one is abandoned.
pub open spec fn arguments(tokens: Tokens, state: ParseState, items: Seq<ExprView>) -> Arguments
    decreases tokens.len() - state.pos, 2nat,
{
    let next = atom(tokens, state);
    match next.value {
        Ok(Some(item)) if next.state.moved_from(state, tokens) => arguments(
            tokens,
            next.state,
            items.push(item),
        ),
        Ok(_) => Arguments { items, failed: false, state: next.state },
        Err(_) => Arguments { items, failed: true, state: next.state },
    }
}

/// `Expr`: one atom, or the application of a first atom to those that
/// follow. Where no atom starts, that is reported at the current token.
pub open spec fn expression(tokens: Tokens, state: ParseState) -> Step<ExprView>
    decreases tokens.len() - state.pos, 3nat,
{
    let first = atom(tokens, state);
    match first.value {
        Ok(Some(func)) if first.state.reached_from(state, tokens) => {
            let rest = arguments(tokens, first.state, Seq::empty());
            if rest.failed {
                fail(rest.state)
            } else if rest.items.len() == 0 {
                done(func, rest.state)
            } else {
                done(ExprView::Apply { func: Box::new(func), args: rest.items }, rest.state)
            }
        },
        Ok(None) => fail(
            first.state.report(ErrorView::ExpectedExpression(range_at(tokens, first.state.pos))),
        ),
        _ => fail(first.state),
    }
}

/// `ImportStmt`, after its keyword.
pub open spec fn import(tokens: Tokens, state: ParseState) -> Step<StatementView> {
    let start = range_at(tokens, state.pos);
    let name = qualified_name(tokens, state);
    match name.value {
        Ok(Some(segments)) => done(StatementView::Import(segments), name.state),
        Ok(None) => fail(
            name.state.report(
                ErrorView::BadNameAfterImport(start.merge(range_at(tokens, name.state.pos))),
            ),
        ),
        Err(_) => fail(name.state),
    }
}

/// The statements of a block.
pub struct Body {
    /// The statements that were parsed.
    pub items: Seq<StatementView>,
    /// Whether a statement was abandoned, which ends the block.
    pub failed: bool,
    pub state: ParseState,
}

/// `Statement* <indent back to outer>`, after the statements `items`.
///
/// Statements are taken until a line break returns to the indentation
/// `outer` of the line that opened the block. After each statement a line
/// break to the block's own indentation `inner` is consumed if there is one.
/// The first statement that is abandoned ends the block where it stands.
pub open spec fn block_body(
    tokens: Tokens,
    state: ParseState,
    outer: usize,
    inner: usize,
    items: Seq<StatementView>,
) -> Body
    decreases tokens.len() - state.pos, 6nat,
{
    if is_at(tokens, state.pos, TokenView::NewLine { indent: outer }) {
        Body { items, failed: false, state: state.next() }
    } else {
        let first = statement(tokens, state);
        match first.value {
            Ok(item) if first.state.moved_from(state, tokens) => block_body(
                tokens,
                if is_at(tokens, first.state.pos, TokenView::NewLine { indent: inner }) {
                    first.state.next()
                } else {
                    first.state
                },
                outer,
                inner,
                items.push(item),
            ),
            _ => Body { items, failed: true, state: first.state },
        }
    }
}

/// The end of a block, after its statements `body`: the closing brace,
/// whose absence is reported at the token found in its place.
pub open spec fn block_end(tokens: Tokens, body: Body) -> Step<Option<Seq<StatementView>>> {
    if body.failed {
        fail(body.state)
    } else if is_at(tokens, body.state.pos, TokenView::Symbol(Symbol::CloseCurly)) {
        done(Some(body.items), body.state.next())
    } else {
        fail(body.state.report(ErrorView::NoClosingCurly(range_at(tokens, body.state.pos))))
    }
}

/// `Block`; `None` where the state is not at an opening brace.
///
/// The brace must be followed by a line break that indents further than the
/// line of the brace; what stands there instead is reported. The closing
/// brace must follow the line break that returns to that line's
/// indentation.
pub open spec fn block(tokens: Tokens, state: ParseState) -> Step<Option<Seq<StatementView>>>
    decreases tokens.len() - state.pos, 0nat,
{
    if !is_at(tokens, state.pos, TokenView::Symbol(Symbol::OpenCurly)) {
        done(None, state)
    } else {
        let outer = indent_at(tokens, state.pos + 1);
        match token_at(tokens, state.pos + 1) {
            Some(TokenView::NewLine { indent: inner }) if inner > outer => block_end(
                tokens,
                block_body(tokens, state.at(state.pos + 2), outer, inner, Seq::empty()),
            ),
            _ => fail(
                state.next().report(
                    ErrorView::NoIndentAfterOpenCurly(range_at(tokens, state.pos + 1)),
                ),
            ),
        }
    }
}

/// The block that a `do` asks for: where none starts, that is reported at
/// the current token.
pub open spec fn block_after_do(tokens: Tokens, body: Step<Option<Seq<StatementView>>>) -> Step<
    Seq<StatementView>,
> {
    match body.value {
        Ok(Some(statements)) => done(statements, body.state),
        Ok(None) => fail(
            body.state.report(ErrorView::NoBlockAfterDo(range_at(tokens, body.state.pos))),
        ),
        Err(_) => fail(body.state),
    }
}

/// `ForStmt`, after its keyword.
///
/// The name is read at once; that it is missing is reported only when the
/// `in` has been found, over the range from where the name was expected to
/// the token before `in`. A missing `in`, `..` or `do` abandons the
/// statement without a diagnostic.
pub open spec fn for_loop(tokens: Tokens, state: ParseState) -> Step<StatementView>
    decreases tokens.len() - state.pos, 0nat,
{
    let name_start = range_at(tokens, state.pos);
    let name = match token_at(tokens, state.pos) {
        Some(TokenView::Identifier(name)) => Some(name),
        _ => None,
    };
    let after_name = if name is Some {
        state.next()
    } else {
        state
    };
    let at_in = state.at(find(tokens, after_name.pos, TokenView::Keyword(Keyword::In)));
    let name_end = range_before(tokens, at_in.pos);
    if !is_at(tokens, at_in.pos, TokenView::Keyword(Keyword::In)) || !at_in.reached_from(
        state,
        tokens,
    ) {
        fail(at_in)
    } else if name is None {
        fail(at_in.next().report(ErrorView::NoNameAfterFor(name_start.merge(name_end))))
    } else {
        let start = expression(tokens, at_in.next());
        if start.value is Err || !is_at(
            tokens,
            start.state.pos,
            TokenView::Symbol(Symbol::DotDot),
        ) || !start.state.reached_from(state, tokens) {
            fail(start.state)
        } else {
            let end = expression(tokens, start.state.next());
            if end.value is Err || !is_at(tokens, end.state.pos, TokenView::Keyword(Keyword::Do))
                || !end.state.reached_from(state, tokens) {
                fail(end.state)
            } else {
                let after_do = end.state.next();
                let at_block = if is_at(
                    tokens,
                    after_do.pos,
                    TokenView::NewLine { indent: indent_at(tokens, after_do.pos) },
                ) {
                    after_do.next()
                } else {
                    after_do
                };
                let body = block_after_do(tokens, block(tokens, at_block));
                match body.value {
                    Ok(statements) => done(
                        StatementView::For(
                            name->Some_0,
                            start.value->Ok_0,
                            end.value->Ok_0,
                            statements,
                        ),
                        body.state,
                    ),
                    Err(_) => fail(body.state),
                }
            }
        }
    }
}

/// `IfStmt`; `None` where the state is not at the keyword `if`.
///
/// After the condition, tokens are skipped up to the next `do` or opening
/// brace. Where that is no `do`, the missing `do` is reported; where it is
/// one and tokens were skipped, the unfinished condition is reported. There
/// is no else-branch.
pub open spec fn if_statement(tokens: Tokens, state: ParseState) -> Step<Option<StatementView>>
    decreases tokens.len() - state.pos, 4nat,
{
    if !is_at(tokens, state.pos, TokenView::Keyword(Keyword::If)) {
        done(None, state)
    } else {
        let condition = expression(tokens, state.next());
        let after_condition = range_at(tokens, condition.state.pos);
        let stop = condition.state.at(condition_end(tokens, condition.state.pos));
        if condition.value is Err {
            fail(condition.state)
        } else if !is_at(tokens, stop.pos, TokenView::Keyword(Keyword::Do)) {
            fail(
                stop.report(
                    ErrorView::NoDoAfterIf(after_condition.merge(range_at(tokens, stop.pos))),
                ),
            )
        } else if stop.pos > condition.state.pos {
            fail(
                stop.next().report(
                    ErrorView::IfConditionDidNotEnd(
                        after_condition.merge(range_at(tokens, stop.pos + 1)),
                    ),
                ),
            )
        } else if !stop.next().moved_from(state, tokens) {
            fail(stop.next())
        } else {
            let body = block_after_do(tokens, block(tokens, stop.next()));
            match body.value {
                Ok(statements) => done(
                    Some(StatementView::If(condition.value->Ok_0, statements, None)),
                    body.state,
                ),
                Err(_) => fail(body.state),
            }
        }
    }
}

/// The declaration of `target` with type `type_` and value `value`.
///
/// The target is looked at only now, when all its parts have been read:
/// anything but a name is reported as not assignable. Of a qualified name
/// only the first segment is declared.
pub open spec fn declared(target: ExprView, type_: TypeExprView, value: Step<ExprView>) -> Step<
    StatementView,
> {
    match value.value {
        Ok(value_expr) => match target {
            ExprView::Var(name, _) => done(
                StatementView::VarDecl(name[0], type_, value_expr),
                value.state,
            ),
            other => fail(value.state.report(ErrorView::CouldNotAssignTo(other))),
        },
        Err(_) => fail(value.state),
    }
}

/// `Statement`. A leading keyword decides the rule; anything else is an
/// expression, which a colon after it turns into the target of a
/// declaration. In a declaration a missing type and a missing `=` are
/// reported, each at the token found in its place.
pub open spec fn statement(tokens: Tokens, state: ParseState) -> Step<StatementView>
    decreases tokens.len() - state.pos, 5nat,
{
    if is_at(tokens, state.pos, TokenView::Keyword(Keyword::Import)) {
        import(tokens, state.next())
    } else if is_at(tokens, state.pos, TokenView::Keyword(Keyword::For)) {
        for_loop(tokens, state.next())
    } else {
        let conditional = if_statement(tokens, state);
        match conditional.value {
            Ok(Some(found)) => done(found, conditional.state),
            Ok(None) => {
                let target = expression(tokens, state);
                match target.value {
                    Err(_) => fail(target.state),
                    Ok(expr) => if !is_at(
                        tokens,
                        target.state.pos,
                        TokenView::Symbol(Symbol::Colon),
                    ) {
                        done(StatementView::Expr(expr), target.state)
                    } else {
                        let type_ = type_expr(tokens, target.state.next());
                        match type_.value {
                            Ok(Some(found)) => if !is_at(
                                tokens,
                                type_.state.pos,
                                TokenView::Symbol(Symbol::Equal),
                            ) {
                                fail(
                                    type_.state.report(
                                        ErrorView::NoEqualsInVariableDeclaration(
                                            range_at(tokens, type_.state.pos),
                                        ),
                                    ),
                                )
                            } else if !type_.state.moved_from(state, tokens) {
                                fail(type_.state)
                            } else {
                                declared(expr, found, expression(tokens, type_.state.next()))
                            },
                            _ => fail(
                                type_.state.report(
                                    ErrorView::NoTypeExpressionAfterColonInVariableDeclaration(
                                        range_at(tokens, type_.state.pos),
                                    ),
                                ),
                            ),
                        }
                    },
                }
            },
            Err(_) => fail(conditional.state),
        }
    }
}

/// Where parsing resumes after an abandoned top-level statement: after the
/// next line break with indentation 0 that stands outside every brace and
/// parenthesis, or at the end. `open` says what is open at `pos`.
pub open spec fn resume_point(tokens: Tokens, pos: nat, open: Open) -> nat
    decreases tokens.len() - pos,
{
    if pos >= tokens.len() {
        pos
    } else if open == Open::none() && tokens[pos as int].0 == (TokenView::NewLine { indent: 0 }) {
        pos + 1
    } else {
        resume_point(tokens, pos + 1, open.after(tokens[pos as int].0))
    }
}

/// The statements of a program, gathered so far and still to come.
pub struct Statements {
    pub items: Seq<StatementView>,
    pub state: ParseState,
}

/// `(Newline* Statement)* Newline* <end>`, after the statements `items`.
///
/// An abandoned statement is left out, and parsing resumes at the
/// [`resume_point`] after where it was abandoned, with the braces and
/// parentheses open that the statement had opened up to there. So a
/// statement that is abandoned within a block is passed over together with
/// the rest of the block.
pub open spec fn program(tokens: Tokens, state: ParseState, items: Seq<StatementView>) -> Statements
    decreases tokens.len() - state.pos,
{
    let begin = state.at(statement_start(tokens, state.pos));
    if begin.pos >= tokens.len() {
        Statements { items, state: begin }
    } else {
        let first = statement(tokens, begin);
        let resumed = match first.value {
            Ok(_) => first.state,
            Err(_) => first.state.at(
                resume_point(
                    tokens,
                    first.state.pos,
                    open_between(tokens, begin.pos, first.state.pos),
                ),
            ),
        };
        if !resumed.moved_from(state, tokens) {
            Statements { items, state: resumed }
        } else {
            match first.value {
                Ok(item) => program(tokens, resumed, items.push(item)),
                Err(_) => program(tokens, resumed, items),
            }
        }
    }
}

/// The result of parsing a whole token sequence: the program, or, where
/// anything was reported, the diagnostics in the order in which they were
/// found.
pub open spec fn parse(tokens: Tokens) -> Result<Seq<StatementView>, Seq<ErrorView>> {
    let end = program(tokens, ParseState::start(), Seq::empty());
    if end.state.errors.len() == 0 {
        Ok(end.items)
    } else {
        Err(end.state.errors)
    }
}

/// Whether the tokens from position `start` on spell the qualified name
/// `name`: its segments as identifiers, with a `::` between each two.
pub open spec fn spells_name(tokens: Tokens, start: int, name: Seq<Seq<char>>) -> bool {
    &&& name.len() >= 1
    &&& 0 <= start
    &&& start + 2 * name.len() - 1 <= tokens.len()
    &&& forall|j: int|
        start <= j < start + 2 * name.len() - 1 ==> (#[trigger] tokens[j]).0 == if (j - start) % 2
            == 0 {
            TokenView::Identifier(name[(j - start) / 2])
        } else {
            TokenView::Symbol(Symbol::DoubleColon)
        }
}

/// The token that a literal is read from.
pub open spec fn literal_token(literal: LiteralView) -> TokenView {
    match literal {
        LiteralView::Str(text) => TokenView::StringLiteral(text),
        LiteralView::I32(number) => TokenView::IntLiteral(number),
    }
}

/// Whether the token at position `at` holds `literal` and has the range
/// `range`.
pub open spec fn literal_at(tokens: Tokens, at: int, literal: LiteralView, range: Range) -> bool {
    0 <= at < tokens.len() && tokens[at] == Located(literal_token(literal), range)
}

/// Whether the tokens from position `start` on spell `name`, and `range` is
/// the span from the first of them to the last.
pub open spec fn name_at(tokens: Tokens, start: int, name: Seq<Seq<char>>, range: Range) -> bool {
    spells_name(tokens, start, name) && range == tokens[start].1.merge(
        tokens[start + 2 * name.len() - 2].1,
    )
}

/// Whether some token holds `literal` and has the range `range`.
pub open spec fn is_literal_of(tokens: Tokens, literal: LiteralView, range: Range) -> bool {
    exists|at: int| literal_at(tokens, at, literal, range)
}

/// Whether some run of tokens spells `name`, and `range` is the span from
/// the first token of the run to the last.
pub open spec fn is_name_of(tokens: Tokens, name: Seq<Seq<char>>, range: Range) -> bool {
    exists|start: int| name_at(tokens, start, name, range)
}

/// Whether every literal and every variable in `expr` carries exactly the
/// range of the tokens it is made of: a literal the range of a token that
/// holds it, a variable the span from the first to the last token of a run
/// of tokens that spells its name.
pub open spec fn expr_ranges_exact(tokens: Tokens, expr: ExprView) -> bool
    decreases expr,
{
    match expr {
        ExprView::Literal(literal, range) => is_literal_of(tokens, literal, range),
        ExprView::Var(name, range) => is_name_of(tokens, name, range),
        ExprView::Apply { func, args } => expr_ranges_exact(tokens, *func) && forall|k: int|
            0 <= k < args.len() ==> expr_ranges_exact(tokens, #[trigger] args[k]),
    }
}

/// Whether every expression in `statement`, at any depth, has exact ranges.
pub open spec fn statement_ranges_exact(tokens: Tokens, statement: StatementView) -> bool
    decreases statement,
{
    match statement {
        StatementView::Import(_) => true,
        StatementView::For(_, start, end, body) => expr_ranges_exact(tokens, start)
            && expr_ranges_exact(tokens, end) && forall|k: int|
            0 <= k < body.len() ==> statement_ranges_exact(tokens, #[trigger] body[k]),
        StatementView::If(condition, body, otherwise) => expr_ranges_exact(tokens, condition)
            && (forall|k: int|
            0 <= k < body.len() ==> statement_ranges_exact(tokens, #[trigger] body[k])) && (
        otherwise matches Some(block) ==> forall|k: int|
            0 <= k < block.len() ==> statement_ranges_exact(tokens, #[trigger] block[k])),
        StatementView::VarDecl(_, _, value) => expr_ranges_exact(tokens, value),
        StatementView::Expr(expr) => expr_ranges_exact(tokens, expr),
    }
}

/// Whether every statement of `block` has exact ranges.
pub open spec fn block_ranges_exact(tokens: Tokens, block: Seq<StatementView>) -> bool {
    forall|k: int| 0 <= k < block.len() ==> statement_ranges_exact(tokens, #[trigger] block[k])
}

} // verus!

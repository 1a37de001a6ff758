//! The grammar driver: from a token sequence to a syntax tree, or to the
//! list of what is wrong with it.

pub mod grammar;
pub mod laws;
pub mod token_reader;

use crate::ast::{
    exprs_view, lemma_apply_view, lemma_for_view, lemma_if_parts, statements_view, Block, Expr,
    ExprView, Literal, Program, QualifiedName, Statement, StatementView, TypeExpr,
};
use crate::error::{Report, ReportView};
use crate::name::{names_view, Name};
use crate::parse::grammar::{
    block_ranges_exact, expr_ranges_exact, find, lemma_condition_end, lemma_find,
    lemma_statement_start, literal_at, name_at, resume_point, spells_name,
    statement_ranges_exact, statement_start, ParseState, Step,
};
use crate::parse::token_reader::{open_between, Open, TokenReader};
use crate::range::Range;
use crate::token::{token_views, Keyword, LToken, Symbol, Token, TokenView, Tokens};
use vstd::prelude::*;
use vstd::std_specs::convert::FromSpecImpl;
use vstd::string::StringExecFns;

verus! {

/// What can be wrong with a token sequence. Each diagnostic carries the
/// range of source text that it is about. A statement that is abandoned
/// adds one diagnostic, the first that was found in it.
#[derive(Debug, PartialEq, Eq)]
pub enum Error {
    BadNameAfterImport(Range),
    NoIdentifierAfterDoubleColon(Range),
    ExpectedExpression(Range),
    NoTypeExpressionAfterColonInVariableDeclaration(Range),
    NoEqualsInVariableDeclaration(Range),
    CouldNotAssignTo(Expr),
    NoNameAfterFor(Range),
    IfConditionDidNotEnd(Range),
    NoDoAfterIf(Range),
    /// A `do` is followed by something other than a block.
    NoBlockAfterDo(Range),
    /// An opening brace is followed by something other than a line break
    /// that indents further.
    NoIndentAfterOpenCurly(Range),
    /// The line break that ends a block is followed by something other
    /// than the closing brace.
    NoClosingCurly(Range),
    /// An expression in parentheses is followed by something other than
    /// the closing parenthesis.
    NoClosingParen(Range),
}

/// A diagnostic as a mathematical value.
pub enum ErrorView {
    BadNameAfterImport(Range),
    NoIdentifierAfterDoubleColon(Range),
    ExpectedExpression(Range),
    NoTypeExpressionAfterColonInVariableDeclaration(Range),
    NoEqualsInVariableDeclaration(Range),
    CouldNotAssignTo(ExprView),
    NoNameAfterFor(Range),
    IfConditionDidNotEnd(Range),
    NoDoAfterIf(Range),
    NoBlockAfterDo(Range),
    NoIndentAfterOpenCurly(Range),
    NoClosingCurly(Range),
    NoClosingParen(Range),
}

impl View for Error {
    type V = ErrorView;

    open spec fn view(&self) -> ErrorView {
        match self {
            Error::BadNameAfterImport(range) => ErrorView::BadNameAfterImport(*range),
            Error::NoIdentifierAfterDoubleColon(range) => ErrorView::NoIdentifierAfterDoubleColon(
                *range,
            ),
            Error::ExpectedExpression(range) => ErrorView::ExpectedExpression(*range),
            Error::NoTypeExpressionAfterColonInVariableDeclaration(range) =>
                ErrorView::NoTypeExpressionAfterColonInVariableDeclaration(*range),
            Error::NoEqualsInVariableDeclaration(range) => ErrorView::NoEqualsInVariableDeclaration(
                *range,
            ),
            Error::CouldNotAssignTo(expr) => ErrorView::CouldNotAssignTo(expr@),
            Error::NoNameAfterFor(range) => ErrorView::NoNameAfterFor(*range),
            Error::IfConditionDidNotEnd(range) => ErrorView::IfConditionDidNotEnd(*range),
            Error::NoDoAfterIf(range) => ErrorView::NoDoAfterIf(*range),
            Error::NoBlockAfterDo(range) => ErrorView::NoBlockAfterDo(*range),
            Error::NoIndentAfterOpenCurly(range) => ErrorView::NoIndentAfterOpenCurly(*range),
            Error::NoClosingCurly(range) => ErrorView::NoClosingCurly(*range),
            Error::NoClosingParen(range) => ErrorView::NoClosingParen(*range),
        }
    }
}

impl Clone for Error {
    fn clone(&self) -> (copy: Self)
        ensures
            copy@ == self@,
    {
        match self {
            Error::BadNameAfterImport(range) => Error::BadNameAfterImport(*range),
            Error::NoIdentifierAfterDoubleColon(range) => Error::NoIdentifierAfterDoubleColon(
                *range,
            ),
            Error::ExpectedExpression(range) => Error::ExpectedExpression(*range),
            Error::NoTypeExpressionAfterColonInVariableDeclaration(range) =>
                Error::NoTypeExpressionAfterColonInVariableDeclaration(*range),
            Error::NoEqualsInVariableDeclaration(range) => Error::NoEqualsInVariableDeclaration(
                *range,
            ),
            Error::CouldNotAssignTo(expr) => Error::CouldNotAssignTo(expr.clone()),
            Error::NoNameAfterFor(range) => Error::NoNameAfterFor(*range),
            Error::IfConditionDidNotEnd(range) => Error::IfConditionDidNotEnd(*range),
            Error::NoDoAfterIf(range) => Error::NoDoAfterIf(*range),
            Error::NoBlockAfterDo(range) => Error::NoBlockAfterDo(*range),
            Error::NoIndentAfterOpenCurly(range) => Error::NoIndentAfterOpenCurly(*range),
            Error::NoClosingCurly(range) => Error::NoClosingCurly(*range),
            Error::NoClosingParen(range) => Error::NoClosingParen(*range),
        }
    }
}

/// The views of a sequence of diagnostics, in order.
pub open spec fn errors_view(errors: Seq<Error>) -> Seq<ErrorView> {
    Seq::new(errors.len(), |i: int| errors[i]@)
}

/// The text that `Debug` formatting gives for an expression.
pub uninterp spec fn debug_text_of(expr: ExprView) -> Seq<char>;

/// Formats an expression with `std::fmt::Debug`, as `format!("{:?}", ..)`
/// does. The contract claims only that the text depends on nothing but the
/// expression's value; what the text is, is left to the formatter.
#[verifier::external_body]
fn debug_text(expr: &Expr) -> (text: String)
    ensures
        text@ == debug_text_of(expr@),
{
    format!("{:?}", expr)
}

/// The message about an expression that cannot be assigned to, given the
/// text that shows the expression.
pub fn cannot_assign_message(text: &str) -> (message: String)
    ensures
        message@ == "The expression '"@ + text@ + "' cannot be assigned to"@,
{
    let mut message = String::from_str("The expression '");
    message.append(text);
    message.append("' cannot be assigned to");
    message
}

/// The report that a diagnostic turns into: what to tell the user, about
/// which range, with what advice.
pub open spec fn report_of(error: ErrorView) -> ReportView {
    match error {
        ErrorView::BadNameAfterImport(range) => ReportView {
            message: "This import statement is missing what to import"@,
            range,
            hint: Some(
                "Import statements are of the form `import <module>::<sub-module>::<name>`"@,
            ),
        },
        ErrorView::NoIdentifierAfterDoubleColon(range) => ReportView {
            message: "This module access is missing what to access"@,
            range,
            hint: Some("Module access is of the form `<module>::<sub-module>::<name>`"@),
        },
        ErrorView::ExpectedExpression(range) => ReportView {
            message: "This is not the start of an expression"@,
            range,
            hint: None,
        },
        ErrorView::NoTypeExpressionAfterColonInVariableDeclaration(range) => ReportView {
            message: "This variable declaration is missing a type after the colon"@,
            range,
            hint: Some("Variable declarations are of the form `<name> : <type> = <expression>`"@),
        },
        ErrorView::NoEqualsInVariableDeclaration(range) => ReportView {
            message: "This variable declaration is missing an equals sign"@,
            range,
            hint: Some("Variable declarations are of the form `<name> : <type> = <expression>`"@),
        },
        ErrorView::CouldNotAssignTo(expr) => ReportView {
            message: "The expression '"@ + debug_text_of(expr) + "' cannot be assigned to"@,
            range: expr.range(),
            hint: Some("Currently, only variables can be assigned to"@),
        },
        ErrorView::NoNameAfterFor(range) => ReportView {
            message: "This for loop is missing a name after the 'for' keyword"@,
            range,
            hint: None,
        },
        ErrorView::IfConditionDidNotEnd(range) => ReportView {
            message: "This if condition did not end"@,
            range,
            hint: None,
        },
        ErrorView::NoDoAfterIf(range) => ReportView {
            message: "This if statement is missing a 'do' keyword"@,
            range,
            hint: Some("If statements are of the form 'if <condition> do { <body> }'"@),
        },
        ErrorView::NoBlockAfterDo(range) => ReportView {
            message: "This 'do' is not followed by a block"@,
            range,
            hint: Some("A block starts with '{' after the 'do' keyword"@),
        },
        ErrorView::NoIndentAfterOpenCurly(range) => ReportView {
            message: "This block does not start on a new, indented line"@,
            range,
            hint: Some("The statements of a block stand on lines of their own, indented"@),
        },
        ErrorView::NoClosingCurly(range) => ReportView {
            message: "This block is missing its closing brace"@,
            range,
            hint: Some("A block is closed by '}' on a line aligned with the line that opens it"@),
        },
        ErrorView::NoClosingParen(range) => ReportView {
            message: "This parenthesis is never closed"@,
            range,
            hint: None,
        },
    }
}

impl From<Error> for Report {
    /// Turns a diagnostic into what is shown to the user.
    fn from(error: Error) -> (report: Report)
        ensures
            report@ == report_of(error@),
    {
        match error {
            Error::BadNameAfterImport(range) => Report {
                message: String::from_str("This import statement is missing what to import"),
                range,
                hint: Some(
                    String::from_str(
                        "Import statements are of the form `import <module>::<sub-module>::<name>`",
                    ),
                ),
            },
            Error::NoIdentifierAfterDoubleColon(range) => Report {
                message: String::from_str("This module access is missing what to access"),
                range,
                hint: Some(
                    String::from_str(
                        "Module access is of the form `<module>::<sub-module>::<name>`",
                    ),
                ),
            },
            Error::ExpectedExpression(range) => Report {
                message: String::from_str("This is not the start of an expression"),
                range,
                hint: None,
            },
            Error::NoTypeExpressionAfterColonInVariableDeclaration(range) => Report {
                message: String::from_str(
                    "This variable declaration is missing a type after the colon",
                ),
                range,
                hint: Some(
                    String::from_str(
                        "Variable declarations are of the form `<name> : <type> = <expression>`",
                    ),
                ),
            },
            Error::NoEqualsInVariableDeclaration(range) => Report {
                message: String::from_str("This variable declaration is missing an equals sign"),
                range,
                hint: Some(
                    String::from_str(
                        "Variable declarations are of the form `<name> : <type> = <expression>`",
                    ),
                ),
            },
            Error::CouldNotAssignTo(expr) => Report {
                message: cannot_assign_message(debug_text(&expr).as_str()),
                range: expr.range(),
                hint: Some(String::from_str("Currently, only variables can be assigned to")),
            },
            Error::NoNameAfterFor(range) => Report {
                message: String::from_str(
                    "This for loop is missing a name after the 'for' keyword",
                ),
                range,
                hint: None,
            },
            Error::IfConditionDidNotEnd(range) => Report {
                message: String::from_str("This if condition did not end"),
                range,
                hint: None,
            },
            Error::NoDoAfterIf(range) => Report {
                message: String::from_str("This if statement is missing a 'do' keyword"),
                range,
                hint: Some(
                    String::from_str(
                        "If statements are of the form 'if <condition> do { <body> }'",
                    ),
                ),
            },
            Error::NoBlockAfterDo(range) => Report {
                message: String::from_str("This 'do' is not followed by a block"),
                range,
                hint: Some(String::from_str("A block starts with '{' after the 'do' keyword")),
            },
            Error::NoIndentAfterOpenCurly(range) => Report {
                message: String::from_str("This block does not start on a new, indented line"),
                range,
                hint: Some(
                    String::from_str(
                        "The statements of a block stand on lines of their own, indented",
                    ),
                ),
            },
            Error::NoClosingCurly(range) => Report {
                message: String::from_str("This block is missing its closing brace"),
                range,
                hint: Some(
                    String::from_str(
                        "A block is closed by '}' on a line aligned with the line that opens it",
                    ),
                ),
            },
            Error::NoClosingParen(range) => Report {
                message: String::from_str("This parenthesis is never closed"),
                range,
                hint: None,
            },
        }
    }
}

impl FromSpecImpl<Error> for Report {
    /// Two reports with the same view are not the same value to the
    /// verifier, so what `from` returns is stated by its own contract.
    open spec fn obeys_from_spec() -> bool {
        false
    }

    open spec fn from_spec(error: Error) -> Self {
        arbitrary()
    }
}

/// The view of a rule's result whose value has a view.
pub open spec fn ok_view<T: View>(result: Result<T, ()>) -> Result<T::V, ()> {
    match result {
        Ok(value) => Ok(value@),
        Err(_) => Err(()),
    }
}

/// The view of an optional rule's result whose value has a view.
pub open spec fn opt_view<T: View>(result: Result<Option<T>, ()>) -> Result<Option<T::V>, ()> {
    match result {
        Ok(Some(value)) => Ok(Some(value@)),
        Ok(None) => Ok(None),
        Err(_) => Err(()),
    }
}

/// The view of the result of parsing a qualified name.
pub open spec fn opt_names_view(result: Result<Option<QualifiedName>, ()>) -> Result<
    Option<Seq<Seq<char>>>,
    (),
> {
    match result {
        Ok(Some(name)) => Ok(Some(names_view(name@))),
        Ok(None) => Ok(None),
        Err(_) => Err(()),
    }
}

/// The view of the result of parsing a block.
pub open spec fn opt_block_view(result: Result<Option<Block>, ()>) -> Result<
    Option<Seq<StatementView>>,
    (),
> {
    match result {
        Ok(Some(block)) => Ok(Some(statements_view(block@))),
        Ok(None) => Ok(None),
        Err(_) => Err(()),
    }
}

/// What one parse owns: the cursor and the diagnostics found so far.
struct State<'a> {
    tokens: TokenReader<'a>,
    errors: Vec<Error>,
}

impl<'a> View for State<'a> {
    type V = ParseState;

    closed spec fn view(&self) -> ParseState {
        ParseState { pos: self.tokens.pos(), errors: errors_view(self.errors@) }
    }
}

impl<'a> State<'a> {
    /// The token sequence that is being parsed.
    closed spec fn source(&self) -> Tokens {
        self.tokens.tokens()
    }

    /// Whether `self` is a state of the same parse as `before`, not before
    /// it.
    closed spec fn follows(&self, before: &State<'a>) -> bool {
        &&& self.source() == before.source()
        &&& self.tokens.marked() == before.tokens.marked()
        &&& self@.reached_from(before@, before.source())
    }

    /// Adds a diagnostic.
    fn report(&mut self, error: Error)
        ensures
            final(self).source() == old(self).source(),
            final(self).tokens.marked() == old(self).tokens.marked(),
            final(self)@ == old(self)@.report(error@),
    {
        self.errors.push(error);
        assert(errors_view(self.errors@) =~= errors_view(old(self).errors@).push(error@));
    }
}

/// Consumes the line breaks under the cursor.
fn skip_newlines(state: &mut State)
    ensures
        final(state).follows(old(state)),
        final(state)@ == old(state)@.at(statement_start(old(state).source(), old(state)@.pos)),
{
    loop
        invariant
            state.source() == old(state).source(),
            state.tokens.marked() == old(state).tokens.marked(),
            state@.errors == old(state)@.errors,
            old(state)@.pos <= state@.pos,
            forall|i: int|
                old(state)@.pos <= i < state@.pos ==> (#[trigger] state.source()[i]).0 is NewLine,
        ensures
            state.source() == old(state).source(),
            state.tokens.marked() == old(state).tokens.marked(),
            state@.errors == old(state)@.errors,
            old(state)@.pos <= state@.pos <= state.source().len(),
            forall|i: int|
                old(state)@.pos <= i < state@.pos ==> (#[trigger] state.source()[i]).0 is NewLine,
            state@.pos == state.source().len() || !(state.source()[state@.pos as int].0
                is NewLine),
        decreases state.source().len() - state@.pos,
    {
        if state.tokens.pop_token_newline().is_none() {
            break ;
        }
    }
    proof {
        lemma_statement_start(state.source(), old(state)@.pos, state@.pos);
    }
}

/// Consumes tokens up to, and not including, the next `token`, or all of
/// them where there is none.
fn skip_until<'a>(state: &mut State<'a>, token: Token<'a>)
    ensures
        final(state).follows(old(state)),
        final(state)@ == old(state)@.at(find(old(state).source(), old(state)@.pos, token@)),
{
    loop
        invariant
            state.source() == old(state).source(),
            state.tokens.marked() == old(state).tokens.marked(),
            state@.errors == old(state)@.errors,
            old(state)@.pos <= state@.pos,
            forall|i: int|
                old(state)@.pos <= i < state@.pos ==> (#[trigger] state.source()[i]).0 != token@,
        ensures
            state.source() == old(state).source(),
            state.tokens.marked() == old(state).tokens.marked(),
            state@.errors == old(state)@.errors,
            old(state)@.pos <= state@.pos <= state.source().len(),
            forall|i: int|
                old(state)@.pos <= i < state@.pos ==> (#[trigger] state.source()[i]).0 != token@,
            state@.pos == state.source().len() || state.source()[state@.pos as int].0 == token@,
        decreases state.source().len() - state@.pos,
    {
        match state.tokens.curr_token() {
            Some(current) => {
                if current == token {
                    break ;
                }
            },
            None => {
                break ;
            },
        }
        state.tokens.pop_token();
    }
    proof {
        lemma_find(state.source(), old(state)@.pos, state@.pos, token@);
    }
}

/// Whether `predicate` may give `answer` for a token whose view is `token`.
spec fn answers<'a, F: Fn(&Token<'a>) -> bool>(predicate: F, token: TokenView, answer: bool) -> bool {
    exists|t: Token<'a>| t@ == token && call_ensures(predicate, (&t,), answer)
}

/// Consumes tokens up to, and not including, the next one that `predicate`
/// accepts, or all of them where it accepts none. Says whether any token
/// was consumed.
fn skip_until_pred<'a, F: Fn(&Token<'a>) -> bool>(state: &mut State<'a>, predicate: F) -> (skipped:
    bool)
    requires
        forall|token: &Token<'a>| call_requires(predicate, (token,)),
    ensures
        final(state).follows(old(state)),
        final(state)@.errors == old(state)@.errors,
        skipped == (final(state)@.pos > old(state)@.pos),
        forall|i: int|
            old(state)@.pos <= i < final(state)@.pos ==> #[trigger] answers(
                predicate,
                old(state).source()[i].0,
                false,
            ),
        final(state)@.pos == old(state).source().len() || answers(
            predicate,
            old(state).source()[final(state)@.pos as int].0,
            true,
        ),
{
    let mut skipped = false;
    loop
        invariant
            state.source() == old(state).source(),
            state.tokens.marked() == old(state).tokens.marked(),
            state@.errors == old(state)@.errors,
            old(state)@.pos <= state@.pos,
            skipped == (state@.pos > old(state)@.pos),
            forall|token: &Token<'a>| call_requires(predicate, (token,)),
            forall|i: int|
                old(state)@.pos <= i < state@.pos ==> #[trigger] answers(
                    predicate,
                    old(state).source()[i].0,
                    false,
                ),
        ensures
            state@.pos <= state.source().len(),
            state@.pos == old(state).source().len() || answers(
                predicate,
                old(state).source()[state@.pos as int].0,
                true,
            ),
        decreases state.source().len() - state@.pos,
    {
        match state.tokens.curr_token() {
            Some(current) => {
                if predicate(&current) {
                    break ;
                }
            },
            None => {
                break ;
            },
        }
        skipped = true;
        state.tokens.pop_token();
    }
    skipped
}

/// Consumes the tokens of an abandoned statement: up to and including the
/// next line break with indentation 0 that stands outside every brace and
/// parenthesis, counted from the marked position on.
fn skip_until_top_level_newline(state: &mut State)
    ensures
        final(state).follows(old(state)),
        final(state)@ == old(state)@.at(
            resume_point(
                old(state).source(),
                old(state)@.pos,
                open_between(old(state).source(), old(state).tokens.marked(), old(state)@.pos),
            ),
        ),
        final(state)@.pos > old(state)@.pos || old(state)@.pos == old(state).source().len(),
{
    let ghost tokens = state.source();
    let mut braces = state.tokens.open_braces();
    let mut parens = state.tokens.open_parens();
    let ghost target = resume_point(
        tokens,
        state@.pos,
        (Open { braces: braces as nat, parens: parens as nat }),
    );
    loop
        invariant_except_break
            target == resume_point(
                tokens,
                state@.pos,
                (Open { braces: braces as nat, parens: parens as nat }),
            ),
        invariant
            state.source() == tokens,
            state.tokens.marked() == old(state).tokens.marked(),
            tokens == old(state).source(),
            state@.errors == old(state)@.errors,
            old(state)@.pos <= state@.pos,
            braces <= state@.pos,
            parens <= state@.pos,
        ensures
            state@.pos <= tokens.len(),
            state@.pos == target,
            state@.pos > old(state)@.pos || old(state)@.pos == tokens.len(),
        decreases tokens.len() - state@.pos,
    {
        let Some(current) = state.tokens.pop_token() else {
            break ;
        };
        if braces == 0 && parens == 0 && current == (Token::NewLine { indent: 0 }) {
            break ;
        }
        if current == Token::Symbol(Symbol::OpenCurly) {
            braces = braces + 1;
        } else if current == Token::Symbol(Symbol::CloseCurly) {
            if braces > 0 {
                braces = braces - 1;
            }
        } else if current == Token::Symbol(Symbol::OpenParen) {
            parens = parens + 1;
        } else if current == Token::Symbol(Symbol::CloseParen) {
            if parens > 0 {
                parens = parens - 1;
            }
        }
    }
}

/// Whether a rule that ran from `before` to `after` and gave `value` did
/// what `step` says.
spec fn ran<T>(before: &State, after: &State, value: Result<T, ()>, step: Step<T>) -> bool {
    &&& after.follows(before)
    &&& after@ == step.state
    &&& value == step.value
}

/// Reads a literal, if the cursor is at one.
fn parse_literal(state: &mut State) -> (result: Result<Option<Literal>, ()>)
    ensures
        ran(
            old(state),
            final(state),
            opt_view(result),
            grammar::literal(old(state).source(), old(state)@),
        ),
{
    if let Some(text) = state.tokens.pop_token_string() {
        return Ok(Some(Literal::Str(Name::from_str(text))));
    }
    if let Some(number) = state.tokens.pop_token_int() {
        return Ok(Some(Literal::I32(number)));
    }
    Ok(None)
}

/// Reads a type, if the cursor is at one.
fn parse_type_expr(state: &mut State) -> (result: Result<Option<TypeExpr>, ()>)
    ensures
        ran(
            old(state),
            final(state),
            opt_view(result),
            grammar::type_expr(old(state).source(), old(state)@),
        ),
{
    if let Some(name) = state.tokens.pop_token_ident() {
        let range = state.tokens.prev_range();
        return Ok(Some(TypeExpr::Var(Name::from_str(name), range)));
    }
    Ok(None)
}

/// Reads a qualified name, if the cursor is at an identifier.
fn parse_qualified_name(state: &mut State) -> (result: Result<Option<QualifiedName>, ()>)
    ensures
        ran(
            old(state),
            final(state),
            opt_names_view(result),
            grammar::qualified_name(old(state).source(), old(state)@),
        ),
        result matches Ok(None) ==> final(state)@ == old(state)@,
        !(result matches Ok(None)) ==> final(state)@.pos > old(state)@.pos,
        result matches Ok(Some(name)) ==> spells_name(
            old(state).source(),
            old(state)@.pos as int,
            names_view(name@),
        ) && final(state)@.pos == old(state)@.pos + 2 * name.len() - 1,
{
    let ghost tokens = state.source();
    let ghost start = state@;
    let Some(first) = state.tokens.pop_token_ident() else {
        return Ok(None);
    };
    let mut name: Vec<Name> = Vec::new();
    name.push(Name::from_str(first));
    assert(names_view(name@) =~= seq![first@]);
    loop
        invariant_except_break
            grammar::qualified_name(tokens, start) == grammar::name_segments(
                tokens,
                state@,
                names_view(name@),
            ),
        invariant
            state.source() == tokens,
            state.tokens.marked() == old(state).tokens.marked(),
            tokens == old(state).source(),
            start == old(state)@,
            state@.errors == start.errors,
            spells_name(tokens, start.pos as int, names_view(name@)),
            state@.pos == start.pos + 2 * name.len() - 1,
            state@.pos <= tokens.len(),
        ensures
            grammar::qualified_name(tokens, start) == (Step {
                value: Ok(Some(names_view(name@))),
                state: state@,
            }),
        decreases tokens.len() - state@.pos,
    {
        if !state.tokens.pop_token_eq(Token::Symbol(Symbol::DoubleColon)) {
            break ;
        }
        let Some(next) = state.tokens.pop_token_ident() else {
            let range = state.tokens.curr_range();
            state.report(Error::NoIdentifierAfterDoubleColon(range));
            return Err(());
        };
        let ghost shorter = names_view(name@);
        name.push(Name::from_str(next));
        assert(names_view(name@) =~= shorter.push(next@));
    }
    Ok(Some(name))
}

/// Reads what follows the keyword `import`.
fn parse_import(state: &mut State) -> (result: Result<Statement, ()>)
    ensures
        ran(
            old(state),
            final(state),
            ok_view(result),
            grammar::import(old(state).source(), old(state)@),
        ),
        result matches Ok(statement) ==> statement_ranges_exact(old(state).source(), statement@),
{
    let name_start = state.tokens.curr_range();
    match parse_qualified_name(state) {
        Ok(Some(name)) => Ok(Statement::Import(name)),
        Ok(None) => {
            let range = name_start | state.tokens.curr_range();
            state.report(Error::BadNameAfterImport(range));
            Err(())
        },
        Err(_) => Err(()),
    }
}

/// Reads an atom, if one starts at the cursor: a literal, an expression in
/// parentheses, or a qualified name.
fn parse_atom(state: &mut State) -> (result: Result<Option<Expr>, ()>)
    ensures
        ran(
            old(state),
            final(state),
            opt_view(result),
            grammar::atom(old(state).source(), old(state)@),
        ),
        result matches Ok(None) ==> final(state)@ == old(state)@,
        !(result matches Ok(None)) ==> final(state)@.pos > old(state)@.pos,
        result matches Ok(Some(expr)) ==> expr_ranges_exact(old(state).source(), expr@),
    decreases old(state).source().len() - old(state)@.pos, 1nat,
{
    let ghost tokens = state.source();
    let ghost at = state@.pos as int;
    let start = state.tokens.curr_range();
    if let Ok(Some(literal)) = parse_literal(state) {
        let range = start | state.tokens.prev_range();
        assert(literal_at(tokens, at, literal@, range));
        return Ok(Some(Expr::Literal(literal, range)));
    }
    if state.tokens.pop_token_eq(Token::Symbol(Symbol::OpenParen)) {
        let expr = match parse_expression(state) {
            Ok(expr) => expr,
            Err(_) => {
                return Err(());
            },
        };
        if !state.tokens.pop_token_eq(Token::Symbol(Symbol::CloseParen)) {
            let range = state.tokens.curr_range();
            state.report(Error::NoClosingParen(range));
            return Err(());
        }
        return Ok(Some(expr));
    }
    match parse_qualified_name(state) {
        Ok(Some(name)) => {
            let range = start | state.tokens.prev_range();
            assert(name_at(tokens, at, names_view(name@), range));
            Ok(Some(Expr::Var(name, range)))
        },
        Ok(None) => Ok(None),
        Err(_) => Err(()),
    }
}

/// Reads an expression: an atom, applied to the atoms that follow it if
/// there are any.
fn parse_expression(state: &mut State) -> (result: Result<Expr, ()>)
    ensures
        ran(
            old(state),
            final(state),
            ok_view(result),
            grammar::expression(old(state).source(), old(state)@),
        ),
        result is Ok ==> final(state)@.pos > old(state)@.pos,
        result matches Ok(expr) ==> expr_ranges_exact(old(state).source(), expr@),
    decreases old(state).source().len() - old(state)@.pos, 3nat,
{
    let ghost tokens = state.source();
    let first = match parse_atom(state) {
        Ok(Some(first)) => first,
        Ok(None) => {
            let range = state.tokens.curr_range();
            state.report(Error::ExpectedExpression(range));
            return Err(());
        },
        Err(_) => {
            return Err(());
        },
    };
    let ghost after_first = state@;
    let mut args: Vec<Expr> = Vec::new();
    let mut failed = false;
    assert(exprs_view(args@) =~= Seq::empty());
    loop
        invariant_except_break
            !failed,
            grammar::arguments(tokens, after_first, Seq::empty()) == grammar::arguments(
                tokens,
                state@,
                exprs_view(args@),
            ),
        invariant
            state.source() == tokens,
            state.tokens.marked() == old(state).tokens.marked(),
            tokens == old(state).source(),
            old(state)@.pos < after_first.pos <= state@.pos <= tokens.len(),
            forall|k: int| 0 <= k < args.len() ==> expr_ranges_exact(tokens, (#[trigger] args[k])@),
        ensures
            grammar::arguments(tokens, after_first, Seq::empty()) == (grammar::Arguments {
                items: exprs_view(args@),
                failed,
                state: state@,
            }),
        decreases tokens.len() - state@.pos,
    {
        let ghost shorter = exprs_view(args@);
        match parse_atom(state) {
            Ok(Some(arg)) => {
                args.push(arg);
                assert(exprs_view(args@) =~= shorter.push(arg@));
            },
            Ok(None) => {
                break ;
            },
            Err(_) => {
                failed = true;
                break ;
            },
        }
    }
    if failed {
        return Err(());
    }
    if args.len() == 0 {
        return Ok(first);
    }
    proof {
        lemma_apply_view(first, args);
    }
    Ok(Expr::Apply { func: Box::new(first), args })
}

/// Reads a block, if the cursor is at an opening brace.
fn parse_block(state: &mut State) -> (result: Result<Option<Block>, ()>)
    ensures
        ran(
            old(state),
            final(state),
            opt_block_view(result),
            grammar::block(old(state).source(), old(state)@),
        ),
        result matches Ok(None) ==> final(state)@ == old(state)@,
        !(result matches Ok(None)) ==> final(state)@.pos > old(state)@.pos,
        result matches Ok(Some(block)) ==> block_ranges_exact(
            old(state).source(),
            statements_view(block@),
        ),
    decreases old(state).source().len() - old(state)@.pos, 0nat,
{
    let ghost tokens = state.source();
    if !state.tokens.pop_token_eq(Token::Symbol(Symbol::OpenCurly)) {
        return Ok(None);
    }
    let outer_indent = state.tokens.indent();
    if !state.tokens.pop_indent_in() {
        let range = state.tokens.curr_range();
        state.report(Error::NoIndentAfterOpenCurly(range));
        return Err(());
    }
    let inner_indent = state.tokens.indent();
    let ghost inside = state@;
    let mut statements: Vec<Statement> = Vec::new();
    let mut failed = false;
    assert(statements_view(statements@) =~= Seq::empty());
    loop
        invariant_except_break
            !failed,
            grammar::block_body(tokens, inside, outer_indent, inner_indent, Seq::empty())
                == grammar::block_body(
                tokens,
                state@,
                outer_indent,
                inner_indent,
                statements_view(statements@),
            ),
        invariant
            state.source() == tokens,
            state.tokens.marked() == old(state).tokens.marked(),
            tokens == old(state).source(),
            old(state)@.pos < inside.pos <= state@.pos <= tokens.len(),
            block_ranges_exact(tokens, statements_view(statements@)),
        ensures
            grammar::block_body(tokens, inside, outer_indent, inner_indent, Seq::empty())
                == (grammar::Body { items: statements_view(statements@), failed, state: state@ }),
        decreases tokens.len() - state@.pos,
    {
        if state.tokens.pop_indent_same(outer_indent) {
            break ;
        }
        let ghost shorter = statements_view(statements@);
        match parse_statement(state) {
            Ok(statement) => {
                state.tokens.pop_indent_same(inner_indent);
                statements.push(statement);
                assert(statements_view(statements@) =~= shorter.push(statement@));
            },
            Err(_) => {
                failed = true;
                break ;
            },
        }
    }
    if failed {
        return Err(());
    }
    if !state.tokens.pop_token_eq(Token::Symbol(Symbol::CloseCurly)) {
        let range = state.tokens.curr_range();
        state.report(Error::NoClosingCurly(range));
        return Err(());
    }
    Ok(Some(statements))
}

/// Reads the block that a `do` asks for.
fn parse_block_after_do(state: &mut State) -> (result: Result<Block, ()>)
    ensures
        final(state).follows(old(state)),
        final(state)@ == grammar::block_after_do(
            old(state).source(),
            grammar::block(old(state).source(), old(state)@),
        ).state,
        match result {
            Ok(block) => grammar::block_after_do(
                old(state).source(),
                grammar::block(old(state).source(), old(state)@),
            ).value == Ok::<Seq<StatementView>, ()>(statements_view(block@))
                && block_ranges_exact(old(state).source(), statements_view(block@))
                && final(state)@.pos > old(state)@.pos,
            Err(_) => grammar::block_after_do(
                old(state).source(),
                grammar::block(old(state).source(), old(state)@),
            ).value is Err,
        },
    decreases old(state).source().len() - old(state)@.pos, 1nat,
{
    match parse_block(state) {
        Ok(Some(block)) => Ok(block),
        Ok(None) => {
            let range = state.tokens.curr_range();
            state.report(Error::NoBlockAfterDo(range));
            Err(())
        },
        Err(_) => Err(()),
    }
}

/// Reads an `if` statement, if the cursor is at the keyword.
fn parse_if(state: &mut State) -> (result: Result<Option<Statement>, ()>)
    ensures
        ran(
            old(state),
            final(state),
            opt_view(result),
            grammar::if_statement(old(state).source(), old(state)@),
        ),
        result matches Ok(None) ==> final(state)@ == old(state)@,
        !(result matches Ok(None)) ==> final(state)@.pos > old(state)@.pos,
        result matches Ok(Some(statement)) ==> statement_ranges_exact(
            old(state).source(),
            statement@,
        ),
    decreases old(state).source().len() - old(state)@.pos, 4nat,
{
    let ghost tokens = state.source();
    if !state.tokens.pop_token_eq(Token::Keyword(Keyword::If)) {
        return Ok(None);
    }
    let condition = match parse_expression(state) {
        Ok(condition) => condition,
        Err(_) => {
            return Err(());
        },
    };
    let range_after_expr = state.tokens.curr_range();
    let ghost after_condition = state@;
    let ends_condition = |token: &Token| -> (accepted: bool)
        ensures
            accepted == grammar::ends_condition(token@),
        {
            let opens_block = *token == Token::Symbol(Symbol::OpenCurly);
            opens_block || *token == Token::Keyword(Keyword::Do)
        };
    let skipped = skip_until_pred(state, ends_condition);
    proof {
        assert forall|i: int| after_condition.pos <= i < state@.pos implies !grammar::ends_condition(
            #[trigger] tokens[i].0,
        ) by {
            assert(answers(ends_condition, tokens[i].0, false));
        }
        lemma_condition_end(tokens, after_condition.pos, state@.pos);
    }
    if !state.tokens.pop_token_eq(Token::Keyword(Keyword::Do)) {
        let range = range_after_expr | state.tokens.curr_range();
        state.report(Error::NoDoAfterIf(range));
        return Err(());
    }
    if skipped {
        let range = range_after_expr | state.tokens.curr_range();
        state.report(Error::IfConditionDidNotEnd(range));
        return Err(());
    }
    let block = match parse_block_after_do(state) {
        Ok(block) => block,
        Err(_) => {
            return Err(());
        },
    };
    proof {
        lemma_if_parts(condition, block, None);
    }
    Ok(Some(Statement::If(condition, block, None)))
}

/// Reads what follows the keyword `for`.
fn parse_for(state: &mut State) -> (result: Result<Statement, ()>)
    ensures
        ran(
            old(state),
            final(state),
            ok_view(result),
            grammar::for_loop(old(state).source(), old(state)@),
        ),
        result matches Ok(statement) ==> statement_ranges_exact(old(state).source(), statement@),
    decreases old(state).source().len() - old(state)@.pos, 0nat,
{
    let name_start_range = state.tokens.curr_range();
    let name = state.tokens.pop_token_ident();
    skip_until(state, Token::Keyword(Keyword::In));
    let name_end_range = state.tokens.prev_range();
    if !state.tokens.pop_token_eq(Token::Keyword(Keyword::In)) {
        return Err(());
    }
    let Some(name) = name else {
        state.report(Error::NoNameAfterFor(name_start_range | name_end_range));
        return Err(());
    };
    let start_expr = match parse_expression(state) {
        Ok(expr) => expr,
        Err(_) => {
            return Err(());
        },
    };
    if !state.tokens.pop_token_eq(Token::Symbol(Symbol::DotDot)) {
        return Err(());
    }
    let end_expr = match parse_expression(state) {
        Ok(expr) => expr,
        Err(_) => {
            return Err(());
        },
    };
    if !state.tokens.pop_token_eq(Token::Keyword(Keyword::Do)) {
        return Err(());
    }
    // The brace may stand at the start of the next line.
    let indent = state.tokens.indent();
    state.tokens.pop_indent_same(indent);
    let body = match parse_block_after_do(state) {
        Ok(body) => body,
        Err(_) => {
            return Err(());
        },
    };
    let name = Name::from_str(name);
    proof {
        lemma_for_view(name, start_expr, end_expr, body);
    }
    Ok(Statement::For(name, start_expr, end_expr, body))
}

/// Reads one statement.
fn parse_statement(state: &mut State) -> (result: Result<Statement, ()>)
    ensures
        ran(
            old(state),
            final(state),
            ok_view(result),
            grammar::statement(old(state).source(), old(state)@),
        ),
        result is Ok ==> final(state)@.pos > old(state)@.pos,
        result matches Ok(statement) ==> statement_ranges_exact(old(state).source(), statement@),
    decreases old(state).source().len() - old(state)@.pos, 5nat,
{
    if state.tokens.pop_token_eq(Token::Keyword(Keyword::Import)) {
        return parse_import(state);
    }
    if state.tokens.pop_token_eq(Token::Keyword(Keyword::For)) {
        return parse_for(state);
    }
    match parse_if(state) {
        Ok(Some(statement)) => {
            return Ok(statement);
        },
        Ok(None) => {},
        Err(_) => {
            return Err(());
        },
    }
    let expr = match parse_expression(state) {
        Ok(expr) => expr,
        Err(_) => {
            return Err(());
        },
    };
    if !state.tokens.pop_token_eq(Token::Symbol(Symbol::Colon)) {
        return Ok(Statement::Expr(expr));
    }
    let type_ = match parse_type_expr(state) {
        Ok(Some(type_)) => type_,
        _ => {
            let range = state.tokens.curr_range();
            state.report(Error::NoTypeExpressionAfterColonInVariableDeclaration(range));
            return Err(());
        },
    };
    if !state.tokens.pop_token_eq(Token::Symbol(Symbol::Equal)) {
        let range = state.tokens.curr_range();
        state.report(Error::NoEqualsInVariableDeclaration(range));
        return Err(());
    }
    let rhs = match parse_expression(state) {
        Ok(rhs) => rhs,
        Err(_) => {
            return Err(());
        },
    };
    match expr {
        Expr::Var(name, _) => Ok(Statement::VarDecl(name[0].clone(), type_, rhs)),
        other => {
            state.report(Error::CouldNotAssignTo(other));
            Err(())
        },
    }
}

/// Reads statements up to the end of the tokens. A statement that is
/// abandoned is left out, and reading resumes after the next line break
/// with indentation 0 outside every brace and parenthesis.
fn parse_program(state: &mut State) -> (program: Program)
    ensures
        final(state).source() == old(state).source(),
        grammar::program(old(state).source(), old(state)@, Seq::empty()) == (grammar::Statements {
            items: program@,
            state: final(state)@,
        }),
        block_ranges_exact(old(state).source(), program@),
{
    let ghost tokens = state.source();
    let ghost start = state@;
    let mut statements: Vec<Statement> = Vec::new();
    assert(statements_view(statements@) =~= Seq::empty());
    loop
        invariant_except_break
            grammar::program(tokens, start, Seq::empty()) == grammar::program(
                tokens,
                state@,
                statements_view(statements@),
            ),
        invariant
            state.source() == tokens,
            tokens == old(state).source(),
            start == old(state)@,
            start.pos <= state@.pos,
            block_ranges_exact(tokens, statements_view(statements@)),
        ensures
            state@.pos <= tokens.len(),
            grammar::program(tokens, start, Seq::empty()) == (grammar::Statements {
                items: statements_view(statements@),
                state: state@,
            }),
        decreases tokens.len() - state@.pos,
    {
        skip_newlines(state);
        if state.tokens.current().is_none() {
            break ;
        }
        let ghost shorter = statements_view(statements@);
        state.tokens.mark();
        match parse_statement(state) {
            Ok(statement) => {
                statements.push(statement);
                assert(statements_view(statements@) =~= shorter.push(statement@));
            },
            Err(_) => {
                skip_until_top_level_newline(state);
            },
        }
    }
    Program { statements }
}

/// The view of the result of a parse.
pub open spec fn parse_view(result: Result<Program, Vec<Error>>) -> Result<
    Seq<StatementView>,
    Seq<ErrorView>,
> {
    match result {
        Ok(program) => Ok(program@),
        Err(errors) => Err(errors_view(errors@)),
    }
}

/// Parses a whole token sequence and returns all that was found: the
/// statements that could be read, and the diagnostics in the order in which
/// they were found.
///
/// A malformed statement does not end the parse: it is left out of the
/// program with one diagnostic, and the statements after it are still
/// read. Only a `for` statement that lacks its `in`, `..` or `do` is left
/// out without a diagnostic.
pub fn parse_recovering(tokens: Vec<LToken>) -> (found: (Program, Vec<Error>))
    ensures
        found.0@ == grammar::program(
            token_views(tokens@),
            ParseState::start(),
            Seq::empty(),
        ).items,
        errors_view(found.1@) == grammar::program(
            token_views(tokens@),
            ParseState::start(),
            Seq::empty(),
        ).state.errors,
        block_ranges_exact(token_views(tokens@), found.0@),
{
    let mut state = State { tokens: TokenReader::new(tokens), errors: Vec::new() };
    assert(state@.errors =~= Seq::empty());
    let program = parse_program(&mut state);
    (program, state.errors)
}

/// Parses a whole token sequence.
///
/// The result is the one that the grammar gives: the program, if nothing at
/// all was reported while the tokens were read, and else every diagnostic,
/// in the order in which they were found. So an `Err` is never empty, and an
/// `Ok` never hides a diagnostic. In a program that is returned, every
/// literal and variable carries exactly the range of its tokens.
pub fn parse(tokens: Vec<LToken>) -> (result: Result<Program, Vec<Error>>)
    ensures
        parse_view(result) == grammar::parse(token_views(tokens@)),
        result is Err <==> grammar::program(
            token_views(tokens@),
            ParseState::start(),
            Seq::empty(),
        ).state.errors.len() > 0,
        result matches Err(errors) ==> errors.len() > 0,
        result matches Ok(program) ==> block_ranges_exact(token_views(tokens@), program@),
{
    let (program, errors) = parse_recovering(tokens);
    if errors.len() > 0 {
        return Err(errors);
    }
    Ok(program)
}

} // verus!

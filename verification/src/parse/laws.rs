//! What holds of the grammar at every state.
//!
//! Every rule leaves the state within the tokens and never before where it
//! found it; it keeps the diagnostics that were there and adds at most one
//! at the end. A rule that yields a value has consumed a token and added no
//! diagnostic, and the ranges in what it yields are exact. A rule that is
//! abandoned has added its one diagnostic, unless a `for` statement was
//! abandoned for want of its `in`, `..` or `do`. The lemmas go by induction
//! along the rules, each with the rules it uses.

use crate::ast::{ExprView, StatementView};
use crate::parse::grammar::{
    arguments, atom, block, block_after_do, block_body, block_ranges_exact, condition_end,
    expr_ranges_exact, expression, find, for_loop, if_statement, import, lemma_searches_stop,
    literal, literal_at, name_at, name_segments, parse, program, qualified_name, resume_point,
    spells_name, statement, statement_ranges_exact, statement_start, type_expr, ParseState,
    Step,
};
use crate::parse::token_reader::{
    indent_at, is_at, open_between, range_at, range_before, token_at, Open,
};
use crate::parse::ErrorView;
use crate::range::Range;
use crate::token::{Keyword, Symbol, TokenView, Tokens};
use vstd::prelude::*;

verus! {

impl ParseState {
    /// Whether `self` can come after `from` in a parse of `tokens`: it
    /// lies within the tokens, not before `from`, and its diagnostics are
    /// those of `from`, followed by what was found since.
    pub open spec fn continues(self, from: ParseState, tokens: Tokens) -> bool {
        &&& from.pos <= self.pos <= tokens.len()
        &&& from.errors.len() <= self.errors.len()
        &&& self.errors.subrange(0, from.errors.len() as int) == from.errors
    }
}

/// Continuing is reflexive and transitive; moving forward within the
/// tokens and reporting a diagnostic both continue a state.
pub proof fn lemma_continuing(tokens: Tokens)
    ensures
        forall|a: ParseState| a.pos <= tokens.len() ==> #[trigger] a.continues(a, tokens),
        forall|a: ParseState, b: ParseState, c: ParseState|
            #[trigger] b.continues(a, tokens) && #[trigger] c.continues(b, tokens)
                ==> c.continues(a, tokens),
        forall|a: ParseState, pos: nat|
            a.pos <= pos <= tokens.len() ==> (#[trigger] a.at(pos)).continues(a, tokens),
        forall|a: ParseState, error: ErrorView|
            a.pos <= tokens.len() ==> (#[trigger] a.report(error)).continues(a, tokens),
{
    assert forall|a: ParseState| a.pos <= tokens.len() implies #[trigger] a.continues(
        a,
        tokens,
    ) by {
        assert(a.errors.subrange(0, a.errors.len() as int) =~= a.errors);
    }
    assert forall|a: ParseState, b: ParseState, c: ParseState|
        #[trigger] b.continues(a, tokens) && #[trigger] c.continues(b, tokens) implies c.continues(
        a,
        tokens,
    ) by {
        assert(c.errors.subrange(0, a.errors.len() as int) =~= b.errors.subrange(
            0,
            a.errors.len() as int,
        ));
    }
    assert forall|a: ParseState, pos: nat| a.pos <= pos <= tokens.len() implies (#[trigger] a.at(
        pos,
    )).continues(a, tokens) by {
        assert(a.errors.subrange(0, a.errors.len() as int) =~= a.errors);
    }
    assert forall|a: ParseState, error: ErrorView| a.pos <= tokens.len() implies (
    #[trigger] a.report(error)).continues(a, tokens) by {
        assert(a.report(error).errors.subrange(0, a.errors.len() as int) =~= a.errors);
    }
}

/// Whether no `for` stands at or after position `from`.
pub open spec fn no_for(tokens: Tokens, from: nat) -> bool {
    forall|i: int| from <= i < tokens.len() ==> (#[trigger] tokens[i]).0 != TokenView::Keyword(
        Keyword::For,
    )
}

/// Whether `after` holds exactly one diagnostic more than `state`.
pub open spec fn adds_one(state: ParseState, after: ParseState) -> bool {
    after.errors.len() == state.errors.len() + 1
}

/// Whether `step` is a sound outcome of a rule that may find nothing at
/// `state`: the state goes on; it is as it was where nothing was found, and
/// has moved where something was found or begun; a value comes without a
/// diagnostic, and abandonment with at most one.
pub open spec fn steps_optional<T>(tokens: Tokens, state: ParseState, step: Step<Option<T>>) -> bool {
    &&& step.state.continues(state, tokens)
    &&& step.value == Ok::<Option<T>, ()>(None) ==> step.state == state
    &&& step.value != Ok::<Option<T>, ()>(None) ==> step.state.pos > state.pos
    &&& step.value is Ok ==> step.state.errors == state.errors
    &&& step.state.errors.len() <= state.errors.len() + 1
}

/// Whether `step` is a sound outcome of a rule at `state`: the state goes
/// on; a value comes with a token consumed and without a diagnostic, and
/// abandonment with at most one diagnostic.
pub open spec fn steps<T>(tokens: Tokens, state: ParseState, step: Step<T>) -> bool {
    &&& step.state.continues(state, tokens)
    &&& step.value is Ok ==> step.state.pos > state.pos && step.state.errors == state.errors
    &&& step.state.errors.len() <= state.errors.len() + 1
}

/// The segments of a qualified name: the state goes on, and what is
/// yielded are the segments so far followed by those that the tokens spell.
pub proof fn lemma_name_segments(
    tokens: Tokens,
    start: int,
    state: ParseState,
    segments: Seq<Seq<char>>,
)
    requires
        spells_name(tokens, start, segments),
        state.pos == start + 2 * segments.len() - 1,
    ensures
        ({
            let step = name_segments(tokens, state, segments);
            &&& step.state.continues(state, tokens)
            &&& step.value matches Ok(found) ==> found matches Some(name) && spells_name(
                tokens,
                start,
                name,
            ) && step.state.pos == start + 2 * name.len() - 1 && step.state.errors
                == state.errors
            &&& step.value is Err ==> step.state.pos > state.pos && adds_one(state, step.state)
        }),
    decreases tokens.len() - state.pos,
{
    lemma_continuing(tokens);
    if is_at(tokens, state.pos, TokenView::Symbol(Symbol::DoubleColon)) {
        match token_at(tokens, state.pos + 1) {
            Some(TokenView::Identifier(segment)) => {
                let longer = segments.push(segment);
                let next = state.at(state.pos + 2);
                assert(spells_name(tokens, start, longer));
                lemma_name_segments(tokens, start, next, longer);
                assert(next.continues(state, tokens));
            },
            _ => {
                assert(state.next().continues(state, tokens));
            },
        }
    }
}

/// A qualified name: a name that is yielded is spelled by the tokens from
/// where the state was up to where it is.
pub proof fn lemma_qualified_name(tokens: Tokens, state: ParseState)
    requires
        state.pos <= tokens.len(),
    ensures
        steps_optional(tokens, state, qualified_name(tokens, state)),
        qualified_name(tokens, state).value matches Ok(Some(name)) ==> spells_name(
            tokens,
            state.pos as int,
            name,
        ) && qualified_name(tokens, state).state.pos == state.pos + 2 * name.len() - 1,
        qualified_name(tokens, state).value is Err ==> adds_one(
            state,
            qualified_name(tokens, state).state,
        ),
{
    lemma_continuing(tokens);
    match token_at(tokens, state.pos) {
        Some(TokenView::Identifier(first)) => {
            assert(spells_name(tokens, state.pos as int, seq![first]));
            lemma_name_segments(tokens, state.pos as int, state.next(), seq![first]);
            assert(state.next().continues(state, tokens));
        },
        _ => {},
    }
}

/// An atom: what is yielded has exact ranges, and an atom that is
/// abandoned has reported why.
pub proof fn lemma_atom(tokens: Tokens, state: ParseState)
    requires
        state.pos <= tokens.len(),
    ensures
        steps_optional(tokens, state, atom(tokens, state)),
        atom(tokens, state).value matches Ok(Some(expr)) ==> expr_ranges_exact(tokens, expr),
        atom(tokens, state).value is Err ==> adds_one(state, atom(tokens, state).state),
    decreases tokens.len() - state.pos, 1nat,
{
    lemma_continuing(tokens);
    let start = range_at(tokens, state.pos);
    let constant = literal(tokens, state);
    if let Ok(Some(value)) = constant.value {
        assert(constant.state.continues(state, tokens));
        assert(literal_at(
            tokens,
            state.pos as int,
            value,
            start.merge(range_before(tokens, constant.state.pos)),
        ));
    } else if is_at(tokens, state.pos, TokenView::Symbol(Symbol::OpenParen)) {
        assert(state.next().continues(state, tokens));
        lemma_expression(tokens, state.next());
        let inner = expression(tokens, state.next());
        assert(inner.state.next().continues(inner.state, tokens) || inner.state.pos
            >= tokens.len());
    } else {
        lemma_qualified_name(tokens, state);
        let name = qualified_name(tokens, state);
        if let Ok(Some(segments)) = name.value {
            assert(name_at(
                tokens,
                state.pos as int,
                segments,
                start.merge(range_before(tokens, name.state.pos)),
            ));
        }
    }
}

/// Whether every one of `items` has exact ranges.
pub open spec fn all_exact(tokens: Tokens, items: Seq<ExprView>) -> bool {
    forall|k: int| 0 <= k < items.len() ==> expr_ranges_exact(tokens, #[trigger] items[k])
}

/// The arguments of an application: those that are yielded have exact
/// ranges, and a list that fails has reported why.
pub proof fn lemma_arguments(tokens: Tokens, state: ParseState, items: Seq<ExprView>)
    requires
        state.pos <= tokens.len(),
        all_exact(tokens, items),
    ensures
        ({
            let rest = arguments(tokens, state, items);
            &&& rest.state.continues(state, tokens)
            &&& all_exact(tokens, rest.items)
            &&& rest.items.len() >= items.len()
            &&& !rest.failed ==> rest.state.errors == state.errors
            &&& rest.failed ==> adds_one(state, rest.state)
        }),
    decreases tokens.len() - state.pos, 2nat,
{
    lemma_continuing(tokens);
    lemma_atom(tokens, state);
    let next = atom(tokens, state);
    match next.value {
        Ok(Some(item)) => {
            assert(all_exact(tokens, items.push(item)));
            lemma_arguments(tokens, next.state, items.push(item));
        },
        _ => {},
    }
}

/// An expression: what is yielded has exact ranges, and an expression
/// that is abandoned has reported why.
pub proof fn lemma_expression(tokens: Tokens, state: ParseState)
    requires
        state.pos <= tokens.len(),
    ensures
        steps(tokens, state, expression(tokens, state)),
        expression(tokens, state).value matches Ok(expr) ==> expr_ranges_exact(tokens, expr),
        expression(tokens, state).value is Err ==> adds_one(
            state,
            expression(tokens, state).state,
        ),
    decreases tokens.len() - state.pos, 3nat,
{
    lemma_continuing(tokens);
    lemma_atom(tokens, state);
    let first = atom(tokens, state);
    match first.value {
        Ok(Some(func)) => {
            lemma_arguments(tokens, first.state, Seq::empty());
        },
        _ => {},
    }
}

/// An import: it yields a value only after a name, and where it is
/// abandoned it has reported why.
pub proof fn lemma_import(tokens: Tokens, state: ParseState)
    requires
        state.pos <= tokens.len(),
    ensures
        steps(tokens, state, import(tokens, state)),
        import(tokens, state).value matches Ok(found) ==> statement_ranges_exact(tokens, found),
        import(tokens, state).value is Err ==> adds_one(state, import(tokens, state).state),
{
    lemma_continuing(tokens);
    lemma_qualified_name(tokens, state);
}

/// Resuming after an abandoned statement goes forward within the tokens,
/// and past at least one token if there is one.
pub proof fn lemma_resume_point(tokens: Tokens, pos: nat, open: Open)
    requires
        pos <= tokens.len(),
    ensures
        pos <= resume_point(tokens, pos, open) <= tokens.len(),
        pos < tokens.len() ==> pos < resume_point(tokens, pos, open),
    decreases tokens.len() - pos,
{
    if pos < tokens.len() {
        lemma_resume_point(tokens, pos + 1, open.after(tokens[pos as int].0));
    }
}

/// The statements of a block: those that are yielded have exact ranges; a
/// block that fails has added at most one diagnostic, and one that does
/// not has added none and consumed a token.
pub proof fn lemma_block_body(
    tokens: Tokens,
    state: ParseState,
    outer: usize,
    inner: usize,
    items: Seq<StatementView>,
)
    requires
        state.pos <= tokens.len(),
        block_ranges_exact(tokens, items),
    ensures
        ({
            let body = block_body(tokens, state, outer, inner, items);
            &&& body.state.continues(state, tokens)
            &&& block_ranges_exact(tokens, body.items)
            &&& !body.failed ==> body.state.pos > state.pos && body.state.errors
                == state.errors
            &&& body.state.errors.len() <= state.errors.len() + 1
            &&& body.failed && no_for(tokens, state.pos) ==> adds_one(state, body.state)
        }),
    decreases tokens.len() - state.pos, 6nat,
{
    lemma_continuing(tokens);
    if is_at(tokens, state.pos, TokenView::NewLine { indent: outer }) {
        assert(state.next().continues(state, tokens));
    } else {
        lemma_statement(tokens, state);
        let first = statement(tokens, state);
        if let Ok(item) = first.value {
            let after = if is_at(tokens, first.state.pos, TokenView::NewLine { indent: inner }) {
                first.state.next()
            } else {
                first.state
            };
            assert(after.continues(first.state, tokens));
            assert(block_ranges_exact(tokens, items.push(item)));
            lemma_block_body(tokens, after, outer, inner, items.push(item));
        }
    }
}

/// A block: the statements that are yielded have exact ranges.
pub proof fn lemma_block(tokens: Tokens, state: ParseState)
    requires
        state.pos <= tokens.len(),
    ensures
        steps_optional(tokens, state, block(tokens, state)),
        block(tokens, state).value matches Ok(Some(statements)) ==> block_ranges_exact(
            tokens,
            statements,
        ),
        block(tokens, state).value is Err && no_for(tokens, state.pos) ==> adds_one(
            state,
            block(tokens, state).state,
        ),
    decreases tokens.len() - state.pos, 0nat,
{
    lemma_continuing(tokens);
    if is_at(tokens, state.pos, TokenView::Symbol(Symbol::OpenCurly)) {
        assert(state.next().continues(state, tokens));
        match token_at(tokens, state.pos + 1) {
            Some(TokenView::NewLine { indent: inner }) => {
                let outer = indent_at(tokens, state.pos + 1);
                if inner > outer {
                    let inside = state.at(state.pos + 2);
                    assert(inside.continues(state, tokens));
                    assert(block_ranges_exact(tokens, Seq::empty()));
                    lemma_block_body(tokens, inside, outer, inner, Seq::empty());
                    let body = block_body(tokens, inside, outer, inner, Seq::empty());
                    assert(body.state.next().continues(body.state, tokens) || body.state.pos
                        >= tokens.len());
                }
            },
            _ => {},
        }
    }
}

/// The block after a `do`: as a block, but that none starts is reported.
pub proof fn lemma_block_after_do(tokens: Tokens, state: ParseState)
    requires
        state.pos <= tokens.len(),
    ensures
        steps(tokens, state, block_after_do(tokens, block(tokens, state))),
        block_after_do(tokens, block(tokens, state)).value matches Ok(statements)
            ==> block_ranges_exact(tokens, statements),
        block_after_do(tokens, block(tokens, state)).value is Err && no_for(tokens, state.pos)
            ==> adds_one(state, block_after_do(tokens, block(tokens, state)).state),
    decreases tokens.len() - state.pos, 1nat,
{
    lemma_continuing(tokens);
    lemma_block(tokens, state);
}

/// An `if` statement: what is yielded has exact ranges.
pub proof fn lemma_if_statement(tokens: Tokens, state: ParseState)
    requires
        state.pos <= tokens.len(),
    ensures
        steps_optional(tokens, state, if_statement(tokens, state)),
        if_statement(tokens, state).value matches Ok(Some(found)) ==> statement_ranges_exact(
            tokens,
            found,
        ),
        if_statement(tokens, state).value is Err && no_for(tokens, state.pos) ==> adds_one(
            state,
            if_statement(tokens, state).state,
        ),
    decreases tokens.len() - state.pos, 4nat,
{
    lemma_continuing(tokens);
    if is_at(tokens, state.pos, TokenView::Keyword(Keyword::If)) {
        assert(state.next().continues(state, tokens));
        lemma_expression(tokens, state.next());
        let condition = expression(tokens, state.next());
        lemma_searches_stop(tokens, condition.state.pos, TokenView::Keyword(Keyword::Do));
        let stop = condition.state.at(condition_end(tokens, condition.state.pos));
        assert(stop.continues(condition.state, tokens));
        if condition.value is Ok && is_at(tokens, stop.pos, TokenView::Keyword(Keyword::Do)) {
            assert(stop.next().continues(stop, tokens));
            if stop.pos == condition.state.pos {
                lemma_block_after_do(tokens, stop.next());
            }
        }
    }
}

/// A `for` statement: what is yielded has exact ranges.
pub proof fn lemma_for_loop(tokens: Tokens, state: ParseState)
    requires
        state.pos <= tokens.len(),
    ensures
        steps(tokens, state, for_loop(tokens, state)),
        for_loop(tokens, state).value matches Ok(found) ==> statement_ranges_exact(tokens, found),
    decreases tokens.len() - state.pos, 0nat,
{
    lemma_continuing(tokens);
    let after_name = if token_at(tokens, state.pos) matches Some(TokenView::Identifier(_)) {
        state.next()
    } else {
        state
    };
    assert(after_name.continues(state, tokens));
    lemma_searches_stop(tokens, after_name.pos, TokenView::Keyword(Keyword::In));
    let at_in = state.at(find(tokens, after_name.pos, TokenView::Keyword(Keyword::In)));
    assert(at_in.continues(state, tokens));
    if is_at(tokens, at_in.pos, TokenView::Keyword(Keyword::In)) {
        assert(at_in.next().continues(at_in, tokens));
        lemma_expression(tokens, at_in.next());
        let start = expression(tokens, at_in.next());
        if start.value is Ok && is_at(tokens, start.state.pos, TokenView::Symbol(Symbol::DotDot)) {
            assert(start.state.next().continues(start.state, tokens));
            lemma_expression(tokens, start.state.next());
            let end = expression(tokens, start.state.next());
            if end.value is Ok && is_at(tokens, end.state.pos, TokenView::Keyword(Keyword::Do)) {
                let after_do = end.state.next();
                assert(after_do.continues(end.state, tokens));
                let at_block = if is_at(
                    tokens,
                    after_do.pos,
                    TokenView::NewLine { indent: indent_at(tokens, after_do.pos) },
                ) {
                    after_do.next()
                } else {
                    after_do
                };
                assert(at_block.continues(after_do, tokens));
                lemma_block_after_do(tokens, at_block);
            }
        }
    }
}

/// A statement adds at most one diagnostic, and none where it yields a
/// value. What it yields has exact ranges, and it has consumed a token
/// then. Where no `for` stands at or after its start, a statement that is
/// abandoned has added its one diagnostic.
pub proof fn lemma_statement(tokens: Tokens, state: ParseState)
    requires
        state.pos <= tokens.len(),
    ensures
        steps(tokens, state, statement(tokens, state)),
        statement(tokens, state).value matches Ok(found) ==> statement_ranges_exact(
            tokens,
            found,
        ),
        statement(tokens, state).value is Err && no_for(tokens, state.pos) ==> adds_one(
            state,
            statement(tokens, state).state,
        ),
    decreases tokens.len() - state.pos, 5nat,
{
    lemma_continuing(tokens);
    if is_at(tokens, state.pos, TokenView::Keyword(Keyword::Import)) {
        assert(state.next().continues(state, tokens));
        lemma_import(tokens, state.next());
    } else if is_at(tokens, state.pos, TokenView::Keyword(Keyword::For)) {
        assert(state.next().continues(state, tokens));
        lemma_for_loop(tokens, state.next());
    } else {
        lemma_if_statement(tokens, state);
        let conditional = if_statement(tokens, state);
        if conditional.value == Ok::<Option<StatementView>, ()>(None) {
            lemma_expression(tokens, state);
            let target = expression(tokens, state);
            if target.value is Ok && is_at(
                tokens,
                target.state.pos,
                TokenView::Symbol(Symbol::Colon),
            ) {
                let after_colon = target.state.next();
                assert(after_colon.continues(target.state, tokens));
                let type_ = type_expr(tokens, after_colon);
                assert(type_.state.continues(after_colon, tokens));
                if type_.value matches Ok(Some(_)) && is_at(
                    tokens,
                    type_.state.pos,
                    TokenView::Symbol(Symbol::Equal),
                ) {
                    assert(type_.state.next().continues(type_.state, tokens));
                    lemma_expression(tokens, type_.state.next());
                }
            }
        }
    }
}

/// A program: parsing ends at the end of the tokens, and every statement
/// that is yielded has exact ranges.
pub proof fn lemma_program(tokens: Tokens, state: ParseState, items: Seq<StatementView>)
    requires
        state.pos <= tokens.len(),
        block_ranges_exact(tokens, items),
    ensures
        ({
            let end = program(tokens, state, items);
            &&& end.state.continues(state, tokens)
            &&& end.state.pos == tokens.len()
            &&& block_ranges_exact(tokens, end.items)
        }),
    decreases tokens.len() - state.pos,
{
    lemma_continuing(tokens);
    lemma_searches_stop(tokens, state.pos, TokenView::Keyword(Keyword::Do));
    let begin = state.at(statement_start(tokens, state.pos));
    assert(begin.continues(state, tokens));
    if begin.pos < tokens.len() {
        lemma_statement(tokens, begin);
        let first = statement(tokens, begin);
        let open = open_between(tokens, begin.pos, first.state.pos);
        lemma_resume_point(tokens, first.state.pos, open);
        let resumed = match first.value {
            Ok(_) => first.state,
            Err(_) => first.state.at(resume_point(tokens, first.state.pos, open)),
        };
        assert(resumed.continues(first.state, tokens));
        assert(resumed.moved_from(state, tokens));
        match first.value {
            Ok(item) => {
                assert(block_ranges_exact(tokens, items.push(item)));
                lemma_program(tokens, resumed, items.push(item));
            },
            Err(_) => {
                lemma_program(tokens, resumed, items);
            },
        }
    }
}

/// In a program that parsing returns, every literal and every variable
/// carries exactly the range of the tokens it was made of.
pub proof fn lemma_parsed_ranges_are_exact(tokens: Tokens)
    ensures
        parse(tokens) matches Ok(statements) ==> block_ranges_exact(tokens, statements),
{
    assert(block_ranges_exact(tokens, Seq::empty()));
    lemma_program(tokens, ParseState::start(), Seq::empty());
}

/// Whether the ranges of the tokens stand in source order: a later token
/// neither starts nor ends before an earlier one.
pub open spec fn in_source_order(tokens: Tokens) -> bool {
    forall|i: int, j: int|
        0 <= i <= j < tokens.len() ==> (#[trigger] tokens[i]).1.0 <= (#[trigger] tokens[j]).1.0
            && tokens[i].1.1 <= tokens[j].1.1
}

/// Where the tokens stand in source order, the range of a literal or a
/// variable that an atom yields starts where the first token that the atom
/// consumed starts, and ends where the last one ends. An atom in
/// parentheses is left out: it consumes the parentheses, and yields what
/// stands between them.
pub proof fn lemma_atom_range(tokens: Tokens, state: ParseState)
    requires
        state.pos <= tokens.len(),
        in_source_order(tokens),
        !is_at(tokens, state.pos, TokenView::Symbol(Symbol::OpenParen)),
    ensures
        ({
            let step = atom(tokens, state);
            let whole = Range(tokens[state.pos as int].1.0, tokens[step.state.pos - 1].1.1);
            &&& step.value matches Ok(Some(ExprView::Literal(_, range))) ==> range == whole
            &&& step.value matches Ok(Some(ExprView::Var(_, range))) ==> range == whole
        }),
{
    lemma_atom(tokens, state);
    lemma_qualified_name(tokens, state);
    let step = atom(tokens, state);
    if step.value is Ok && step.state.pos > state.pos {
        let first = tokens[state.pos as int];
        let last = tokens[step.state.pos - 1];
        assert(first.1.0 <= last.1.0 && first.1.1 <= last.1.1);
    }
}

/// A parse fails exactly when something was reported: a program is never
/// returned with a diagnostic pending, and the list of diagnostics that is
/// returned is never empty.
pub proof fn lemma_parse_fails_iff_reported(tokens: Tokens)
    ensures
        parse(tokens) is Err <==> program(tokens, ParseState::start(), Seq::empty()).state.errors.len()
            > 0,
        parse(tokens) matches Err(errors) ==> errors.len() > 0 && errors == program(
            tokens,
            ParseState::start(),
            Seq::empty(),
        ).state.errors,
        parse(tokens) matches Ok(statements) ==> statements == program(
            tokens,
            ParseState::start(),
            Seq::empty(),
        ).items,
{
}

} // verus!

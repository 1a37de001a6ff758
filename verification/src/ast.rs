//! The syntax tree that parsing produces, and its mathematical view.
//!
//! Every tree type has a view in which texts are sequences of characters and
//! lists are sequences; contracts speak of the views.

use crate::name::{names_view, Name};
use crate::range::Range;
use vstd::prelude::*;

verus! {

/// One or more names separated by `::` in the source.
pub type QualifiedName = Vec<Name>;

/// The statements between the braces of a block.
pub type Block = Vec<Statement>;

#[derive(Debug, PartialEq, Eq)]
pub enum Literal {
    Str(Name),
    I32(i32),
}

pub enum LiteralView {
    Str(Seq<char>),
    I32(i32),
}

#[derive(Debug, PartialEq, Eq)]
pub enum TypeExpr {
    Var(Name, Range),
}

pub enum TypeExprView {
    Var(Seq<char>, Range),
}

#[derive(Debug, PartialEq, Eq)]
pub enum Expr {
    Literal(Literal, Range),
    Var(QualifiedName, Range),
    Apply { func: Box<Expr>, args: Vec<Expr> },
}

pub enum ExprView {
    Literal(LiteralView, Range),
    Var(Seq<Seq<char>>, Range),
    Apply { func: Box<ExprView>, args: Seq<ExprView> },
}

#[derive(Debug, PartialEq, Eq)]
pub enum Statement {
    Import(QualifiedName),
    For(Name, Expr, Expr, Block),
    If(Expr, Block, Option<Block>),
    VarDecl(Name, TypeExpr, Expr),
    Expr(Expr),
}

pub enum StatementView {
    Import(Seq<Seq<char>>),
    For(Seq<char>, ExprView, ExprView, Seq<StatementView>),
    If(ExprView, Seq<StatementView>, Option<Seq<StatementView>>),
    VarDecl(Seq<char>, TypeExprView, ExprView),
    Expr(ExprView),
}

#[derive(Debug, PartialEq, Eq)]
pub struct Program {
    pub statements: Vec<Statement>,
}

impl View for Literal {
    type V = LiteralView;

    open spec fn view(&self) -> LiteralView {
        match self {
            Literal::Str(text) => LiteralView::Str(text@),
            Literal::I32(number) => LiteralView::I32(*number),
        }
    }
}

impl View for TypeExpr {
    type V = TypeExprView;

    open spec fn view(&self) -> TypeExprView {
        match self {
            TypeExpr::Var(name, range) => TypeExprView::Var(name@, *range),
        }
    }
}

/// The view of an expression.
pub open spec fn expr_view(expr: Expr) -> ExprView
    decreases expr,
{
    match expr {
        Expr::Literal(literal, range) => ExprView::Literal(literal@, range),
        Expr::Var(name, range) => ExprView::Var(names_view(name@), range),
        Expr::Apply { func, args } => ExprView::Apply {
            func: Box::new(expr_view(*func)),
            args: Seq::new(
                args@.len(),
                |i: int|
                    if 0 <= i < args@.len() {
                        expr_view(args@[i])
                    } else {
                        arbitrary()
                    },
            ),
        },
    }
}

impl View for Expr {
    type V = ExprView;

    open spec fn view(&self) -> ExprView {
        expr_view(*self)
    }
}

/// The views of a sequence of expressions, in order.
pub open spec fn exprs_view(exprs: Seq<Expr>) -> Seq<ExprView> {
    Seq::new(exprs.len(), |i: int| exprs[i]@)
}

/// The view of a statement.
pub open spec fn statement_view(statement: Statement) -> StatementView
    decreases statement,
{
    match statement {
        Statement::Import(name) => StatementView::Import(names_view(name@)),
        Statement::For(name, start, end, body) => StatementView::For(
            name@,
            start@,
            end@,
            Seq::new(
                body@.len(),
                |i: int|
                    if 0 <= i < body@.len() {
                        statement_view(body@[i])
                    } else {
                        arbitrary()
                    },
            ),
        ),
        Statement::If(condition, body, otherwise) => StatementView::If(
            condition@,
            Seq::new(
                body@.len(),
                |i: int|
                    if 0 <= i < body@.len() {
                        statement_view(body@[i])
                    } else {
                        arbitrary()
                    },
            ),
            match otherwise {
                Some(block) => Some(
                    Seq::new(
                        block@.len(),
                        |i: int|
                            if 0 <= i < block@.len() {
                                statement_view(block@[i])
                            } else {
                                arbitrary()
                            },
                    ),
                ),
                None => None,
            },
        ),
        Statement::VarDecl(name, type_, value) => StatementView::VarDecl(name@, type_@, value@),
        Statement::Expr(expr) => StatementView::Expr(expr@),
    }
}

impl View for Statement {
    type V = StatementView;

    open spec fn view(&self) -> StatementView {
        statement_view(*self)
    }
}

/// The views of a sequence of statements, in order.
pub open spec fn statements_view(statements: Seq<Statement>) -> Seq<StatementView> {
    Seq::new(statements.len(), |i: int| statements[i]@)
}

impl View for Program {
    type V = Seq<StatementView>;

    open spec fn view(&self) -> Seq<StatementView> {
        statements_view(self.statements@)
    }
}

/// The view of an application is made of the views of its parts.
pub proof fn lemma_apply_view(func: Expr, args: Vec<Expr>)
    ensures
        (Expr::Apply { func: Box::new(func), args })@ == (ExprView::Apply {
            func: Box::new(func@),
            args: exprs_view(args@),
        }),
{
    let whole = Expr::Apply { func: Box::new(func), args };
    assert(whole@->args =~= exprs_view(args@));
}

/// The view of a `for` statement is made of the views of its parts.
pub proof fn lemma_for_view(name: Name, start: Expr, end: Expr, body: Block)
    ensures
        Statement::For(name, start, end, body)@ == StatementView::For(
            name@,
            start@,
            end@,
            statements_view(body@),
        ),
{
    let whole = Statement::For(name, start, end, body);
    assert(whole@->For_3 =~= statements_view(body@));
}

/// The view of an `if` statement is made of the views of its parts.
pub proof fn lemma_if_parts(condition: Expr, body: Block, otherwise: Option<Block>)
    ensures
        Statement::If(condition, body, otherwise)@ == StatementView::If(
            condition@,
            statements_view(body@),
            match otherwise {
                Some(block) => Some(statements_view(block@)),
                None => None,
            },
        ),
{
    let whole = Statement::If(condition, body, otherwise);
    assert(whole@->If_1 =~= statements_view(body@));
    if let Some(block) = otherwise {
        assert(whole@->If_2->Some_0 =~= statements_view(block@));
    }
}

impl ExprView {
    /// The range of source text that the expression covers: its own for a
    /// literal or a variable, and for an application the span from the
    /// function over all the arguments.
    pub open spec fn range(self) -> Range
        decreases self,
    {
        match self {
            ExprView::Literal(_, range) => range,
            ExprView::Var(_, range) => range,
            ExprView::Apply { func, args } => Self::span_over(func.range(), args, args.len()),
        }
    }

    /// `first` merged with the ranges of the first `count` of `exprs`.
    pub open spec fn span_over(first: Range, exprs: Seq<ExprView>, count: nat) -> Range
        decreases exprs, count,
    {
        if count == 0 || count > exprs.len() {
            first
        } else {
            Self::span_over(first, exprs, (count - 1) as nat).merge(exprs[count - 1].range())
        }
    }
}

impl Literal {
    pub fn clone_literal(&self) -> (copy: Literal)
        ensures
            copy@ == self@,
    {
        match self {
            Literal::Str(text) => Literal::Str(text.clone()),
            Literal::I32(number) => Literal::I32(*number),
        }
    }
}

impl Clone for Literal {
    fn clone(&self) -> (copy: Self)
        ensures
            copy@ == self@,
    {
        self.clone_literal()
    }
}

impl Clone for TypeExpr {
    fn clone(&self) -> (copy: Self)
        ensures
            copy@ == self@,
    {
        match self {
            TypeExpr::Var(name, range) => TypeExpr::Var(name.clone(), *range),
        }
    }
}

/// A copy of a qualified name.
pub fn clone_names(names: &Vec<Name>) -> (copy: Vec<Name>)
    ensures
        names_view(copy@) == names_view(names@),
{
    let mut copy: Vec<Name> = Vec::new();
    let mut i: usize = 0;
    while i < names.len()
        invariant
            i <= names.len(),
            copy.len() == i,
            forall|j: int| 0 <= j < i ==> copy[j]@ == names[j]@,
        decreases names.len() - i,
    {
        copy.push(names[i].clone());
        i = i + 1;
    }
    assert(names_view(copy@) =~= names_view(names@));
    copy
}

/// A copy of an expression.
pub fn clone_expr(expr: &Expr) -> (copy: Expr)
    ensures
        copy@ == expr@,
    decreases expr,
{
    match expr {
        Expr::Literal(literal, range) => Expr::Literal(literal.clone_literal(), *range),
        Expr::Var(name, range) => Expr::Var(clone_names(name), *range),
        Expr::Apply { func, args } => {
            let func_copy = clone_expr(func);
            let mut args_copy: Vec<Expr> = Vec::new();
            let mut i: usize = 0;
            while i < args.len()
                invariant
                    i <= args.len(),
                    args_copy.len() == i,
                    forall|j: int| 0 <= j < i ==> args_copy[j]@ == args[j]@,
                    expr is Apply,
                    expr->args == *args,
                decreases args.len() - i,
            {
                args_copy.push(clone_expr(&args[i]));
                i = i + 1;
            }
            let copy = Expr::Apply { func: Box::new(func_copy), args: args_copy };
            assert(copy@->args =~= expr@->args);
            copy
        },
    }
}

impl Clone for Expr {
    fn clone(&self) -> (copy: Self)
        ensures
            copy@ == self@,
    {
        clone_expr(self)
    }
}

/// A copy of a block.
pub fn clone_block(block: &Block) -> (copy: Block)
    ensures
        statements_view(copy@) == statements_view(block@),
    decreases block,
{
    let mut copy: Vec<Statement> = Vec::new();
    let mut i: usize = 0;
    while i < block.len()
        invariant
            i <= block.len(),
            copy.len() == i,
            forall|j: int| 0 <= j < i ==> copy[j]@ == block[j]@,
        decreases block.len() - i,
    {
        copy.push(clone_statement(&block[i]));
        i = i + 1;
    }
    assert(statements_view(copy@) =~= statements_view(block@));
    copy
}

/// A copy of a statement.
pub fn clone_statement(statement: &Statement) -> (copy: Statement)
    ensures
        copy@ == statement@,
    decreases statement,
{
    match statement {
        Statement::Import(name) => Statement::Import(clone_names(name)),
        Statement::For(name, start, end, body) => {
            let copy = Statement::For(
                name.clone(),
                clone_expr(start),
                clone_expr(end),
                clone_block(body),
            );
            proof {
                lemma_for_view(*name, *start, *end, *body);
                lemma_for_view(copy->For_0, copy->For_1, copy->For_2, copy->For_3);
            }
            copy
        },
        Statement::If(condition, body, otherwise) => {
            let otherwise_copy = match otherwise {
                Some(block) => Some(clone_block(block)),
                None => None,
            };
            let copy = Statement::If(clone_expr(condition), clone_block(body), otherwise_copy);
            proof {
                lemma_if_parts(*condition, *body, *otherwise);
                lemma_if_parts(copy->If_0, copy->If_1, copy->If_2);
            }
            copy
        },
        Statement::VarDecl(name, type_, value) => Statement::VarDecl(
            name.clone(),
            type_.clone(),
            clone_expr(value),
        ),
        Statement::Expr(expr) => Statement::Expr(clone_expr(expr)),
    }
}

impl Clone for Statement {
    fn clone(&self) -> (copy: Self)
        ensures
            copy@ == self@,
    {
        clone_statement(self)
    }
}

impl Clone for Program {
    fn clone(&self) -> (copy: Self)
        ensures
            copy@ == self@,
    {
        Program { statements: clone_block(&self.statements) }
    }
}

impl Expr {
    /// The range of source text that the expression covers.
    pub fn range(&self) -> (range: Range)
        ensures
            range == self@.range(),
        decreases self,
    {
        match self {
            Expr::Literal(_, range) => *range,
            Expr::Var(_, range) => *range,
            Expr::Apply { func, args } => {
                let mut range = func.range();
                let mut i: usize = 0;
                while i < args.len()
                    invariant
                        i <= args.len(),
                        self is Apply,
                        self->args == *args,
                        self@->args.len() == args.len(),
                        range == ExprView::span_over(self@->func.range(), self@->args, i as nat),
                    decreases args.len() - i,
                {
                    let next = args[i].range();
                    range = range.merge(next);
                    i = i + 1;
                }
                range
            },
        }
    }
}

} // verus!

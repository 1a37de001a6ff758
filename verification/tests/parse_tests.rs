use lang_parser::ast::{Expr, Literal, Program, Statement, TypeExpr};
use lang_parser::name::Name;
use lang_parser::parse::{parse, parse_recovering, Error};
use lang_parser::range::{Located, Range};
use lang_parser::token::{Keyword, LToken, Symbol, Token};

fn id(text: &'static str, start: usize, end: usize) -> LToken<'static> {
    Located(Token::Identifier(text), Range(start, end))
}

fn kw(keyword: Keyword, start: usize, end: usize) -> LToken<'static> {
    Located(Token::Keyword(keyword), Range(start, end))
}

fn sym(symbol: Symbol, start: usize, end: usize) -> LToken<'static> {
    Located(Token::Symbol(symbol), Range(start, end))
}

fn num(value: i32, start: usize, end: usize) -> LToken<'static> {
    Located(Token::IntLiteral(value), Range(start, end))
}

fn text(content: &'static str, start: usize, end: usize) -> LToken<'static> {
    Located(Token::StringLiteral(content), Range(start, end))
}

fn nl(indent: usize, start: usize, end: usize) -> LToken<'static> {
    Located(Token::NewLine { indent }, Range(start, end))
}

fn name(text: &str) -> Name {
    Name::from_str(text)
}

fn var(segments: &[&str], start: usize, end: usize) -> Expr {
    Expr::Var(segments.iter().map(|segment| name(segment)).collect(), Range(start, end))
}

fn number(value: i32, start: usize, end: usize) -> Expr {
    Expr::Literal(Literal::I32(value), Range(start, end))
}

fn program(statements: Vec<Statement>) -> Program {
    Program { statements }
}

#[test]
fn empty_input_is_an_empty_program() {
    assert_eq!(parse(Vec::new()), Ok(program(vec![])));
    assert_eq!(parse(vec![nl(0, 0, 1), nl(4, 1, 6), nl(0, 6, 7)]), Ok(program(vec![])));
}

#[test]
fn single_identifier_is_a_single_segment_name() {
    let result = parse(vec![id("a", 0, 1)]);
    assert_eq!(result, Ok(program(vec![Statement::Expr(var(&["a"], 0, 1))])));
}

#[test]
fn qualified_name_with_three_segments() {
    // a::b::c
    let result = parse(vec![
        id("a", 0, 1),
        sym(Symbol::DoubleColon, 1, 3),
        id("b", 3, 4),
        sym(Symbol::DoubleColon, 4, 6),
        id("c", 6, 7),
    ]);
    assert_eq!(result, Ok(program(vec![Statement::Expr(var(&["a", "b", "c"], 0, 7))])));
}

#[test]
fn double_colon_without_identifier_is_reported_after_it() {
    // a::
    let result = parse(vec![id("a", 0, 1), sym(Symbol::DoubleColon, 1, 3)]);
    assert_eq!(result, Err(vec![Error::NoIdentifierAfterDoubleColon(Range(3, 3))]));
    // a:: 5
    let result = parse(vec![id("a", 0, 1), sym(Symbol::DoubleColon, 1, 3), num(5, 4, 5)]);
    assert_eq!(result, Err(vec![Error::NoIdentifierAfterDoubleColon(Range(4, 5))]));
}

#[test]
fn variable_declaration() {
    // x : Int = 5
    let result = parse(vec![
        id("x", 0, 1),
        sym(Symbol::Colon, 2, 3),
        id("Int", 4, 7),
        sym(Symbol::Equal, 8, 9),
        num(5, 10, 11),
    ]);
    assert_eq!(
        result,
        Ok(program(vec![Statement::VarDecl(
            name("x"),
            TypeExpr::Var(name("Int"), Range(4, 7)),
            number(5, 10, 11),
        )]))
    );
}

#[test]
fn application_of_a_name_to_a_literal() {
    // x 5
    let result = parse(vec![id("x", 0, 1), num(5, 2, 3)]);
    assert_eq!(
        result,
        Ok(program(vec![Statement::Expr(Expr::Apply {
            func: Box::new(var(&["x"], 0, 1)),
            args: vec![number(5, 2, 3)],
        })]))
    );
}

#[test]
fn assignment_without_colon_is_no_declaration() {
    // x = 5: the name is an expression statement of its own, and `=`
    // starts no expression.
    let tokens = vec![id("x", 0, 1), sym(Symbol::Equal, 2, 3), num(5, 4, 5)];
    let (found, errors) = parse_recovering(tokens.clone());
    assert_eq!(found, program(vec![Statement::Expr(var(&["x"], 0, 1))]));
    assert_eq!(errors, vec![Error::ExpectedExpression(Range(2, 3))]);
    assert_eq!(parse(tokens), Err(vec![Error::ExpectedExpression(Range(2, 3))]));
}

#[test]
fn declaration_keeps_only_the_first_segment_of_its_target() {
    // x::y : Int = 5
    let result = parse(vec![
        id("x", 0, 1),
        sym(Symbol::DoubleColon, 1, 3),
        id("y", 3, 4),
        sym(Symbol::Colon, 5, 6),
        id("Int", 7, 10),
        sym(Symbol::Equal, 11, 12),
        num(5, 13, 14),
    ]);
    assert_eq!(
        result,
        Ok(program(vec![Statement::VarDecl(
            name("x"),
            TypeExpr::Var(name("Int"), Range(7, 10)),
            number(5, 13, 14),
        )]))
    );
}

#[test]
fn if_with_an_empty_block() {
    // if x do {
    //
    // }
    let result = parse(vec![
        kw(Keyword::If, 0, 2),
        id("x", 3, 4),
        kw(Keyword::Do, 5, 7),
        sym(Symbol::OpenCurly, 8, 9),
        nl(4, 9, 14),
        nl(0, 14, 15),
        sym(Symbol::CloseCurly, 15, 16),
    ]);
    assert_eq!(result, Ok(program(vec![Statement::If(var(&["x"], 3, 4), vec![], None)])));
}

#[test]
fn if_with_statements_in_its_block() {
    // if f x do {
    //     a
    //     b : T = "s"
    // }
    let result = parse(vec![
        kw(Keyword::If, 0, 2),
        id("f", 3, 4),
        id("x", 5, 6),
        kw(Keyword::Do, 7, 9),
        sym(Symbol::OpenCurly, 10, 11),
        nl(4, 11, 16),
        id("a", 16, 17),
        nl(4, 17, 22),
        id("b", 22, 23),
        sym(Symbol::Colon, 24, 25),
        id("T", 26, 27),
        sym(Symbol::Equal, 28, 29),
        text("s", 30, 33),
        nl(0, 33, 34),
        sym(Symbol::CloseCurly, 34, 35),
    ]);
    assert_eq!(
        result,
        Ok(program(vec![Statement::If(
            Expr::Apply { func: Box::new(var(&["f"], 3, 4)), args: vec![var(&["x"], 5, 6)] },
            vec![
                Statement::Expr(var(&["a"], 16, 17)),
                Statement::VarDecl(
                    name("b"),
                    TypeExpr::Var(name("T"), Range(26, 27)),
                    Expr::Literal(Literal::Str(name("s")), Range(30, 33)),
                ),
            ],
            None,
        )]))
    );
}

#[test]
fn malformed_statement_is_skipped_and_the_next_one_parsed() {
    // x : Int 5
    // y
    let tokens = vec![
        id("x", 0, 1),
        sym(Symbol::Colon, 2, 3),
        id("Int", 4, 7),
        num(5, 8, 9),
        nl(0, 9, 10),
        id("y", 10, 11),
    ];
    let (found, errors) = parse_recovering(tokens.clone());
    assert_eq!(errors, vec![Error::NoEqualsInVariableDeclaration(Range(8, 9))]);
    assert_eq!(found, program(vec![Statement::Expr(var(&["y"], 10, 11))]));
    assert_eq!(parse(tokens), Err(vec![Error::NoEqualsInVariableDeclaration(Range(8, 9))]));
}

#[test]
fn errors_of_different_statements_are_reported_together() {
    // import
    // a::
    // b
    let tokens = vec![
        kw(Keyword::Import, 0, 6),
        nl(0, 6, 7),
        id("a", 7, 8),
        sym(Symbol::DoubleColon, 8, 10),
        nl(0, 10, 11),
        id("b", 11, 12),
    ];
    let (found, errors) = parse_recovering(tokens);
    assert_eq!(
        errors,
        vec![
            Error::BadNameAfterImport(Range(6, 7)),
            Error::NoIdentifierAfterDoubleColon(Range(10, 11)),
        ]
    );
    assert_eq!(found, program(vec![Statement::Expr(var(&["b"], 11, 12))]));
}

#[test]
fn import_statement() {
    // import a::b
    let result = parse(vec![
        kw(Keyword::Import, 0, 6),
        id("a", 7, 8),
        sym(Symbol::DoubleColon, 8, 10),
        id("b", 10, 11),
    ]);
    assert_eq!(result, Ok(program(vec![Statement::Import(vec![name("a"), name("b")])])));
}

#[test]
fn import_without_a_name() {
    // import 5
    let result = parse(vec![kw(Keyword::Import, 0, 6), num(5, 7, 8)]);
    assert_eq!(result, Err(vec![Error::BadNameAfterImport(Range(7, 8))]));
    // import
    let result = parse(vec![kw(Keyword::Import, 0, 6)]);
    assert_eq!(result, Err(vec![Error::BadNameAfterImport(Range(6, 6))]));
}

#[test]
fn expression_expected() {
    // )
    let result = parse(vec![sym(Symbol::CloseParen, 0, 1)]);
    assert_eq!(result, Err(vec![Error::ExpectedExpression(Range(0, 1))]));
    // x : T =
    let result = parse(vec![
        id("x", 0, 1),
        sym(Symbol::Colon, 2, 3),
        id("T", 4, 5),
        sym(Symbol::Equal, 6, 7),
    ]);
    assert_eq!(result, Err(vec![Error::ExpectedExpression(Range(7, 7))]));
}

#[test]
fn declaration_without_a_type() {
    // x : = 5
    let result = parse(vec![
        id("x", 0, 1),
        sym(Symbol::Colon, 2, 3),
        sym(Symbol::Equal, 4, 5),
        num(5, 6, 7),
    ]);
    assert_eq!(
        result,
        Err(vec![Error::NoTypeExpressionAfterColonInVariableDeclaration(Range(4, 5))])
    );
    // x : 7 8 = 5: the tokens up to `=` are skipped
    let result = parse(vec![
        id("x", 0, 1),
        sym(Symbol::Colon, 2, 3),
        num(7, 4, 5),
        num(8, 6, 7),
        sym(Symbol::Equal, 8, 9),
        num(5, 10, 11),
    ]);
    assert_eq!(
        result,
        Err(vec![Error::NoTypeExpressionAfterColonInVariableDeclaration(Range(4, 5))])
    );
}

#[test]
fn declaration_without_type_and_equals_is_reported_once() {
    // x : 5
    let result = parse(vec![id("x", 0, 1), sym(Symbol::Colon, 2, 3), num(5, 4, 5)]);
    assert_eq!(
        result,
        Err(vec![Error::NoTypeExpressionAfterColonInVariableDeclaration(Range(4, 5))])
    );
    // 5 : = 3: neither the missing type nor the target adds a second one
    let result = parse(vec![
        num(5, 0, 1),
        sym(Symbol::Colon, 2, 3),
        sym(Symbol::Equal, 4, 5),
        num(3, 6, 7),
    ]);
    assert_eq!(
        result,
        Err(vec![Error::NoTypeExpressionAfterColonInVariableDeclaration(Range(4, 5))])
    );
}

#[test]
fn only_a_name_can_be_declared() {
    // 5 : Int = 3
    let result = parse(vec![
        num(5, 0, 1),
        sym(Symbol::Colon, 2, 3),
        id("Int", 4, 7),
        sym(Symbol::Equal, 8, 9),
        num(3, 10, 11),
    ]);
    assert_eq!(result, Err(vec![Error::CouldNotAssignTo(number(5, 0, 1))]));
    // f x : Int = 3
    let result = parse(vec![
        id("f", 0, 1),
        id("x", 2, 3),
        sym(Symbol::Colon, 4, 5),
        id("Int", 6, 9),
        sym(Symbol::Equal, 10, 11),
        num(3, 12, 13),
    ]);
    assert_eq!(
        result,
        Err(vec![Error::CouldNotAssignTo(Expr::Apply {
            func: Box::new(var(&["f"], 0, 1)),
            args: vec![var(&["x"], 2, 3)],
        })])
    );
}

#[test]
fn parenthesized_expression_keeps_the_inner_ranges() {
    // f (g 1) "s"
    let result = parse(vec![
        id("f", 0, 1),
        sym(Symbol::OpenParen, 2, 3),
        id("g", 3, 4),
        num(1, 5, 6),
        sym(Symbol::CloseParen, 6, 7),
        text("s", 8, 11),
    ]);
    assert_eq!(
        result,
        Ok(program(vec![Statement::Expr(Expr::Apply {
            func: Box::new(var(&["f"], 0, 1)),
            args: vec![
                Expr::Apply { func: Box::new(var(&["g"], 3, 4)), args: vec![number(1, 5, 6)] },
                Expr::Literal(Literal::Str(name("s")), Range(8, 11)),
            ],
        })]))
    );
}

#[test]
fn failed_argument_fails_the_application() {
    // f a:: b
    let result = parse(vec![
        id("f", 0, 1),
        id("a", 2, 3),
        sym(Symbol::DoubleColon, 3, 5),
        num(1, 6, 7),
    ]);
    assert_eq!(result, Err(vec![Error::NoIdentifierAfterDoubleColon(Range(6, 7))]));
}

#[test]
fn for_statement() {
    // for i in 0 .. n do {
    //     f i
    // }
    let result = parse(vec![
        kw(Keyword::For, 0, 3),
        id("i", 4, 5),
        kw(Keyword::In, 6, 8),
        num(0, 9, 10),
        sym(Symbol::DotDot, 11, 13),
        id("n", 14, 15),
        kw(Keyword::Do, 16, 18),
        sym(Symbol::OpenCurly, 19, 20),
        nl(4, 20, 25),
        id("f", 25, 26),
        id("i", 27, 28),
        nl(0, 28, 29),
        sym(Symbol::CloseCurly, 29, 30),
    ]);
    assert_eq!(
        result,
        Ok(program(vec![Statement::For(
            name("i"),
            number(0, 9, 10),
            var(&["n"], 14, 15),
            vec![Statement::Expr(Expr::Apply {
                func: Box::new(var(&["f"], 25, 26)),
                args: vec![var(&["i"], 27, 28)],
            })],
        )]))
    );
}

#[test]
fn for_statement_with_the_brace_on_the_next_line() {
    // for i in 0 .. 1 do
    // {
    //   a
    // }
    let result = parse(vec![
        kw(Keyword::For, 0, 3),
        id("i", 4, 5),
        kw(Keyword::In, 6, 8),
        num(0, 9, 10),
        sym(Symbol::DotDot, 11, 13),
        num(1, 14, 15),
        kw(Keyword::Do, 16, 18),
        nl(0, 18, 19),
        sym(Symbol::OpenCurly, 19, 20),
        nl(2, 20, 23),
        id("a", 23, 24),
        nl(0, 24, 25),
        sym(Symbol::CloseCurly, 25, 26),
    ]);
    assert_eq!(
        result,
        Ok(program(vec![Statement::For(
            name("i"),
            number(0, 9, 10),
            number(1, 14, 15),
            vec![Statement::Expr(var(&["a"], 23, 24))],
        )]))
    );
}

#[test]
fn for_without_a_name_is_reported_from_the_name_to_the_in() {
    // for in 0 .. 1 do {
    //     a
    // }
    let tokens = vec![
        kw(Keyword::For, 0, 3),
        kw(Keyword::In, 4, 6),
        num(0, 7, 8),
        sym(Symbol::DotDot, 9, 11),
        num(1, 12, 13),
        kw(Keyword::Do, 14, 16),
        sym(Symbol::OpenCurly, 17, 18),
        nl(4, 18, 23),
        id("a", 23, 24),
        nl(0, 24, 25),
        sym(Symbol::CloseCurly, 25, 26),
    ];
    assert_eq!(parse(tokens), Err(vec![Error::NoNameAfterFor(Range(0, 6))]));
    // for 5 6 in 0 .. 1 do {
    //     a::
    // }
    let tokens = vec![
        kw(Keyword::For, 0, 3),
        num(5, 4, 5),
        num(6, 6, 7),
        kw(Keyword::In, 8, 10),
        num(0, 11, 12),
        sym(Symbol::DotDot, 13, 15),
        num(1, 16, 17),
        kw(Keyword::Do, 18, 20),
        sym(Symbol::OpenCurly, 21, 22),
        nl(4, 22, 27),
        id("a", 27, 28),
        sym(Symbol::DoubleColon, 28, 30),
        nl(0, 30, 31),
        sym(Symbol::CloseCurly, 31, 32),
    ];
    // The statement is abandoned where the name is found missing: its
    // body is passed over, not read.
    assert_eq!(parse(tokens), Err(vec![Error::NoNameAfterFor(Range(4, 7))]));
}

#[test]
fn for_without_in_is_abandoned_without_a_diagnostic() {
    // for i 0 .. 1
    // b
    let tokens = vec![
        kw(Keyword::For, 0, 3),
        id("i", 4, 5),
        num(0, 6, 7),
        sym(Symbol::DotDot, 8, 10),
        num(1, 11, 12),
        nl(0, 12, 13),
        id("b", 13, 14),
    ];
    // Looking for `in` runs to the end of the tokens, so nothing is left.
    assert_eq!(parse(tokens), Ok(program(vec![])));
    // for i in 0 1 do: `..` is missing
    // b
    let tokens = vec![
        kw(Keyword::For, 0, 3),
        id("i", 4, 5),
        kw(Keyword::In, 6, 8),
        num(0, 9, 10),
        kw(Keyword::Do, 11, 13),
        nl(0, 13, 14),
        id("b", 14, 15),
    ];
    assert_eq!(parse(tokens), Ok(program(vec![Statement::Expr(var(&["b"], 14, 15))])));
}

#[test]
fn if_without_do_is_reported() {
    // if x {
    let result = parse(vec![
        kw(Keyword::If, 0, 2),
        id("x", 3, 4),
        sym(Symbol::OpenCurly, 5, 6),
    ]);
    assert_eq!(result, Err(vec![Error::NoDoAfterIf(Range(5, 6))]));
    // if x : y {
    let result = parse(vec![
        kw(Keyword::If, 0, 2),
        id("x", 3, 4),
        sym(Symbol::Colon, 5, 6),
        id("y", 7, 8),
        sym(Symbol::OpenCurly, 9, 10),
    ]);
    assert_eq!(result, Err(vec![Error::NoDoAfterIf(Range(5, 10))]));
    // if x
    let result = parse(vec![kw(Keyword::If, 0, 2), id("x", 3, 4)]);
    assert_eq!(result, Err(vec![Error::NoDoAfterIf(Range(4, 4))]));
}

#[test]
fn if_condition_that_does_not_end_is_reported() {
    // if x : do {
    //     a
    // }
    // b
    let tokens = vec![
        kw(Keyword::If, 0, 2),
        id("x", 3, 4),
        sym(Symbol::Colon, 5, 6),
        kw(Keyword::Do, 7, 9),
        sym(Symbol::OpenCurly, 10, 11),
        nl(4, 11, 16),
        id("a", 16, 17),
        nl(0, 17, 18),
        sym(Symbol::CloseCurly, 18, 19),
        nl(0, 19, 20),
        id("b", 20, 21),
    ];
    let (found, errors) = parse_recovering(tokens.clone());
    assert_eq!(errors, vec![Error::IfConditionDidNotEnd(Range(5, 11))]);
    assert_eq!(found, program(vec![Statement::Expr(var(&["b"], 20, 21))]));
    assert_eq!(parse(tokens), Err(vec![Error::IfConditionDidNotEnd(Range(5, 11))]));
}

#[test]
fn nested_blocks_follow_the_indentation() {
    // if a do {
    //   if b do {
    //     c
    //   }
    //   d
    // }
    let result = parse(vec![
        kw(Keyword::If, 0, 2),
        id("a", 3, 4),
        kw(Keyword::Do, 5, 7),
        sym(Symbol::OpenCurly, 8, 9),
        nl(2, 9, 12),
        kw(Keyword::If, 12, 14),
        id("b", 15, 16),
        kw(Keyword::Do, 17, 19),
        sym(Symbol::OpenCurly, 20, 21),
        nl(4, 21, 26),
        id("c", 26, 27),
        nl(2, 27, 30),
        sym(Symbol::CloseCurly, 30, 31),
        nl(2, 31, 34),
        id("d", 34, 35),
        nl(0, 35, 36),
        sym(Symbol::CloseCurly, 36, 37),
    ]);
    assert_eq!(
        result,
        Ok(program(vec![Statement::If(
            var(&["a"], 3, 4),
            vec![
                Statement::If(
                    var(&["b"], 15, 16),
                    vec![Statement::Expr(var(&["c"], 26, 27))],
                    None,
                ),
                Statement::Expr(var(&["d"], 34, 35)),
            ],
            None,
        )]))
    );
}

#[test]
fn failure_in_a_block_fails_the_statement_once() {
    // if a do {
    //     x : = 5
    //     y
    // }
    // z
    let tokens = vec![
        kw(Keyword::If, 0, 2),
        id("a", 3, 4),
        kw(Keyword::Do, 5, 7),
        sym(Symbol::OpenCurly, 8, 9),
        nl(4, 9, 14),
        id("x", 14, 15),
        sym(Symbol::Colon, 16, 17),
        sym(Symbol::Equal, 18, 19),
        num(5, 20, 21),
        nl(4, 21, 26),
        id("y", 26, 27),
        nl(0, 27, 28),
        sym(Symbol::CloseCurly, 28, 29),
        nl(0, 29, 30),
        id("z", 30, 31),
    ];
    let (found, errors) = parse_recovering(tokens);
    assert_eq!(
        errors,
        vec![Error::NoTypeExpressionAfterColonInVariableDeclaration(Range(18, 19))]
    );
    assert_eq!(found, program(vec![Statement::Expr(var(&["z"], 30, 31))]));
}

#[test]
fn block_whose_statement_cannot_start_ends_there() {
    // if a do {
    //     )
    // }
    // z
    let tokens = vec![
        kw(Keyword::If, 0, 2),
        id("a", 3, 4),
        kw(Keyword::Do, 5, 7),
        sym(Symbol::OpenCurly, 8, 9),
        nl(4, 9, 14),
        sym(Symbol::CloseParen, 14, 15),
        nl(0, 15, 16),
        sym(Symbol::CloseCurly, 16, 17),
        nl(0, 17, 18),
        id("z", 18, 19),
    ];
    let (found, errors) = parse_recovering(tokens);
    // The block stops at `)`; the rest of the block is passed over with
    // its closing brace.
    assert_eq!(errors, vec![Error::ExpectedExpression(Range(14, 15))]);
    assert_eq!(found, program(vec![Statement::Expr(var(&["z"], 18, 19))]));
}

#[test]
fn first_failing_statement_ends_the_block() {
    // if c do {
    //   a ::
    //   b ::
    // }
    // z
    let tokens = vec![
        kw(Keyword::If, 0, 2),
        id("c", 3, 4),
        kw(Keyword::Do, 5, 7),
        sym(Symbol::OpenCurly, 8, 9),
        nl(2, 9, 12),
        id("a", 12, 13),
        sym(Symbol::DoubleColon, 14, 16),
        nl(2, 16, 19),
        id("b", 19, 20),
        sym(Symbol::DoubleColon, 21, 23),
        nl(0, 23, 24),
        sym(Symbol::CloseCurly, 24, 25),
        nl(0, 25, 26),
        id("z", 26, 27),
    ];
    let (found, errors) = parse_recovering(tokens);
    assert_eq!(errors, vec![Error::NoIdentifierAfterDoubleColon(Range(16, 19))]);
    assert_eq!(found, program(vec![Statement::Expr(var(&["z"], 26, 27))]));
}

#[test]
fn block_without_closing_brace_is_reported() {
    // if x do {
    //     a
    // y
    let tokens = vec![
        kw(Keyword::If, 0, 2),
        id("x", 3, 4),
        kw(Keyword::Do, 5, 7),
        sym(Symbol::OpenCurly, 8, 9),
        nl(4, 9, 14),
        id("a", 14, 15),
        nl(0, 15, 16),
        id("y", 16, 17),
    ];
    assert_eq!(parse(tokens), Err(vec![Error::NoClosingCurly(Range(16, 17))]));
}

#[test]
fn do_without_block_is_reported() {
    // if x do y
    let tokens = vec![
        kw(Keyword::If, 0, 2),
        id("x", 3, 4),
        kw(Keyword::Do, 5, 7),
        id("y", 8, 9),
    ];
    assert_eq!(parse(tokens), Err(vec![Error::NoBlockAfterDo(Range(8, 9))]));
    // for i in 0 .. 1 do
    let tokens = vec![
        kw(Keyword::For, 0, 3),
        id("i", 4, 5),
        kw(Keyword::In, 6, 8),
        num(0, 9, 10),
        sym(Symbol::DotDot, 11, 13),
        num(1, 14, 15),
        kw(Keyword::Do, 16, 18),
    ];
    assert_eq!(parse(tokens), Err(vec![Error::NoBlockAfterDo(Range(18, 18))]));
}

#[test]
fn block_without_indentation_is_reported() {
    // if x do { }
    let tokens = vec![
        kw(Keyword::If, 0, 2),
        id("x", 3, 4),
        kw(Keyword::Do, 5, 7),
        sym(Symbol::OpenCurly, 8, 9),
        sym(Symbol::CloseCurly, 10, 11),
    ];
    assert_eq!(parse(tokens), Err(vec![Error::NoIndentAfterOpenCurly(Range(10, 11))]));
}

#[test]
fn unclosed_parenthesis_is_reported() {
    // (a
    // b
    let tokens = vec![sym(Symbol::OpenParen, 0, 1), id("a", 1, 2), nl(0, 2, 3), id("b", 3, 4)];
    let (found, errors) = parse_recovering(tokens.clone());
    assert_eq!(errors, vec![Error::NoClosingParen(Range(2, 3))]);
    // What follows stands inside the parenthesis and is passed over.
    assert_eq!(found, program(vec![]));
    assert_eq!(parse(tokens), Err(vec![Error::NoClosingParen(Range(2, 3))]));
}

#[test]
fn recovery_follows_nested_braces() {
    // ) { { }
    // }
    // y
    let tokens = vec![
        sym(Symbol::CloseParen, 0, 1),
        sym(Symbol::OpenCurly, 2, 3),
        sym(Symbol::OpenCurly, 4, 5),
        sym(Symbol::CloseCurly, 6, 7),
        nl(0, 7, 8),
        sym(Symbol::CloseCurly, 8, 9),
        nl(0, 9, 10),
        id("y", 10, 11),
    ];
    let (found, errors) = parse_recovering(tokens);
    assert_eq!(errors, vec![Error::ExpectedExpression(Range(0, 1))]);
    assert_eq!(found, program(vec![Statement::Expr(var(&["y"], 10, 11))]));
}

#[test]
fn abandoned_statement_adds_one_diagnostic() {
    // f a:: b:: : = (
    let tokens = vec![
        id("f", 0, 1),
        id("a", 2, 3),
        sym(Symbol::DoubleColon, 3, 5),
        id("b", 6, 7),
        sym(Symbol::DoubleColon, 7, 9),
        sym(Symbol::Colon, 10, 11),
        sym(Symbol::Equal, 12, 13),
        sym(Symbol::OpenParen, 14, 15),
    ];
    assert_eq!(parse(tokens), Err(vec![Error::NoIdentifierAfterDoubleColon(Range(10, 11))]));
    // if a:: {
    let tokens = vec![
        kw(Keyword::If, 0, 2),
        id("a", 3, 4),
        sym(Symbol::DoubleColon, 4, 6),
        sym(Symbol::OpenCurly, 7, 8),
    ];
    assert_eq!(parse(tokens), Err(vec![Error::NoIdentifierAfterDoubleColon(Range(7, 8))]));
}

#[test]
fn recovery_passes_over_braces_and_parentheses() {
    // ) {
    // a
    // } (
    // b )
    // c
    let tokens = vec![
        sym(Symbol::CloseParen, 0, 1),
        sym(Symbol::OpenCurly, 2, 3),
        nl(0, 3, 4),
        id("a", 4, 5),
        nl(0, 5, 6),
        sym(Symbol::CloseCurly, 6, 7),
        sym(Symbol::OpenParen, 8, 9),
        nl(0, 9, 10),
        id("b", 10, 11),
        sym(Symbol::CloseParen, 12, 13),
        nl(0, 13, 14),
        id("c", 14, 15),
    ];
    let (found, errors) = parse_recovering(tokens);
    assert_eq!(errors, vec![Error::ExpectedExpression(Range(0, 1))]);
    assert_eq!(found, program(vec![Statement::Expr(var(&["c"], 14, 15))]));
}

#[test]
fn statements_on_indented_lines_at_top_level() {
    //   a
    //     b
    let tokens = vec![nl(2, 0, 3), id("a", 3, 4), nl(4, 4, 9), id("b", 9, 10), nl(0, 10, 11)];
    assert_eq!(
        parse(tokens),
        Ok(program(vec![
            Statement::Expr(var(&["a"], 3, 4)),
            Statement::Expr(var(&["b"], 9, 10)),
        ]))
    );
}

#[test]
fn ranges_span_the_tokens_even_where_token_ranges_are_unordered() {
    // The range of a name is the span of its first and last token.
    let result = parse(vec![
        id("a", 10, 11),
        sym(Symbol::DoubleColon, 40, 42),
        id("b", 3, 5),
    ]);
    assert_eq!(result, Ok(program(vec![Statement::Expr(var(&["a", "b"], 3, 11))])));
}

#[test]
fn range_of_an_expression() {
    assert_eq!(number(1, 4, 5).range(), Range(4, 5));
    assert_eq!(var(&["a", "b"], 0, 4).range(), Range(0, 4));
    let apply = Expr::Apply {
        func: Box::new(var(&["f"], 6, 7)),
        args: vec![number(1, 8, 9), var(&["x"], 2, 3), number(2, 10, 12)],
    };
    assert_eq!(apply.range(), Range(2, 12));
    let bare = Expr::Apply { func: Box::new(var(&["f"], 6, 7)), args: vec![] };
    assert_eq!(bare.range(), Range(6, 7));
}

#[test]
fn clones_are_equal_to_what_they_copy() {
    let apply = Expr::Apply {
        func: Box::new(var(&["f", "g"], 0, 4)),
        args: vec![number(1, 5, 6), Expr::Literal(Literal::Str(name("s")), Range(7, 10))],
    };
    assert_eq!(apply.clone(), apply);
    let error = Error::CouldNotAssignTo(apply);
    assert_eq!(error.clone(), error);
    let type_ = TypeExpr::Var(name("T"), Range(1, 2));
    assert_eq!(type_.clone(), type_);
    assert_eq!(name("abc").clone().as_str(), "abc");
}

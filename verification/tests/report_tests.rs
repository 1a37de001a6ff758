use lang_parser::ast::{Expr, Literal};
use lang_parser::error::Report;
use lang_parser::name::{same_text, Name};
use lang_parser::parse::{cannot_assign_message, parse, Error};
use lang_parser::range::{Located, Range};
use lang_parser::text::{decimal_text, push_decimal, push_repeated, push_right_aligned, slice};
use lang_parser::token::{Symbol, Token};

#[test]
fn reports_of_the_diagnostics_with_a_range() {
    let report = Report::from(Error::BadNameAfterImport(Range(1, 2)));
    assert_eq!(report.message, "This import statement is missing what to import");
    assert_eq!(report.range, Range(1, 2));
    assert_eq!(
        report.hint.as_deref(),
        Some("Import statements are of the form `import <module>::<sub-module>::<name>`")
    );

    let report = Report::from(Error::NoIdentifierAfterDoubleColon(Range(3, 3)));
    assert_eq!(report.message, "This module access is missing what to access");
    assert_eq!(report.range, Range(3, 3));
    assert_eq!(
        report.hint.as_deref(),
        Some("Module access is of the form `<module>::<sub-module>::<name>`")
    );

    let report = Report::from(Error::ExpectedExpression(Range(4, 9)));
    assert_eq!(report.message, "This is not the start of an expression");
    assert_eq!(report.range, Range(4, 9));
    assert_eq!(report.hint, None);

    let report =
        Report::from(Error::NoTypeExpressionAfterColonInVariableDeclaration(Range(5, 6)));
    assert_eq!(report.message, "This variable declaration is missing a type after the colon");
    assert_eq!(report.range, Range(5, 6));
    assert_eq!(
        report.hint.as_deref(),
        Some("Variable declarations are of the form `<name> : <type> = <expression>`")
    );

    let report = Report::from(Error::NoEqualsInVariableDeclaration(Range(7, 8)));
    assert_eq!(report.message, "This variable declaration is missing an equals sign");
    assert_eq!(report.range, Range(7, 8));
    assert_eq!(
        report.hint.as_deref(),
        Some("Variable declarations are of the form `<name> : <type> = <expression>`")
    );

    let report = Report::from(Error::NoNameAfterFor(Range(0, 6)));
    assert_eq!(report.message, "This for loop is missing a name after the 'for' keyword");
    assert_eq!(report.range, Range(0, 6));
    assert_eq!(report.hint, None);

    let report = Report::from(Error::IfConditionDidNotEnd(Range(2, 9)));
    assert_eq!(report.message, "This if condition did not end");
    assert_eq!(report.range, Range(2, 9));
    assert_eq!(report.hint, None);

    let report = Report::from(Error::NoDoAfterIf(Range(5, 6)));
    assert_eq!(report.message, "This if statement is missing a 'do' keyword");
    assert_eq!(report.range, Range(5, 6));
    assert_eq!(
        report.hint.as_deref(),
        Some("If statements are of the form 'if <condition> do { <body> }'")
    );
}

#[test]
fn reports_of_unfinished_blocks_and_parentheses() {
    let report = Report::from(Error::NoBlockAfterDo(Range(8, 9)));
    assert_eq!(report.message, "This 'do' is not followed by a block");
    assert_eq!(report.range, Range(8, 9));
    assert_eq!(report.hint.as_deref(), Some("A block starts with '{' after the 'do' keyword"));

    let report = Report::from(Error::NoIndentAfterOpenCurly(Range(10, 11)));
    assert_eq!(report.message, "This block does not start on a new, indented line");
    assert_eq!(report.range, Range(10, 11));
    assert_eq!(
        report.hint.as_deref(),
        Some("The statements of a block stand on lines of their own, indented")
    );

    let report = Report::from(Error::NoClosingCurly(Range(16, 17)));
    assert_eq!(report.message, "This block is missing its closing brace");
    assert_eq!(report.range, Range(16, 17));
    assert_eq!(
        report.hint.as_deref(),
        Some("A block is closed by '}' on a line aligned with the line that opens it")
    );

    let report = Report::from(Error::NoClosingParen(Range(2, 3)));
    assert_eq!(report.message, "This parenthesis is never closed");
    assert_eq!(report.range, Range(2, 3));
    assert_eq!(report.hint, None);
}

#[test]
fn message_about_an_expression_that_cannot_be_assigned_to() {
    assert_eq!(cannot_assign_message("f x"), "The expression 'f x' cannot be assigned to");
    assert_eq!(cannot_assign_message(""), "The expression '' cannot be assigned to");
}

#[test]
fn report_of_an_expression_that_cannot_be_assigned_to() {
    let expr = Expr::Apply {
        func: Box::new(Expr::Var(vec![Name::from_str("f")], Range(3, 4))),
        args: vec![Expr::Literal(Literal::I32(5), Range(5, 6))],
    };
    let report: Report = Error::CouldNotAssignTo(expr.clone()).into();
    assert_eq!(
        report.message,
        format!("The expression '{:?}' cannot be assigned to", expr)
    );
    assert!(report.message.contains("Apply"));
    assert!(report.message.contains("I32(5)"));
    assert_eq!(report.range, Range(3, 6));
    assert_eq!(report.hint.as_deref(), Some("Currently, only variables can be assigned to"));
}

#[test]
fn diagnostic_of_a_parse_is_rendered_over_its_source() {
    let source = "x : Int 5";
    let errors = parse(vec![
        Located(Token::Identifier("x"), Range(0, 1)),
        Located(Token::Symbol(Symbol::Colon), Range(2, 3)),
        Located(Token::Identifier("Int"), Range(4, 7)),
        Located(Token::IntLiteral(5), Range(8, 9)),
    ])
    .unwrap_err();
    assert_eq!(errors.len(), 1);
    let report = Report::from(errors[0].clone());
    assert_eq!(
        report.display(source).render(),
        "error: This variable declaration is missing an equals sign\n  |\n1 | x : Int 5\n  |         ^\n"
    );
}

#[test]
fn texts_are_compared_by_their_characters() {
    assert!(same_text("", ""));
    assert!(same_text("abc", "abc"));
    assert!(!same_text("abc", "abd"));
    assert!(!same_text("abc", "ab"));
    assert!(!same_text("", "a"));
    assert!(same_text("héllo", "héllo"));
    assert!(!same_text("héllo", "hello"));
}

#[test]
fn names_hold_their_text() {
    let name = Name::from_str("main");
    assert_eq!(name.as_str(), "main");
    assert_eq!(name, Name::from_str("main"));
    assert_ne!(name, Name::from_str("Main"));
    assert_eq!(Name::from_str("").as_str(), "");
}

#[test]
fn decimal_digits_of_numbers() {
    assert_eq!(decimal_text(0), "0");
    assert_eq!(decimal_text(7), "7");
    assert_eq!(decimal_text(10), "10");
    assert_eq!(decimal_text(1234567890), "1234567890");
    assert_eq!(decimal_text(u128::MAX), "340282366920938463463374607431768211455");
    let mut text = String::from("n=");
    push_decimal(&mut text, 405);
    assert_eq!(text, "n=405");
}

#[test]
fn repeated_and_right_aligned_texts() {
    let mut text = String::from("a");
    push_repeated(&mut text, "-", 3);
    assert_eq!(text, "a---");
    push_repeated(&mut text, "-", 0);
    assert_eq!(text, "a---");
    push_right_aligned(&mut text, "42", 5);
    assert_eq!(text, "a---   42");
    push_right_aligned(&mut text, "123", 3);
    assert_eq!(text, "a---   42123");
    push_right_aligned(&mut text, "7890", 2);
    assert_eq!(text, "a---   421237890");
}

#[test]
fn slices_between_character_boundaries() {
    let source = "aé\nb";
    assert_eq!(slice(source, 0, 3), "aé");
    assert_eq!(slice(source, 1, 3), "é");
    assert_eq!(slice(source, 4, 5), "b");
    assert_eq!(slice(source, 3, 3), "");
    assert_eq!(slice(source, 0, 5), source);
}

use lang_parser::parse::token_reader::TokenReader;
use lang_parser::range::{Located, Range};
use lang_parser::token::{Keyword, LToken, Symbol, Token};

fn sample() -> Vec<LToken<'static>> {
    vec![
        Located(Token::Keyword(Keyword::If), Range(0, 2)),
        Located(Token::Identifier("x"), Range(3, 4)),
        Located(Token::NewLine { indent: 4 }, Range(4, 9)),
        Located(Token::StringLiteral("s"), Range(9, 12)),
        Located(Token::IntLiteral(7), Range(13, 14)),
        Located(Token::NewLine { indent: 0 }, Range(14, 15)),
        Located(Token::Symbol(Symbol::CloseCurly), Range(15, 16)),
    ]
}

#[test]
fn current_does_not_advance() {
    let reader = TokenReader::new(sample());
    assert_eq!(reader.position(), 0);
    assert_eq!(reader.len(), 7);
    assert_eq!(reader.current(), Some(&Located(Token::Keyword(Keyword::If), Range(0, 2))));
    assert_eq!(reader.curr_token(), Some(Token::Keyword(Keyword::If)));
    assert_eq!(reader.position(), 0);
}

#[test]
fn pop_consumes_one_token_and_yields_none_past_the_end() {
    let mut reader = TokenReader::new(vec![
        Located(Token::Identifier("a"), Range(0, 1)),
        Located(Token::IntLiteral(3), Range(2, 3)),
    ]);
    assert_eq!(reader.pop(), Some(Located(Token::Identifier("a"), Range(0, 1))));
    assert_eq!(reader.position(), 1);
    assert_eq!(reader.pop_token(), Some(Token::IntLiteral(3)));
    assert_eq!(reader.position(), 2);
    assert_eq!(reader.pop(), None);
    assert_eq!(reader.pop_token(), None);
    assert_eq!(reader.current(), None);
    assert_eq!(reader.curr_token(), None);
    assert_eq!(reader.position(), 2);
}

#[test]
fn pop_token_eq_consumes_only_an_equal_token() {
    let mut reader = TokenReader::new(sample());
    assert!(!reader.pop_token_eq(Token::Keyword(Keyword::For)));
    assert_eq!(reader.position(), 0);
    assert!(reader.pop_token_eq(Token::Keyword(Keyword::If)));
    assert_eq!(reader.position(), 1);
    assert!(!reader.pop_token_eq(Token::Identifier("y")));
    assert!(!reader.pop_token_eq(Token::StringLiteral("x")));
    assert_eq!(reader.position(), 1);
    assert!(reader.pop_token_eq(Token::Identifier("x")));
    assert_eq!(reader.position(), 2);
}

#[test]
fn pop_token_eq_does_not_skip_line_breaks() {
    let mut reader = TokenReader::new(vec![
        Located(Token::NewLine { indent: 0 }, Range(0, 1)),
        Located(Token::Keyword(Keyword::Do), Range(1, 3)),
    ]);
    assert!(!reader.pop_token_eq(Token::Keyword(Keyword::Do)));
    assert_eq!(reader.position(), 0);
    assert!(!reader.pop_token_eq(Token::NewLine { indent: 2 }));
    assert!(reader.pop_token_eq(Token::NewLine { indent: 0 }));
    assert!(reader.pop_token_eq(Token::Keyword(Keyword::Do)));
    assert!(!reader.pop_token_eq(Token::Keyword(Keyword::Do)));
}

#[test]
fn typed_pops_extract_the_payload_or_leave_the_cursor() {
    let mut reader = TokenReader::new(sample());
    assert_eq!(reader.pop_token_ident(), None);
    assert_eq!(reader.pop_token_string(), None);
    assert_eq!(reader.pop_token_int(), None);
    assert_eq!(reader.pop_token_newline(), None);
    assert_eq!(reader.position(), 0);
    reader.pop();
    assert_eq!(reader.pop_token_ident(), Some("x"));
    assert_eq!(reader.pop_token_ident(), None);
    assert_eq!(reader.pop_token_newline(), Some(4));
    assert_eq!(reader.pop_token_int(), None);
    assert_eq!(reader.pop_token_string(), Some("s"));
    assert_eq!(reader.pop_token_string(), None);
    assert_eq!(reader.pop_token_int(), Some(7));
    assert_eq!(reader.pop_token_newline(), Some(0));
    assert_eq!(reader.position(), 6);
}

#[test]
fn indent_is_that_of_the_last_line_break_passed() {
    let mut reader = TokenReader::new(sample());
    assert_eq!(reader.indent(), 0);
    reader.pop();
    reader.pop();
    assert_eq!(reader.indent(), 0);
    reader.pop();
    assert_eq!(reader.indent(), 4);
    reader.pop();
    reader.pop();
    assert_eq!(reader.indent(), 4);
    reader.pop();
    assert_eq!(reader.indent(), 0);
    reader.pop();
    assert_eq!(reader.indent(), 0);
}

#[test]
fn pop_indent_in_takes_only_a_deeper_line_break() {
    let mut reader = TokenReader::new(vec![
        Located(Token::NewLine { indent: 2 }, Range(0, 3)),
        Located(Token::NewLine { indent: 2 }, Range(3, 6)),
        Located(Token::NewLine { indent: 1 }, Range(6, 8)),
        Located(Token::NewLine { indent: 5 }, Range(8, 14)),
        Located(Token::Identifier("a"), Range(14, 15)),
    ]);
    assert!(reader.pop_indent_in());
    assert_eq!(reader.indent(), 2);
    assert!(!reader.pop_indent_in());
    assert_eq!(reader.position(), 1);
    reader.pop();
    assert!(!reader.pop_indent_in());
    reader.pop();
    assert_eq!(reader.indent(), 1);
    assert!(reader.pop_indent_in());
    assert_eq!(reader.indent(), 5);
    assert!(!reader.pop_indent_in());
    assert_eq!(reader.position(), 4);
    reader.pop();
    assert!(!reader.pop_indent_in());
}

#[test]
fn pop_indent_same_takes_only_the_given_indentation() {
    let mut reader = TokenReader::new(vec![
        Located(Token::NewLine { indent: 4 }, Range(0, 5)),
        Located(Token::Identifier("a"), Range(5, 6)),
        Located(Token::NewLine { indent: 0 }, Range(6, 7)),
    ]);
    assert!(!reader.pop_indent_same(0));
    assert!(!reader.pop_indent_same(3));
    assert_eq!(reader.position(), 0);
    assert!(reader.pop_indent_same(4));
    assert_eq!(reader.position(), 1);
    assert_eq!(reader.indent(), 4);
    assert!(!reader.pop_indent_same(4));
    reader.pop();
    assert!(!reader.pop_indent_same(4));
    assert!(reader.pop_indent_same(0));
    assert_eq!(reader.indent(), 0);
    assert!(!reader.pop_indent_same(0));
    assert_eq!(reader.position(), 3);
}

#[test]
fn ranges_of_the_current_and_the_previous_token() {
    let mut reader = TokenReader::new(vec![
        Located(Token::Identifier("a"), Range(0, 1)),
        Located(Token::Symbol(Symbol::DoubleColon), Range(1, 3)),
    ]);
    assert_eq!(reader.curr_range(), Range(0, 1));
    assert_eq!(reader.prev_range(), Range(0, 0));
    reader.pop();
    assert_eq!(reader.curr_range(), Range(1, 3));
    assert_eq!(reader.prev_range(), Range(0, 1));
    reader.pop();
    assert_eq!(reader.curr_range(), Range(3, 3));
    assert_eq!(reader.prev_range(), Range(1, 3));
}

#[test]
fn an_empty_token_sequence() {
    let mut reader = TokenReader::new(Vec::new());
    assert_eq!(reader.len(), 0);
    assert_eq!(reader.current(), None);
    assert_eq!(reader.pop(), None);
    assert_eq!(reader.indent(), 0);
    assert_eq!(reader.curr_range(), Range(0, 0));
    assert_eq!(reader.prev_range(), Range(0, 0));
    assert!(!reader.pop_indent_in());
    assert!(!reader.pop_indent_same(0));
}

#[test]
fn tokens_are_equal_by_structure() {
    let owned = String::from("name");
    assert_eq!(Token::Identifier(owned.as_str()), Token::Identifier("name"));
    assert_ne!(Token::Identifier("name"), Token::StringLiteral("name"));
    assert_ne!(Token::Identifier("name"), Token::Identifier("nam"));
    assert_ne!(Token::Identifier("é"), Token::Identifier("e"));
    assert_eq!(Token::NewLine { indent: 3 }, Token::NewLine { indent: 3 });
    assert_ne!(Token::NewLine { indent: 3 }, Token::NewLine { indent: 0 });
    assert_ne!(Token::IntLiteral(3), Token::IntLiteral(-3));
    assert_eq!(Token::from(Keyword::In), Token::Keyword(Keyword::In));
    assert_eq!(Token::from(Symbol::DotDot), Token::Symbol(Symbol::DotDot));
    assert_ne!(Token::Symbol(Symbol::OpenCurly), Token::Symbol(Symbol::CloseCurly));
    assert_ne!(Token::Keyword(Keyword::Do), Token::Symbol(Symbol::Colon));
}

#[test]
fn open_braces_and_parentheses_are_counted_from_the_mark() {
    let mut reader = TokenReader::new(vec![
        Located(Token::Symbol(Symbol::OpenCurly), Range(0, 1)),
        Located(Token::Symbol(Symbol::OpenParen), Range(1, 2)),
        Located(Token::Symbol(Symbol::OpenCurly), Range(2, 3)),
        Located(Token::Symbol(Symbol::CloseCurly), Range(3, 4)),
        Located(Token::Symbol(Symbol::CloseParen), Range(4, 5)),
        Located(Token::Symbol(Symbol::CloseParen), Range(5, 6)),
        Located(Token::Symbol(Symbol::CloseCurly), Range(6, 7)),
        Located(Token::Symbol(Symbol::CloseCurly), Range(7, 8)),
    ]);
    assert_eq!((reader.open_braces(), reader.open_parens()), (0, 0));
    reader.pop();
    assert_eq!((reader.open_braces(), reader.open_parens()), (1, 0));
    reader.mark();
    assert_eq!((reader.open_braces(), reader.open_parens()), (0, 0));
    reader.pop();
    reader.pop();
    assert_eq!((reader.open_braces(), reader.open_parens()), (1, 1));
    reader.pop();
    assert_eq!((reader.open_braces(), reader.open_parens()), (0, 1));
    reader.pop();
    assert_eq!((reader.open_braces(), reader.open_parens()), (0, 0));
    // A closing one where none is open is passed over.
    reader.pop();
    reader.pop();
    assert_eq!((reader.open_braces(), reader.open_parens()), (0, 0));
    assert_eq!(reader.position(), 7);
}

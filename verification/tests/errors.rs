use sexpr_parser::{Expression, Parser, SyntaxError, Token};

fn number(text: &str) -> Token {
    Token::Number(text.to_string())
}

fn identifier(text: &str) -> Token {
    Token::Identifier(text.to_string())
}

fn other(text: &str) -> Token {
    Token::Other(text.to_string())
}

fn unmatched() -> SyntaxError {
    SyntaxError {
        error: "Unmatched Parentheses!".to_string(),
    }
}

fn parse_once(tokens: Vec<Token>) -> Result<Option<Box<Expression>>, SyntaxError> {
    Parser::new(tokens.into_iter()).parse()
}

#[test]
fn stray_closer_is_an_error() {
    assert_eq!(parse_once(vec![Token::RightParen]), Err(unmatched()));
    assert_eq!(
        parse_once(vec![Token::RightParen, number("1")]),
        Err(unmatched())
    );
    assert_eq!(
        parse_once(vec![Token::RightParen, Token::LeftParen]),
        Err(unmatched())
    );
}

#[test]
fn stray_closer_is_not_taken() {
    let mut parser = Parser::new(vec![Token::RightParen, number("1")].into_iter());
    assert_eq!(parser.parse(), Err(unmatched()));
    assert_eq!(parser.parse(), Err(unmatched()));
}

#[test]
fn closer_after_an_expression_is_an_error() {
    let mut parser = Parser::new(vec![number("1"), Token::RightParen].into_iter());
    assert_eq!(
        parser.parse(),
        Ok(Some(Box::new(Expression::Number("1".to_string()))))
    );
    assert_eq!(parser.parse(), Err(unmatched()));
}

#[test]
fn unterminated_list_is_an_error() {
    let open = || Token::LeftParen;
    let close = || Token::RightParen;
    let cases: Vec<Vec<Token>> = vec![
        vec![open(), identifier("+")],
        vec![open(), identifier("+"), number("1")],
        vec![open(), number("1"), number("2"), number("3")],
        vec![open(), identifier("+"), open(), identifier("-"), number("2")],
        vec![open(), identifier("+"), open(), identifier("-"), number("2"), close()],
        vec![open(), identifier("+"), open()],
        vec![open(), open(), identifier("f"), close()],
        vec![open(), open(), identifier("f")],
        vec![
            open(),
            identifier("+"),
            open(),
            identifier("-"),
            number("2"),
            close(),
            open(),
            identifier("*"),
            number("3"),
            close(),
        ],
    ];
    for tokens in cases {
        assert_eq!(parse_once(tokens.clone()), Err(unmatched()), "{:?}", tokens);
    }
}

#[test]
fn unterminated_list_after_a_complete_expression() {
    let tokens = vec![
        number("1"),
        Token::LeftParen,
        identifier("f"),
        number("2"),
    ];
    let mut parser = Parser::new(tokens.into_iter());
    assert_eq!(
        parser.parse(),
        Ok(Some(Box::new(Expression::Number("1".to_string()))))
    );
    assert_eq!(parser.parse(), Err(unmatched()));
    assert_eq!(parser.parse(), Ok(None));
}

#[test]
fn list_cut_off_before_its_operator_is_no_expression() {
    assert_eq!(parse_once(vec![Token::LeftParen]), Ok(None));
    assert_eq!(parse_once(vec![Token::LeftParen, Token::LeftParen]), Ok(None));
    assert_eq!(parse_once(vec![Token::LeftParen, other("'")]), Ok(None));
    assert_eq!(
        parse_once(vec![Token::LeftParen, other("'"), Token::RightParen]),
        Ok(None)
    );
}

#[test]
fn empty_list_is_an_error() {
    assert_eq!(
        parse_once(vec![Token::LeftParen, Token::RightParen]),
        Err(unmatched())
    );
}

#[test]
fn other_token_is_no_expression() {
    let mut parser = Parser::new(vec![other("'"), number("1")].into_iter());
    assert_eq!(parser.parse(), Ok(None));
    assert_eq!(parser.parse(), Ok(None));
}

#[test]
fn other_token_in_a_list_is_an_error() {
    let tokens = vec![
        Token::LeftParen,
        identifier("f"),
        other("#"),
        Token::RightParen,
    ];
    let mut parser = Parser::new(tokens.into_iter());
    assert_eq!(parser.parse(), Err(unmatched()));
    assert_eq!(parser.parse(), Ok(None));
}

#[test]
fn error_in_an_operand_stops_the_parse() {
    let tokens = vec![
        Token::LeftParen,
        identifier("f"),
        Token::LeftParen,
        Token::RightParen,
        number("1"),
        Token::RightParen,
    ];
    let mut parser = Parser::new(tokens.into_iter());
    assert_eq!(parser.parse(), Err(unmatched()));
    assert_eq!(parser.parse(), Err(unmatched()));
}

#[test]
fn input_is_at_its_end_after_an_unterminated_list() {
    let tokens = vec![Token::LeftParen, identifier("f"), number("1")];
    let mut parser = Parser::new(tokens.into_iter());
    assert_eq!(parser.parse(), Err(unmatched()));
    assert_eq!(parser.parse(), Ok(None));
}

#[test]
fn error_message_and_line() {
    let error = parse_once(vec![Token::RightParen]).unwrap_err();
    assert_eq!(error.error, "Unmatched Parentheses!");
    assert_eq!(error.to_string(), "Syntax error: Unmatched Parentheses!");
}

#[test]
fn error_with_any_message() {
    let error = SyntaxError::new("unexpected end");
    assert_eq!(error.error, "unexpected end");
    assert_eq!(error.to_string(), "Syntax error: unexpected end");
    assert_eq!(SyntaxError::new("").to_string(), "Syntax error: ");
    assert_ne!(SyntaxError::new("a"), SyntaxError::new("b"));
}

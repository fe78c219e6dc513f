use sexpr_parser::{Expression, Parser, SyntaxError, Token};

type Result<T> = std::result::Result<T, SyntaxError>;

#[test]
fn empty() -> Result<()> {
    let tokens = Vec::new();
    let mut parser = Parser::new(tokens.into_iter());
    let ast = parser.parse()?;
    assert_eq!(ast, None);
    Ok(())
}

#[test]
fn number() -> Result<()> {
    let tokens = vec![Token::Number("1".to_string())];
    let mut parser = Parser::new(tokens.into_iter());
    let ast = parser.parse()?;
    assert_eq!(ast, Some(Box::new(Expression::Number("1".to_string()))));
    Ok(())
}

#[test]
fn identifier() -> Result<()> {
    let tokens = vec![Token::Identifier("test".to_string())];
    let mut parser = Parser::new(tokens.into_iter());
    let ast = parser.parse()?;
    assert_eq!(ast, Some(Box::new(Expression::Identifier("test".to_string()))));
    Ok(())
}

#[test]
fn procedure_call() -> Result<()> {
    let tokens = vec![
        Token::LeftParen,
        Token::Identifier("+".to_string()),
        Token::Number("1".to_string()),
        Token::Number("2".to_string()),
        Token::Number("3".to_string()),
        Token::RightParen,
    ];
    let mut parser = Parser::new(tokens.into_iter());
    let ast = parser.parse()?;
    assert_eq!(
        ast,
        Some(Box::new(Expression::ProcedureCall(
            Box::new(Expression::Identifier("+".to_string())),
            vec![
                Box::new(Expression::Number("1".to_string())),
                Box::new(Expression::Number("2".to_string())),
                Box::new(Expression::Number("3".to_string())),
            ]
        )))
    );
    Ok(())
}

#[test]
fn unmatched_parantheses() {
    let tokens = vec![
        Token::LeftParen,
        Token::Identifier("+".to_string()),
        Token::Number("1".to_string()),
        Token::Number("2".to_string()),
        Token::Number("3".to_string()),
    ];
    let mut parser = Parser::new(tokens.into_iter());
    assert_eq!(
        parser.parse(),
        Err(SyntaxError {
            error: "Unmatched Parentheses!".to_string()
        })
    );
}

#[test]
fn nested_procedure_call() -> Result<()> {
    let tokens = vec![
        Token::LeftParen,
        Token::Identifier("+".to_string()),
        Token::Number("1".to_string()),
        Token::LeftParen,
        Token::Identifier("-".to_string()),
        Token::Number("2".to_string()),
        Token::Number("3".to_string()),
        Token::RightParen,
        Token::RightParen,
    ];
    let mut parser = Parser::new(tokens.into_iter());
    let ast = parser.parse()?;
    assert_eq!(
        ast,
        Some(Box::new(Expression::ProcedureCall(
            Box::new(Expression::Identifier("+".to_string())),
            vec![
                Box::new(Expression::Number("1".to_string())),
                Box::new(Expression::ProcedureCall(
                    Box::new(Expression::Identifier("-".to_string())),
                    vec![
                        Box::new(Expression::Number("2".to_string())),
                        Box::new(Expression::Number("3".to_string()))
                    ]
                )),
            ]
        )))
    );
    Ok(())
}

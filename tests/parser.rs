use rustlox::parse::{BinaryOp, Expression, ParseError, Parser, Statement, UnaryOp};
use rustlox::scanner::{Scanner, Token, TokenType};

fn parse(source: &str) -> Result<Vec<Statement>, ParseError> {
    let mut parser = Parser::new(Scanner::new(source).scan_tokens());
    parser.parse()
}

fn num(text: &str) -> Box<Expression> {
    Box::new(Expression::Number(text.to_string()))
}

#[test]
fn parse_number_literal_statement() {
    for n in ["0", "7", "123", "12.5", "0.25"] {
        let source = format!("{};", n);
        assert_eq!(
            parse(&source),
            Ok(vec![Statement::ExprStmt(Expression::Number(n.to_string()))])
        );
    }
}

#[test]
fn parse_multiplication_binds_tighter() {
    assert_eq!(
        parse("1 + 2 * 3;"),
        Ok(vec![Statement::ExprStmt(Expression::Binary(
            num("1"),
            BinaryOp::Add,
            Box::new(Expression::Binary(num("2"), BinaryOp::Multiply, num("3"))),
        ))])
    );
}

#[test]
fn parse_grouping_overrides_precedence() {
    assert_eq!(
        parse("(1 + 2) * 3;"),
        Ok(vec![Statement::ExprStmt(Expression::Binary(
            Box::new(Expression::Grouping(Box::new(Expression::Binary(
                num("1"),
                BinaryOp::Add,
                num("2"),
            )))),
            BinaryOp::Multiply,
            num("3"),
        ))])
    );
}

#[test]
fn parse_binary_levels_are_left_associative() {
    assert_eq!(
        parse("1 - 2 - 3;"),
        Ok(vec![Statement::ExprStmt(Expression::Binary(
            Box::new(Expression::Binary(num("1"), BinaryOp::Subtract, num("2"))),
            BinaryOp::Subtract,
            num("3"),
        ))])
    );
}

#[test]
fn parse_comparison_and_equality() {
    assert_eq!(
        parse("1 < 2 == true;"),
        Ok(vec![Statement::ExprStmt(Expression::Binary(
            Box::new(Expression::Binary(num("1"), BinaryOp::Less, num("2"))),
            BinaryOp::Equal,
            Box::new(Expression::True),
        ))])
    );
}

#[test]
fn parse_unary_operators() {
    assert_eq!(
        parse("!-x;"),
        Ok(vec![Statement::ExprStmt(Expression::Unary(
            UnaryOp::Not,
            Box::new(Expression::Unary(
                UnaryOp::Negate,
                Box::new(Expression::Variable("x".to_string())),
            )),
        ))])
    );
}

#[test]
fn parse_assignment_is_right_associative() {
    assert_eq!(
        parse("a = b = nil;"),
        Ok(vec![Statement::ExprStmt(Expression::Assign(
            "a".to_string(),
            Box::new(Expression::Assign("b".to_string(), Box::new(Expression::Nil))),
        ))])
    );
}

#[test]
fn parse_declarations_and_print() {
    assert_eq!(
        parse("var a; var b = \"s\"; print false;"),
        Ok(vec![
            Statement::VarDecl("a".to_string(), None),
            Statement::VarDecl("b".to_string(), Some(Expression::Literal("s".to_string()))),
            Statement::PrintStmt(Expression::False),
        ])
    );
}

#[test]
fn parse_empty_input() {
    assert_eq!(parse(""), Ok(vec![]));
    assert_eq!(parse("// nothing"), Ok(vec![]));
}

#[test]
fn parse_rejects_invalid_assignment_target() {
    assert_eq!(parse("1 = 2;"), Err(ParseError::InvalidAssignmentTarget { line: 1 }));
    assert_eq!(
        parse("\n(a) = 2;"),
        Err(ParseError::InvalidAssignmentTarget { line: 2 })
    );
}

#[test]
fn parse_reports_missing_semicolon() {
    assert_eq!(
        parse("print 1"),
        Err(ParseError::MissingToken { expected: TokenType::Semicolon, line: 1 })
    );
}

#[test]
fn parse_reports_missing_parenthesis() {
    assert_eq!(
        parse("(1;"),
        Err(ParseError::MissingToken { expected: TokenType::RightParen, line: 1 })
    );
}

#[test]
fn parse_reports_missing_variable_name() {
    assert_eq!(
        parse("var 1;"),
        Err(ParseError::MissingToken { expected: TokenType::Identifier, line: 1 })
    );
}

#[test]
fn parse_reports_expected_expression() {
    assert_eq!(parse("\n\n;"), Err(ParseError::ExpectedExpression { line: 3 }));
    assert_eq!(parse("1 + @;"), Err(ParseError::ExpectedExpression { line: 1 }));
}

#[test]
fn parse_stops_at_first_error() {
    assert_eq!(parse("print 1; print ; print 2;"), Err(ParseError::ExpectedExpression { line: 1 }));
}

#[test]
fn parse_expression_alone() {
    let tokens = vec![
        Token::new(TokenType::Number, "4", "4", 1),
        Token::new(TokenType::Star, "*", "", 1),
        Token::new(TokenType::Identifier, "y", "", 1),
        Token::new(TokenType::Eof, "", "", 1),
    ];
    let mut parser = Parser::new(tokens);
    assert_eq!(
        parser.expression(),
        Ok(Expression::Binary(
            num("4"),
            BinaryOp::Multiply,
            Box::new(Expression::Variable("y".to_string())),
        ))
    );
}

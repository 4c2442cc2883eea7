use my_calculator::lexer::{Lexer, Token};
use my_calculator::parser::{ASTNode, ParseError, Parser};

fn number(text: &str) -> f64 {
    text.parse().unwrap()
}

fn lex_input(input: &str) -> Vec<Token<f64>> {
    let mut lexer = Lexer::new();
    lexer.tokenize(input, &number);
    lexer.tokens
}

fn parse(input: &str) -> Result<ASTNode<f64>, ParseError> {
    let mut parser = Parser::new(lex_input(input), 2.0);
    parser.parse_expression()
}

#[test]
fn test_simple_addition() {
    let tokens = lex_input("2 + 3");
    let mut parser = Parser::new(tokens, 2.0);
    let ast = parser.parse_expression().unwrap();

    assert_eq!(
        ast,
        ASTNode::BinaryOp {
            left: Box::new(ASTNode::Number(2.0)),
            op: Token::Plus,
            right: Box::new(ASTNode::Number(3.0)),
        }
    );
}

#[test]
fn parser_test_constants() {
    let tokens = lex_input("pi + e");
    let mut parser = Parser::new(tokens, 2.0);
    let ast = parser.parse_expression().unwrap();

    assert_eq!(
        ast,
        ASTNode::BinaryOp {
            left: Box::new(ASTNode::Pi),
            op: Token::Plus,
            right: Box::new(ASTNode::Euler),
        }
    );
}

#[test]
fn parser_test_unary_operations() {
    let tokens = lex_input("-5!");
    let mut parser = Parser::new(tokens, 2.0);
    let ast = parser.parse_expression().unwrap();

    assert_eq!(
        ast,
        ASTNode::UnaryOp {
            op: Token::Minus,
            operand: Box::new(ASTNode::UnaryOp {
                op: Token::Fact,
                operand: Box::new(ASTNode::Number(5.0)),
            }),
        }
    );
}

#[test]
fn test_function_call() {
    let tokens = lex_input("sin(pi)");
    let mut parser = Parser::new(tokens, 2.0);
    let ast = parser.parse_expression().unwrap();

    assert_eq!(
        ast,
        ASTNode::Function {
            func: Token::Sin,
            argument: Box::new(ASTNode::Pi),
        }
    );
}

#[test]
fn test_grouping_and_precedence() {
    let tokens = lex_input("(2 + 3) * 4");
    let mut parser = Parser::new(tokens, 2.0);
    let ast = parser.parse_expression().unwrap();

    assert_eq!(
        ast,
        ASTNode::BinaryOp {
            left: Box::new(ASTNode::Grouping(Box::new(ASTNode::BinaryOp {
                left: Box::new(ASTNode::Number(2.0)),
                op: Token::Plus,
                right: Box::new(ASTNode::Number(3.0)),
            }))),
            op: Token::Multiply,
            right: Box::new(ASTNode::Number(4.0)),
        }
    );
}

#[test]
fn test_complex_expression() {
    let tokens = lex_input("3 + sin(2 * pi) - log(2,10) ^ 2");
    let mut parser = Parser::new(tokens, 2.0);
    let ast = parser.parse_expression().unwrap();

    assert_eq!(
        ast,
        ASTNode::BinaryOp {
            left: Box::new(ASTNode::BinaryOp {
                left: Box::new(ASTNode::Number(3.0)),
                op: Token::Plus,
                right: Box::new(ASTNode::Function {
                    func: Token::Sin,
                    argument: Box::new(ASTNode::BinaryOp {
                        left: Box::new(ASTNode::Number(2.0)),
                        op: Token::Multiply,
                        right: Box::new(ASTNode::Pi),
                    }),
                }),
            }),
            op: Token::Minus,
            right: Box::new(ASTNode::BinaryOp {
                left: Box::new(ASTNode::LogBase {
                    base: Box::new(ASTNode::Number(2.0)),
                    number: Box::new(ASTNode::Number(10.0)),
                }),
                op: Token::Exponent,
                right: Box::new(ASTNode::Number(2.0)),
            }),
        }
    );
}

#[test]
fn check_factorial_after_functions() {
    let tokens = lex_input("sin(30) + 4!");
    let mut parser = Parser::new(tokens, 2.0);
    let ast = parser.parse_expression().unwrap();

    assert_eq!(
        ast,
        ASTNode::BinaryOp {
            left: Box::new(ASTNode::Function { func: Token::Sin, argument: Box::new(ASTNode::Number(30.0)) }),
            op: Token::Plus,
            right: Box::new(ASTNode::UnaryOp { op: Token::Fact, operand: Box::new(ASTNode::Number(4.0)) }),
        }
    );
}

fn num(v: f64) -> Box<ASTNode<f64>> {
    Box::new(ASTNode::Number(v))
}

#[test]
fn log_with_one_argument_takes_default_base() {
    assert_eq!(
        parse("log(10)").unwrap(),
        ASTNode::LogBase { base: num(2.0), number: num(10.0) }
    );
}

#[test]
fn log_with_two_arguments() {
    assert_eq!(
        parse("log(3, 9)").unwrap(),
        ASTNode::LogBase { base: num(3.0), number: num(9.0) }
    );
}

#[test]
fn subtraction_is_left_associative() {
    assert_eq!(
        parse("8 - 3 - 2").unwrap(),
        ASTNode::BinaryOp {
            left: Box::new(ASTNode::BinaryOp { left: num(8.0), op: Token::Minus, right: num(3.0) }),
            op: Token::Minus,
            right: num(2.0),
        }
    );
}

#[test]
fn exponent_binds_tighter_than_product() {
    assert_eq!(
        parse("2 * 3 ^ 2").unwrap(),
        ASTNode::BinaryOp {
            left: num(2.0),
            op: Token::Multiply,
            right: Box::new(ASTNode::BinaryOp { left: num(3.0), op: Token::Exponent, right: num(2.0) }),
        }
    );
}

#[test]
fn chained_negation() {
    assert_eq!(
        parse("- - 4").unwrap(),
        ASTNode::UnaryOp {
            op: Token::Minus,
            operand: Box::new(ASTNode::UnaryOp { op: Token::Minus, operand: num(4.0) }),
        }
    );
}

#[test]
fn factorial_after_grouping_and_log() {
    assert_eq!(
        parse("(3)!").unwrap(),
        ASTNode::UnaryOp { op: Token::Fact, operand: Box::new(ASTNode::Grouping(num(3.0))) }
    );
    assert_eq!(
        parse("log(8)!").unwrap(),
        ASTNode::UnaryOp {
            op: Token::Fact,
            operand: Box::new(ASTNode::LogBase { base: num(2.0), number: num(8.0) }),
        }
    );
}

#[test]
fn factorial_does_not_chain() {
    assert_eq!(parse("3!!"), Err(ParseError::TrailingInput));
}

#[test]
fn operands_without_operator_are_trailing_input() {
    assert_eq!(parse("2 3 4"), Err(ParseError::TrailingInput));
    assert_eq!(parse("2 + 3 # 4"), Err(ParseError::TrailingInput));
    assert_eq!(parse("(2)(3)"), Err(ParseError::TrailingInput));
}

#[test]
fn parse_errors() {
    assert_eq!(parse("(2 + 3"), Err(ParseError::ExpectedRightParen));
    assert_eq!(parse("log 2"), Err(ParseError::ExpectedLogParen));
    assert_eq!(parse("log(2, 3"), Err(ParseError::ExpectedLogClose));
    assert_eq!(parse("sin 30"), Err(ParseError::ExpectedFunctionParen));
    assert_eq!(parse("sin(30"), Err(ParseError::ExpectedFunctionClose));
    assert_eq!(parse("2 +"), Err(ParseError::UnexpectedToken));
    assert_eq!(parse("2 )"), Err(ParseError::TrailingInput));
    let mut parser = Parser::new(Vec::<Token<f64>>::new(), 2.0);
    assert_eq!(parser.parse_expression(), Err(ParseError::UnexpectedEnd));
}

#[test]
fn parse_error_messages() {
    assert_eq!(ParseError::ExpectedRightParen.message(), "Expected right parenthesis");
    assert_eq!(
        ParseError::TrailingInput.message(),
        "Unexpected input after end of expression"
    );
}

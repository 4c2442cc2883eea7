use my_calculator::evaluator::{EvalError, Evaluator, Operation};
use my_calculator::lexer::{Lexer, Token};
use my_calculator::parser::{ASTNode, Parser};
use std::f64::consts::{E, PI};

fn truncate_number(value: f64) -> f64 {
    (value * 100.0).round() / 100.0
}

// Floating-point arithmetic for the tests, as a caller of the library supplies it.
fn compute(op: Operation<f64>) -> Result<f64, EvalError> {
    match op {
        Operation::Binary(left, op, right) => match op {
            Token::Plus => Ok(left + right),
            Token::Minus => Ok(left - right),
            Token::Multiply => Ok(left * right),
            Token::Divide => {
                if right == 0.0 {
                    Err(EvalError::DivisionByZero)
                } else {
                    Ok(left / right)
                }
            }
            Token::Exponent => Ok(left.powf(right)),
            _ => Err(EvalError::UnknownBinaryOperator),
        },
        Operation::Unary(op, operand) => match op {
            Token::Minus => Ok(-operand),
            Token::Fact => {
                if operand != operand.floor() || operand < 0.0 {
                    return Err(EvalError::FactorialDomain);
                }
                let n = operand as u64;
                Ok((1..=n).map(|x| x as f64).product())
            }
            _ => Err(EvalError::UnknownUnaryOperator),
        },
        Operation::Function(func, arg) => match func {
            Token::Sin => Ok(truncate_number(arg.to_radians().sin())),
            Token::Cos => Ok(truncate_number(arg.to_radians().cos())),
            Token::Sqrt => {
                if arg < 0.0 {
                    Err(EvalError::SqrtOfNegative)
                } else {
                    Ok(arg.sqrt())
                }
            }
            Token::Tg => {
                let radians = arg.to_radians();
                if (radians / (PI / 2.0)).rem_euclid(2.0).abs() < 1e-10 {
                    Err(EvalError::TgUndefined)
                } else {
                    Ok(truncate_number(radians.tan()))
                }
            }
            Token::Cotg => {
                let radians = arg.to_radians();
                if (radians / PI).rem_euclid(1.0).abs() < 1e-10 {
                    Err(EvalError::CotgUndefined)
                } else {
                    Ok(truncate_number(1.0 / radians.tan()))
                }
            }
            _ => Err(EvalError::UnknownFunction),
        },
        Operation::Log(base, number) => {
            if base <= 0.0 {
                Err(EvalError::LogBaseNotPositive)
            } else if (base - 1.0).abs() <= f64::EPSILON {
                Err(EvalError::LogBaseIsOne)
            } else if number <= 0.0 {
                Err(EvalError::LogOfNonPositive)
            } else {
                Ok(number.ln() / base.ln())
            }
        }
        Operation::Pi => Ok(truncate_number(PI)),
        Operation::Euler => Ok(truncate_number(E)),
    }
}

fn show(value: f64) -> String {
    format!("{}", value)
}

fn number(text: &str) -> f64 {
    text.parse().unwrap()
}

fn parse(input: &str) -> ASTNode<f64> {
    let mut lexer = Lexer::new();
    lexer.tokenize(input, &number);
    Parser::new(lexer.tokens, 2.0).parse_expression().unwrap()
}

fn run(input: &str) -> (Result<f64, EvalError>, Vec<String>) {
    let mut evaluator = Evaluator::new();
    let result = evaluator.evaluate_and_print(parse(input), &compute, &show);
    (result, evaluator.get_evaluation_steps())
}

#[test]
fn test_basic_arithmetic() {
    let mut evaluator = Evaluator::new();

    let ast = ASTNode::BinaryOp {
        left: Box::new(ASTNode::Number(5.0)),
        op: Token::Plus,
        right: Box::new(ASTNode::Number(3.0)),
    };
    let result = evaluator.evaluate_and_print(ast, &compute, &show).unwrap();
    assert_eq!(result, 8.0);

    let ast = ASTNode::BinaryOp {
        left: Box::new(ASTNode::Number(5.0)),
        op: Token::Multiply,
        right: Box::new(ASTNode::Number(3.0)),
    };
    let result = evaluator.evaluate_and_print(ast, &compute, &show).unwrap();
    assert_eq!(result, 15.0);
}

#[test]
fn test_trigonometric_functions() {
    let mut evaluator = Evaluator::new();

    let ast = ASTNode::Function {
        func: Token::Sin,
        argument: Box::new(ASTNode::Number(30.0)),
    };
    let result = evaluator.evaluate_and_print(ast, &compute, &show).unwrap();
    assert_eq!(result, 0.5);

    let ast = ASTNode::Function {
        func: Token::Cos,
        argument: Box::new(ASTNode::Number(60.0)),
    };
    let result = evaluator.evaluate_and_print(ast, &compute, &show).unwrap();
    assert_eq!(result, 0.5);
}

#[test]
fn evaluator_test_unary_operations() {
    let mut evaluator = Evaluator::new();

    let ast = ASTNode::UnaryOp {
        op: Token::Minus,
        operand: Box::new(ASTNode::Number(7.0)),
    };
    assert_eq!(evaluator.evaluate_and_print(ast, &compute, &show).unwrap(), -7.0);

    let ast = ASTNode::UnaryOp {
        op: Token::Fact,
        operand: Box::new(ASTNode::Number(5.0)),
    };
    assert_eq!(evaluator.evaluate_and_print(ast, &compute, &show).unwrap(), 120.0);
}

#[test]
fn evaluator_test_constants() {
    let mut evaluator = Evaluator::new();

    let ast = ASTNode::Pi;
    assert_eq!(evaluator.evaluate_and_print(ast, &compute, &show).unwrap(), 3.14);

    let ast = ASTNode::Euler;
    assert_eq!(evaluator.evaluate_and_print(ast, &compute, &show).unwrap(), 2.72);
}

#[test]
fn test_nested_expressions() {
    let mut evaluator = Evaluator::new();

    let ast = ASTNode::BinaryOp {
        left: Box::new(ASTNode::Number(3.0)),
        op: Token::Plus,
        right: Box::new(ASTNode::BinaryOp {
            left: Box::new(ASTNode::Number(4.0)),
            op: Token::Multiply,
            right: Box::new(ASTNode::Number(2.0)),
        }),
    };
    // 3 + (4 * 2) = 3 + 8 = 11
    assert_eq!(evaluator.evaluate_and_print(ast, &compute, &show).unwrap(), 11.0);
}

#[test]
fn test_edge_case_trigonometric() {
    let mut evaluator = Evaluator::new();

    let ast = ASTNode::Function {
        func: Token::Tg,
        argument: Box::new(ASTNode::Number(89.999)),
    };
    let result = evaluator.evaluate_and_print(ast, &compute, &show).unwrap();
    assert!(result.is_finite());

    let ast = ASTNode::Function {
        func: Token::Cotg,
        argument: Box::new(ASTNode::Number(179.999)),
    };
    let result = evaluator.evaluate_and_print(ast, &compute, &show).unwrap();
    assert!(result.is_finite());
}

#[test]
#[should_panic(expected = "Can't divide number by 0")]
fn test_division_by_zero() {
    let mut evaluator = Evaluator::new();

    let ast = ASTNode::BinaryOp {
        left: Box::new(ASTNode::Number(5.0)),
        op: Token::Divide,
        right: Box::new(ASTNode::Number(0.0)),
    };
    let result = evaluator.evaluate_and_print(ast, &compute, &show);
    match result {
        Ok(_) => println!("Didn't panic!"),
        Err(e) => panic!("{}", e.message()),
    }
}

#[test]
fn single_operations_give_the_operation_result() {
    assert_eq!(run("2 + 3").0, Ok(5.0));
    assert_eq!(run("2 - 3").0, Ok(-1.0));
    assert_eq!(run("2 * 3").0, Ok(6.0));
    assert_eq!(run("1 / 4").0, Ok(0.25));
    assert_eq!(run("1 / 3").0, Ok(1.0 / 3.0));
    assert_eq!(run("2 ^ 10").0, Ok(1024.0));
    assert_eq!(run("5 / 0").0, Err(EvalError::DivisionByZero));
}

#[test]
fn grouping_does_not_change_the_value() {
    assert_eq!(run("(2 + 3) * 4").0, Ok(20.0));
    assert_eq!(run("((7))").0, Ok(7.0));
    assert_eq!(run("(2 + 3)").0, run("2 + 3").0);
}

#[test]
fn sine_of_thirty_degrees() {
    assert_eq!(run("sin(30)").0, Ok(0.5));
}

#[test]
fn factorials() {
    assert_eq!(run("5!").0, Ok(120.0));
    assert_eq!(run("0!").0, Ok(1.0));
    assert_eq!(run("(-1)!").0, Err(EvalError::FactorialDomain));
    assert_eq!(run("2.5!").0, Err(EvalError::FactorialDomain));
}

#[test]
fn logarithms() {
    assert_eq!(run("log(8)").0, Ok(8f64.ln() / 2f64.ln()));
    assert_eq!(run("log(2,10)").0, Ok(10f64.ln() / 2f64.ln()));
    assert_eq!(run("log(10)").0, run("log(2,10)").0);
    assert_eq!(run("log(0, 5)").0, Err(EvalError::LogBaseNotPositive));
    assert_eq!(run("log(1, 5)").0, Err(EvalError::LogBaseIsOne));
    assert_eq!(run("log(2, 0)").0, Err(EvalError::LogOfNonPositive));
}

#[test]
fn step_log_of_nested_expression() {
    let (result, steps) = run("2 + 3 * 4");
    assert_eq!(result, Ok(14.0));
    assert_eq!(steps, vec!["= 2 + 3 * 4", "= 2 + 12", "= 14"]);
}

#[test]
fn step_log_shows_grouping_until_it_collapses() {
    let (result, steps) = run("(1 + 2) * (3 + 4)");
    assert_eq!(result, Ok(21.0));
    assert_eq!(
        steps,
        vec!["= (1 + 2) * (3 + 4)", "= 3 * (3 + 4)", "= 3 * 7", "= 21"]
    );
}

#[test]
fn step_log_renders_functions_constants_and_log() {
    let (_, steps) = run("sqrt(16) * pi");
    assert_eq!(steps, vec!["= sqrt(16) * π", "= 4 * π", "= 4 * 3.14", "= 12.56"]);
    // Both arguments of a logarithm are reduced in the same step as the
    // logarithm itself once they are numbers.
    let v = 4f64.ln() / 2f64.ln();
    let (_, steps) = run("log(2 + 2) + 1");
    assert_eq!(
        steps,
        vec![
            String::from("= log(2,2 + 2) + 1"),
            format!("= {} + 1", v),
            format!("= {}", v + 1.0)
        ]
    );
}

#[test]
fn step_log_keeps_only_lines_before_an_error() {
    let (result, steps) = run("1 + 2 / 0");
    assert_eq!(result, Err(EvalError::DivisionByZero));
    assert_eq!(steps, vec!["= 1 + 2 / 0"]);
}

#[test]
fn step_log_of_a_number_is_its_value() {
    let (result, steps) = run("42");
    assert_eq!(result, Ok(42.0));
    assert_eq!(steps, vec!["= 42"]);
}

#[test]
fn value_line_is_not_repeated() {
    let (result, steps) = run("-7");
    assert_eq!(result, Ok(-7.0));
    assert_eq!(steps, vec!["= -7"]);
}

#[test]
fn reducing_a_number_returns_it_unchanged() {
    let reduced = Evaluator::reduce_ast(ASTNode::Number(5.0), &compute);
    assert_eq!(reduced, Ok(ASTNode::Number(5.0)));
}

#[test]
fn one_reduction_step_is_innermost_and_leftmost() {
    let reduced = Evaluator::reduce_ast(parse("(1 + 2) * (3 + 4)"), &compute).unwrap();
    assert_eq!(reduced, parse("3 * (3 + 4)"));
    let reduced = Evaluator::reduce_ast(parse("log(pi, 1 + 1)"), &compute).unwrap();
    assert_eq!(reduced, ASTNode::Number(2f64.ln() / 3.14f64.ln()));
}

#[test]
fn rendering_without_arithmetic() {
    let text = Evaluator::ast_to_string(&parse("-(1 + 2) ^ 3 / e"), &show);
    assert_eq!(text, "-(1 + 2) ^ 3 / e");
}

#[test]
fn evaluation_error_messages() {
    assert_eq!(EvalError::DivisionByZero.message(), "Can't divide number by 0");
    assert_eq!(
        EvalError::FactorialDomain.message(),
        "Factorial is only defined for non-negative integers!"
    );
}

#[test]
fn unknown_operator_in_a_hand_built_tree() {
    let ast = ASTNode::BinaryOp {
        left: Box::new(ASTNode::Number(1.0)),
        op: Token::Comma,
        right: Box::new(ASTNode::Number(2.0)),
    };
    let mut evaluator = Evaluator::new();
    assert_eq!(
        evaluator.evaluate_and_print(ast, &compute, &show),
        Err(EvalError::UnknownBinaryOperator)
    );
    assert_eq!(evaluator.get_evaluation_steps(), vec!["= 1 Unknown binary operator 2"]);
}

#[test]
fn render_then_reparse_keeps_the_value() {
    let ast = parse("(2 + 3) * 4");
    let text = Evaluator::ast_to_string(&ast, &show);
    assert_eq!(text, "(2 + 3) * 4");
    let again = parse(&text);
    assert_eq!(again, ast);
    let mut evaluator = Evaluator::new();
    assert_eq!(evaluator.evaluate_and_print(again, &compute, &show), Ok(20.0));
}

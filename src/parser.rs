use vstd::prelude::*;

use crate::lexer::Token;

verus! {

/// The syntax tree of an expression. Every inner node owns its children.
#[derive(Debug, PartialEq)]
pub enum ASTNode<N> {
    Number(N),
    Pi,
    Euler,
    BinaryOp { left: Box<ASTNode<N>>, op: Token<N>, right: Box<ASTNode<N>> },
    UnaryOp { op: Token<N>, operand: Box<ASTNode<N>> },
    Function { func: Token<N>, argument: Box<ASTNode<N>> },
    LogBase { base: Box<ASTNode<N>>, number: Box<ASTNode<N>> },
    Grouping(Box<ASTNode<N>>),
}

/// Why a token sequence is not an expression.
#[derive(Debug, PartialEq, Clone, Copy)]
pub enum ParseError {
    TrailingInput,
    ExpectedRightParen,
    ExpectedLogParen,
    ExpectedLogClose,
    ExpectedFunctionParen,
    ExpectedFunctionClose,
    UnexpectedToken,
    UnexpectedEnd,
}

impl ParseError {
    pub open spec fn text(self) -> Seq<char> {
        match self {
            ParseError::TrailingInput => "Unexpected input after end of expression"@,
            ParseError::ExpectedRightParen => "Expected right parenthesis"@,
            ParseError::ExpectedLogParen => "Expected '(' after log function"@,
            ParseError::ExpectedLogClose => "After the log function arguments there should be ')'"@,
            ParseError::ExpectedFunctionParen => "Expected '(' after function name"@,
            ParseError::ExpectedFunctionClose => "Expected right parenthesis after function argument"@,
            ParseError::UnexpectedToken => "Unexpected token"@,
            ParseError::UnexpectedEnd => "Unexpected end of input"@,
        }
    }

    /// The human-readable message for this error.
    pub fn message(&self) -> (r: String)
        ensures
            r@ == self.text(),
    {
        match self {
            ParseError::TrailingInput => String::from_str("Unexpected input after end of expression"),
            ParseError::ExpectedRightParen => String::from_str("Expected right parenthesis"),
            ParseError::ExpectedLogParen => String::from_str("Expected '(' after log function"),
            ParseError::ExpectedLogClose => String::from_str(
                "After the log function arguments there should be ')'",
            ),
            ParseError::ExpectedFunctionParen => String::from_str("Expected '(' after function name"),
            ParseError::ExpectedFunctionClose => String::from_str(
                "Expected right parenthesis after function argument",
            ),
            ParseError::UnexpectedToken => String::from_str("Unexpected token"),
            ParseError::UnexpectedEnd => String::from_str("Unexpected end of input"),
        }
    }
}

/// Binding strength of a binary operator; every other token has strength 0.
pub open spec fn precedence<N>(t: Token<N>) -> nat {
    match t {
        Token::Plus | Token::Minus => 1,
        Token::Multiply | Token::Divide => 2,
        Token::Exponent => 3,
        _ => 0,
    }
}

/// The named single-argument functions.
pub open spec fn is_function_name<N>(t: Token<N>) -> bool {
    match t {
        Token::Sin | Token::Cos | Token::Tg | Token::Cotg | Token::Ln | Token::Sqrt | Token::Abs
        | Token::Sec | Token::Csc | Token::Asin | Token::Acos | Token::Atg | Token::Actg => true,
        _ => false,
    }
}

pub open spec fn token_at<N>(ts: Seq<Token<N>>, i: int) -> Option<Token<N>> {
    if 0 <= i < ts.len() {
        Some(ts[i])
    } else {
        None
    }
}

/// How many tokens lie at or after position `i`.
pub open spec fn remaining(len: int, i: int) -> nat {
    if i < len {
        (len - i) as nat
    } else {
        0
    }
}

pub open spec fn factorial_of<N>(node: ASTNode<N>) -> ASTNode<N> {
    ASTNode::UnaryOp { op: Token::Fact, operand: Box::new(node) }
}

/// A primary expression whose last token is at `i - 1`, followed by an
/// optional factorial sign at `i`: the node and the number of tokens taken.
pub open spec fn with_postfix<N>(ts: Seq<Token<N>>, node: ASTNode<N>, i: int) -> (ASTNode<N>, nat) {
    if token_at(ts, i) == Some(Token::<N>::Fact) {
        (factorial_of(node), 1)
    } else {
        (node, 0)
    }
}

// In the three functions below a result `Ok((node, k))` of `primary` or
// `binary` at `i` spans the tokens `i ..= i + k`; one of `climb` at `i` spans
// `i .. i + k`.

/// The primary expression that starts at token `i`.
pub open spec fn primary<N>(ts: Seq<Token<N>>, i: int, two: N) -> Result<(ASTNode<N>, nat), ParseError>
    decreases remaining(ts.len() as int, i), 0nat,
{
    match token_at(ts, i) {
        None => Err(ParseError::UnexpectedEnd),
        Some(t) => match t {
            Token::Number(v) => {
                let (node, p) = with_postfix(ts, ASTNode::Number(v), i + 1);
                Ok((node, p))
            },
            Token::Pi => Ok(with_postfix(ts, ASTNode::Pi, i + 1)),
            Token::Euler => Ok(with_postfix(ts, ASTNode::Euler, i + 1)),
            Token::Minus => match primary(ts, i + 1, two) {
                Ok((e, k)) => Ok((ASTNode::UnaryOp { op: Token::Minus, operand: Box::new(e) }, k + 1)),
                Err(x) => Err(x),
            },
            Token::LParen => match binary(ts, i + 1, 0, two) {
                Ok((e, k)) => {
                    let j = i + 2 + k;
                    if token_at(ts, j) == Some(Token::<N>::RParen) {
                        let (node, p) = with_postfix(ts, ASTNode::Grouping(Box::new(e)), j + 1);
                        Ok((node, k + 2 + p))
                    } else {
                        Err(ParseError::ExpectedRightParen)
                    }
                },
                Err(x) => Err(x),
            },
            Token::Log => if token_at(ts, i + 1) != Some(Token::<N>::LParen) {
                Err(ParseError::ExpectedLogParen)
            } else {
                match binary(ts, i + 2, 0, two) {
                    Ok((first, k)) => {
                        let j = i + 3 + k;
                        if token_at(ts, j) == Some(Token::<N>::Comma) {
                            match binary(ts, j + 1, 0, two) {
                                Ok((second, m)) => {
                                    let c = j + 2 + m;
                                    if token_at(ts, c) == Some(Token::<N>::RParen) {
                                        let node = ASTNode::LogBase { base: Box::new(first), number: Box::new(second) };
                                        let (node, p) = with_postfix(ts, node, c + 1);
                                        Ok((node, k + m + 5 + p))
                                    } else {
                                        Err(ParseError::ExpectedLogClose)
                                    }
                                },
                                Err(x) => Err(x),
                            }
                        } else if token_at(ts, j) == Some(Token::<N>::RParen) {
                            let node = ASTNode::LogBase {
                                base: Box::new(ASTNode::Number(two)),
                                number: Box::new(first),
                            };
                            let (node, p) = with_postfix(ts, node, j + 1);
                            Ok((node, k + 3 + p))
                        } else {
                            Err(ParseError::ExpectedLogClose)
                        }
                    },
                    Err(x) => Err(x),
                }
            },
            _ => if is_function_name(t) {
                if token_at(ts, i + 1) != Some(Token::<N>::LParen) {
                    Err(ParseError::ExpectedFunctionParen)
                } else {
                    match binary(ts, i + 2, 0, two) {
                        Ok((a, k)) => {
                            let j = i + 3 + k;
                            if token_at(ts, j) == Some(Token::<N>::RParen) {
                                let node = ASTNode::Function { func: t, argument: Box::new(a) };
                                let (node, p) = with_postfix(ts, node, j + 1);
                                Ok((node, k + 3 + p))
                            } else {
                                Err(ParseError::ExpectedFunctionClose)
                            }
                        },
                        Err(x) => Err(x),
                    }
                }
            } else {
                Err(ParseError::UnexpectedToken)
            },
        },
    }
}

/// A chain of binary operators of strength at least `min` that starts at `i`.
pub open spec fn binary<N>(ts: Seq<Token<N>>, i: int, min: nat, two: N) -> Result<(ASTNode<N>, nat), ParseError>
    decreases remaining(ts.len() as int, i), 2nat,
{
    match primary(ts, i, two) {
        Ok((left, k)) => match climb(ts, left, i + 1 + k, min, two) {
            Ok((node, c)) => Ok((node, k + c)),
            Err(x) => Err(x),
        },
        Err(x) => Err(x),
    }
}

/// Extends `left` with the operators from position `i` on: each operator of
/// strength `p >= min` takes as right operand a chain of strength `p + 1`.
/// The chain stops at the first token that is no binary operator.
pub open spec fn climb<N>(ts: Seq<Token<N>>, left: ASTNode<N>, i: int, min: nat, two: N) -> Result<(ASTNode<N>, nat), ParseError>
    decreases remaining(ts.len() as int, i), 1nat,
{
    match token_at(ts, i) {
        None => Ok((left, 0)),
        Some(t) => if precedence(t) == 0 || precedence(t) < min {
            Ok((left, 0))
        } else {
            match binary(ts, i + 1, precedence(t) + 1, two) {
                Ok((right, k)) => {
                    let node = ASTNode::BinaryOp { left: Box::new(left), op: t, right: Box::new(right) };
                    match climb(ts, node, i + 2 + k, min, two) {
                        Ok((node, c)) => Ok((node, k + 2 + c)),
                        Err(x) => Err(x),
                    }
                },
                Err(x) => Err(x),
            }
        },
    }
}

/// `r` is what the spec result `s` describes for a parse that started at
/// `start` and left the cursor at `end`.
pub open spec fn parsed_as<N>(
    r: Result<ASTNode<N>, ParseError>,
    s: Result<(ASTNode<N>, nat), ParseError>,
    start: int,
    end: int,
) -> bool {
    match r {
        Ok(node) => end > start && s == Ok::<(ASTNode<N>, nat), ParseError>((node, (end - start - 1) as nat)),
        Err(e) => s == Err::<(ASTNode<N>, nat), ParseError>(e),
    }
}

/// The expression that the tokens from `i` on form, ending in `Eof`.
pub open spec fn expression<N>(ts: Seq<Token<N>>, i: int, two: N) -> Result<ASTNode<N>, ParseError> {
    match binary(ts, i, 0, two) {
        Ok((e, k)) => if token_at(ts, i + 1 + k) == Some(Token::<N>::Eof) {
            Ok(e)
        } else {
            Err(ParseError::TrailingInput)
        },
        Err(x) => Err(x),
    }
}

/// A recursive-descent parser over a token sequence with a cursor.
/// `default_log_base` is the base that `log` takes when given one argument.
pub struct Parser<N> {
    pub tokens: Vec<Token<N>>,
    pub position: usize,
    pub default_log_base: N,
}

impl<N: Copy> Parser<N> {
    pub open spec fn wf(&self) -> bool {
        self.position <= self.tokens.len()
    }

    pub fn new(tokens: Vec<Token<N>>, default_log_base: N) -> (r: Self)
        ensures
            r.tokens@ == tokens@,
            r.position == 0,
            r.default_log_base == default_log_base,
    {
        Parser { tokens, position: 0, default_log_base }
    }

    fn current_token(&self) -> (r: Option<Token<N>>)
        requires
            self.wf(),
        ensures
            r == token_at(self.tokens@, self.position as int),
    {
        if self.position < self.tokens.len() {
            Some(self.tokens[self.position])
        } else {
            None
        }
    }

    fn next_token(&mut self)
        requires
            old(self).position < old(self).tokens.len(),
        ensures
            final(self).position == old(self).position + 1,
            final(self).tokens@ == old(self).tokens@,
            final(self).default_log_base == old(self).default_log_base,
    {
        self.position = self.position + 1;
    }

    /// Wraps `node` in a factorial when the current token is `!`.
    fn take_factorial(&mut self, node: ASTNode<N>) -> (r: ASTNode<N>)
        requires
            old(self).wf(),
        ensures
            final(self).wf(),
            final(self).tokens@ == old(self).tokens@,
            final(self).default_log_base == old(self).default_log_base,
            with_postfix(old(self).tokens@, node, old(self).position as int)
                == (r, (final(self).position - old(self).position) as nat),
            final(self).position >= old(self).position,
    {
        if let Some(Token::Fact) = self.current_token() {
            self.next_token();
            ASTNode::UnaryOp { op: Token::Fact, operand: Box::new(node) }
        } else {
            node
        }
    }

    /// Parses a whole expression, which must be followed by `Eof`.
    pub fn parse_expression(&mut self) -> (r: Result<ASTNode<N>, ParseError>)
        requires
            old(self).wf(),
        ensures
            r == expression(old(self).tokens@, old(self).position as int, old(self).default_log_base),
    {
        let ghost ts = self.tokens@;
        let ghost start = self.position as int;
        let expr = self.parse_binary_op(0)?;
        if let Some(Token::Eof) = self.current_token() {
            Ok(expr)
        } else {
            Err(ParseError::TrailingInput)
        }
    }

    fn parse_inner_expression(&mut self) -> (r: Result<ASTNode<N>, ParseError>)
        requires
            old(self).wf(),
        ensures
            final(self).wf(),
            final(self).tokens@ == old(self).tokens@,
            final(self).default_log_base == old(self).default_log_base,
            parsed_as(
                r,
                binary(old(self).tokens@, old(self).position as int, 0, old(self).default_log_base),
                old(self).position as int,
                final(self).position as int,
            ),
        decreases old(self).tokens.len() - old(self).position, 3nat,
    {
        self.parse_binary_op(0)
    }

    fn parse_primary(&mut self) -> (r: Result<ASTNode<N>, ParseError>)
        requires
            old(self).wf(),
        ensures
            final(self).wf(),
            final(self).tokens@ == old(self).tokens@,
            final(self).default_log_base == old(self).default_log_base,
            parsed_as(
                r,
                primary(old(self).tokens@, old(self).position as int, old(self).default_log_base),
                old(self).position as int,
                final(self).position as int,
            ),
        decreases old(self).tokens.len() - old(self).position, 0nat,
    {
        let ghost ts = self.tokens@;
        let ghost i = self.position as int;
        let ghost two = self.default_log_base;
        if let Some(token) = self.current_token() {
            match token {
                Token::Number(value) => {
                    self.next_token();
                    Ok(self.take_factorial(ASTNode::Number(value)))
                },
                Token::Pi => {
                    self.next_token();
                    Ok(self.take_factorial(ASTNode::Pi))
                },
                Token::Euler => {
                    self.next_token();
                    Ok(self.take_factorial(ASTNode::Euler))
                },
                Token::Minus => {
                    self.next_token();
                    let operand = self.parse_primary()?;
                    Ok(ASTNode::UnaryOp { op: Token::Minus, operand: Box::new(operand) })
                },
                Token::LParen => {
                    self.next_token();
                    let expr = self.parse_inner_expression()?;
                    if let Some(Token::RParen) = self.current_token() {
                        self.next_token();
                        Ok(self.take_factorial(ASTNode::Grouping(Box::new(expr))))
                    } else {
                        Err(ParseError::ExpectedRightParen)
                    }
                },
                Token::Log => {
                    self.next_token();
                    if let Some(Token::LParen) = self.current_token() {
                        self.next_token();
                    } else {
                        return Err(ParseError::ExpectedLogParen);
                    }
                    let first_arg = self.parse_inner_expression()?;
                    let base;
                    let number;
                    if let Some(Token::Comma) = self.current_token() {
                        self.next_token();
                        base = first_arg;
                        number = self.parse_inner_expression()?;
                    } else {
                        base = ASTNode::Number(self.default_log_base);
                        number = first_arg;
                    }
                    if let Some(Token::RParen) = self.current_token() {
                        self.next_token();
                    } else {
                        return Err(ParseError::ExpectedLogClose);
                    }
                    let node = ASTNode::LogBase { base: Box::new(base), number: Box::new(number) };
                    Ok(self.take_factorial(node))
                },
                Token::Sin | Token::Cos | Token::Tg | Token::Cotg | Token::Ln | Token::Sqrt
                | Token::Abs | Token::Sec | Token::Csc | Token::Asin | Token::Acos | Token::Atg
                | Token::Actg => {
                    let func = token;
                    self.next_token();
                    if let Some(Token::LParen) = self.current_token() {
                        self.next_token();
                        let argument = self.parse_inner_expression()?;
                        if let Some(Token::RParen) = self.current_token() {
                            self.next_token();
                            let node = ASTNode::Function { func, argument: Box::new(argument) };
                            Ok(self.take_factorial(node))
                        } else {
                            Err(ParseError::ExpectedFunctionClose)
                        }
                    } else {
                        Err(ParseError::ExpectedFunctionParen)
                    }
                },
                _ => Err(ParseError::UnexpectedToken),
            }
        } else {
            Err(ParseError::UnexpectedEnd)
        }
    }

    fn get_precedence(op: &Token<N>) -> (r: u8)
        ensures
            r as nat == precedence(*op),
    {
        match op {
            Token::Plus | Token::Minus => 1,
            Token::Multiply | Token::Divide => 2,
            Token::Exponent => 3,
            _ => 0,
        }
    }

    fn parse_binary_op(&mut self, min_precedence: u8) -> (r: Result<ASTNode<N>, ParseError>)
        requires
            old(self).wf(),
        ensures
            final(self).wf(),
            final(self).tokens@ == old(self).tokens@,
            final(self).default_log_base == old(self).default_log_base,
            parsed_as(
                r,
                binary(old(self).tokens@, old(self).position as int, min_precedence as nat, old(self).default_log_base),
                old(self).position as int,
                final(self).position as int,
            ),
        decreases old(self).tokens.len() - old(self).position, 2nat,
    {
        let ghost ts = self.tokens@;
        let ghost start = self.position as int;
        let ghost two = self.default_log_base;
        let ghost min = min_precedence as nat;
        let mut left = self.parse_primary()?;
        loop
            invariant
                ts == old(self).tokens@,
                start == old(self).position,
                two == old(self).default_log_base,
                min == min_precedence as nat,
                self.wf(),
                self.tokens@ == ts,
                self.default_log_base == two,
                self.position > start,
                binary(ts, start, min, two) == match climb(ts, left, self.position as int, min, two) {
                    Ok((node, c)) => Ok((node, (self.position + c - start - 1) as nat)),
                    Err(x) => Err(x),
                },
            ensures
                climb(ts, left, self.position as int, min, two) == Ok::<(ASTNode<N>, nat), ParseError>(
                    (left, 0nat),
                ),
            decreases self.tokens.len() - self.position,
        {
            let op = match self.current_token() {
                Some(op) => op,
                None => break,
            };
            let precedence = Self::get_precedence(&op);
            if precedence == 0 || precedence < min_precedence {
                break;
            }
            self.next_token();
            let right = self.parse_binary_op(precedence + 1)?;
            left = ASTNode::BinaryOp { left: Box::new(left), op, right: Box::new(right) };
        }
        Ok(left)
    }
}

} // verus!

use vstd::prelude::*;

use crate::lexer::Token;
use crate::parser::ASTNode;

verus! {

/// One numeric step that the reducer asks for: every computation on numbers
/// goes through one of these.
#[derive(Debug, PartialEq, Clone, Copy)]
pub enum Operation<N> {
    /// `left op right`, for a binary-operator node.
    Binary(N, Token<N>, N),
    /// Negation or factorial.
    Unary(Token<N>, N),
    /// A named single-argument function.
    Function(Token<N>, N),
    /// Logarithm: base, then argument.
    Log(N, N),
    /// The circle ratio.
    Pi,
    /// Euler's number.
    Euler,
}

/// Why an expression has no value.
#[derive(Debug, PartialEq, Clone, Copy)]
pub enum EvalError {
    DivisionByZero,
    FactorialDomain,
    LogBaseNotPositive,
    LogBaseIsOne,
    LogOfNonPositive,
    SqrtOfNegative,
    TgUndefined,
    CotgUndefined,
    SecUndefined,
    CscUndefined,
    AsinDomain,
    AcosDomain,
    ActgOfZero,
    UnknownBinaryOperator,
    UnknownUnaryOperator,
    UnknownFunction,
}

impl EvalError {
    pub open spec fn text(self) -> Seq<char> {
        match self {
            EvalError::DivisionByZero => "Can't divide number by 0"@,
            EvalError::FactorialDomain => "Factorial is only defined for non-negative integers!"@,
            EvalError::LogBaseNotPositive => "The base of logarithm must be greater than zero!"@,
            EvalError::LogBaseIsOne => "The base of logarithm cannot be 1!"@,
            EvalError::LogOfNonPositive => "Can't calculate logarithm of negative number!"@,
            EvalError::SqrtOfNegative => "Can't calculate square root of negative number!"@,
            EvalError::TgUndefined => "Can't calculate tg for that number, cosine is 0!"@,
            EvalError::CotgUndefined => "Can't calculate cotg for that number, it is 0!"@,
            EvalError::SecUndefined => "Can't calculate sec for that number, cosine is 0!"@,
            EvalError::CscUndefined => "Can't calculate csc for that number, sine is 0!"@,
            EvalError::AsinDomain => "Can't calculate asin for values outside of [-1, 1]"@,
            EvalError::AcosDomain => "Can't calculate acos for values outside of [-1, 1]"@,
            EvalError::ActgOfZero => "Can't calculate actg for 0!"@,
            EvalError::UnknownBinaryOperator => "Unknown binary operator"@,
            EvalError::UnknownUnaryOperator => "Unknown unary operator"@,
            EvalError::UnknownFunction => "Unknown function"@,
        }
    }

    /// The human-readable message for this error.
    pub fn message(&self) -> (r: String)
        ensures
            r@ == self.text(),
    {
        match self {
            EvalError::DivisionByZero => String::from_str("Can't divide number by 0"),
            EvalError::FactorialDomain => String::from_str(
                "Factorial is only defined for non-negative integers!",
            ),
            EvalError::LogBaseNotPositive => String::from_str(
                "The base of logarithm must be greater than zero!",
            ),
            EvalError::LogBaseIsOne => String::from_str("The base of logarithm cannot be 1!"),
            EvalError::LogOfNonPositive => String::from_str(
                "Can't calculate logarithm of negative number!",
            ),
            EvalError::SqrtOfNegative => String::from_str(
                "Can't calculate square root of negative number!",
            ),
            EvalError::TgUndefined => String::from_str(
                "Can't calculate tg for that number, cosine is 0!",
            ),
            EvalError::CotgUndefined => String::from_str(
                "Can't calculate cotg for that number, it is 0!",
            ),
            EvalError::SecUndefined => String::from_str(
                "Can't calculate sec for that number, cosine is 0!",
            ),
            EvalError::CscUndefined => String::from_str(
                "Can't calculate csc for that number, sine is 0!",
            ),
            EvalError::AsinDomain => String::from_str(
                "Can't calculate asin for values outside of [-1, 1]",
            ),
            EvalError::AcosDomain => String::from_str(
                "Can't calculate acos for values outside of [-1, 1]",
            ),
            EvalError::ActgOfZero => String::from_str("Can't calculate actg for 0!"),
            EvalError::UnknownBinaryOperator => String::from_str("Unknown binary operator"),
            EvalError::UnknownUnaryOperator => String::from_str("Unknown unary operator"),
            EvalError::UnknownFunction => String::from_str("Unknown function"),
        }
    }
}

/// `f` gives, for each operation, the one outcome that `compute` returns.
pub open spec fn models<N, C: Fn(Operation<N>) -> Result<N, EvalError>>(
    compute: C,
    f: spec_fn(Operation<N>) -> Result<N, EvalError>,
) -> bool {
    forall|op: Operation<N>, r: Result<N, EvalError>| #[trigger]
        compute.ensures((op,), r) ==> r == f(op)
}

/// `g` gives, for each number, the one text that `show` returns.
pub open spec fn shows<N, S: Fn(N) -> String>(show: S, g: spec_fn(N) -> Seq<char>) -> bool {
    forall|v: N, t: String| #[trigger] show.ensures((v,), t) ==> t@ == g(v)
}

pub open spec fn lift<N>(r: Result<N, EvalError>) -> Result<ASTNode<N>, EvalError> {
    match r {
        Ok(v) => Ok(ASTNode::Number(v)),
        Err(e) => Err(e),
    }
}

/// The number of nodes of `ast` that are not yet numbers.
pub open spec fn pending<N>(ast: ASTNode<N>) -> nat
    decreases ast,
{
    match ast {
        ASTNode::Number(_) => 0,
        ASTNode::Pi | ASTNode::Euler => 1,
        ASTNode::BinaryOp { left, right, .. } => 1 + pending(*left) + pending(*right),
        ASTNode::UnaryOp { operand, .. } => 1 + pending(*operand),
        ASTNode::Function { argument, .. } => 1 + pending(*argument),
        ASTNode::LogBase { base, number } => 1 + pending(*base) + pending(*number),
        ASTNode::Grouping(e) => 1 + pending(*e),
    }
}

/// One rewriting step, innermost and leftmost first, where `f` gives the
/// outcome of each numeric operation.
pub open spec fn reduced<N>(ast: ASTNode<N>, f: spec_fn(Operation<N>) -> Result<N, EvalError>) -> Result<
    ASTNode<N>,
    EvalError,
>
    decreases ast,
{
    match ast {
        ASTNode::Number(_) => Ok(ast),
        ASTNode::Pi => lift(f(Operation::Pi)),
        ASTNode::Euler => lift(f(Operation::Euler)),
        ASTNode::BinaryOp { left, op, right } => match *left {
            ASTNode::Number(a) => match *right {
                ASTNode::Number(b) => lift(f(Operation::Binary(a, op, b))),
                _ => match reduced(*right, f) {
                    Ok(r) => Ok(ASTNode::BinaryOp { left, op, right: Box::new(r) }),
                    Err(e) => Err(e),
                },
            },
            _ => match reduced(*left, f) {
                Ok(l) => Ok(ASTNode::BinaryOp { left: Box::new(l), op, right }),
                Err(e) => Err(e),
            },
        },
        ASTNode::UnaryOp { op, operand } => match *operand {
            ASTNode::Number(a) => lift(f(Operation::Unary(op, a))),
            _ => match reduced(*operand, f) {
                Ok(x) => Ok(ASTNode::UnaryOp { op, operand: Box::new(x) }),
                Err(e) => Err(e),
            },
        },
        ASTNode::Function { func, argument } => match *argument {
            ASTNode::Number(a) => lift(f(Operation::Function(func, a))),
            _ => match reduced(*argument, f) {
                Ok(x) => Ok(ASTNode::Function { func, argument: Box::new(x) }),
                Err(e) => Err(e),
            },
        },
        ASTNode::LogBase { base, number } => match reduced(*base, f) {
            Ok(b) => match reduced(*number, f) {
                Ok(n) => match (b, n) {
                    (ASTNode::Number(x), ASTNode::Number(y)) => lift(f(Operation::Log(x, y))),
                    (b, n) => Ok(ASTNode::LogBase { base: Box::new(b), number: Box::new(n) }),
                },
                Err(e) => Err(e),
            },
            Err(e) => Err(e),
        },
        ASTNode::Grouping(inner) => match reduced(*inner, f) {
            Ok(x) => if x is Number {
                Ok(x)
            } else {
                Ok(ASTNode::Grouping(Box::new(x)))
            },
            Err(e) => Err(e),
        },
    }
}

/// A step never adds work, and removes some from a tree that is not a number.
pub proof fn lemma_reduced_shrinks<N>(ast: ASTNode<N>, f: spec_fn(Operation<N>) -> Result<N, EvalError>)
    requires
        reduced(ast, f) is Ok,
    ensures
        pending(reduced(ast, f)->Ok_0) <= pending(ast),
        !(ast is Number) ==> pending(reduced(ast, f)->Ok_0) < pending(ast),
    decreases ast,
{
    match ast {
        ASTNode::BinaryOp { left, right, .. } => {
            if !(*left is Number) {
                lemma_reduced_shrinks(*left, f);
            } else if !(*right is Number) {
                lemma_reduced_shrinks(*right, f);
            }
        },
        ASTNode::UnaryOp { operand, .. } => {
            if !(*operand is Number) {
                lemma_reduced_shrinks(*operand, f);
            }
        },
        ASTNode::Function { argument, .. } => {
            if !(*argument is Number) {
                lemma_reduced_shrinks(*argument, f);
            }
        },
        ASTNode::LogBase { base, number } => {
            lemma_reduced_shrinks(*base, f);
            lemma_reduced_shrinks(*number, f);
        },
        ASTNode::Grouping(inner) => {
            lemma_reduced_shrinks(*inner, f);
        },
        _ => {},
    }
}

#[via_fn]
proof fn outcome_decreases<N>(ast: ASTNode<N>, f: spec_fn(Operation<N>) -> Result<N, EvalError>) {
    if reduced(ast, f) is Ok {
        lemma_reduced_shrinks(ast, f);
    }
}

/// The value that repeated reduction of `ast` reaches, or the first error.
pub open spec fn outcome<N>(ast: ASTNode<N>, f: spec_fn(Operation<N>) -> Result<N, EvalError>) -> Result<N, EvalError>
    decreases pending(ast),
    via outcome_decreases::<N>
{
    match ast {
        ASTNode::Number(v) => Ok(v),
        _ => match reduced(ast, f) {
            Ok(next) => outcome(next, f),
            Err(e) => Err(e),
        },
    }
}

pub open spec fn binary_symbol<N>(op: Token<N>) -> Seq<char> {
    match op {
        Token::Plus => "+"@,
        Token::Minus => "-"@,
        Token::Multiply => "*"@,
        Token::Divide => "/"@,
        Token::Exponent => "^"@,
        _ => "Unknown binary operator"@,
    }
}

pub open spec fn function_name<N>(func: Token<N>) -> Seq<char> {
    match func {
        Token::Abs => "abs"@,
        Token::Sqrt => "sqrt"@,
        Token::Ln => "ln"@,
        Token::Sin => "sin"@,
        Token::Cos => "cos"@,
        Token::Tg => "tg"@,
        Token::Cotg => "cotg"@,
        Token::Sec => "sec"@,
        Token::Csc => "csc"@,
        Token::Asin => "asin"@,
        Token::Acos => "acos"@,
        Token::Atg => "atg"@,
        Token::Actg => "actg"@,
        _ => "Unknown function"@,
    }
}

/// The text of `ast`, where `g` gives the text of each number.
pub open spec fn rendered<N>(ast: ASTNode<N>, g: spec_fn(N) -> Seq<char>) -> Seq<char>
    decreases ast,
{
    match ast {
        ASTNode::Number(v) => g(v),
        ASTNode::Pi => "π"@,
        ASTNode::Euler => "e"@,
        ASTNode::BinaryOp { left, op, right } => rendered(*left, g) + " "@ + binary_symbol(op) + " "@
            + rendered(*right, g),
        ASTNode::UnaryOp { op, operand } => match op {
            Token::Minus => "-"@ + rendered(*operand, g),
            Token::Fact => rendered(*operand, g) + "!"@,
            _ => "Unknown unary operator"@,
        },
        ASTNode::Function { func, argument } => function_name(func) + "("@ + rendered(*argument, g) + ")"@,
        ASTNode::LogBase { base, number } => "log("@ + rendered(*base, g) + ","@ + rendered(*number, g)
            + ")"@,
        ASTNode::Grouping(inner) => "("@ + rendered(*inner, g) + ")"@,
    }
}

/// A line of the step log.
pub open spec fn entry(s: Seq<char>) -> Seq<char> {
    "= "@ + s
}

#[via_fn]
proof fn log_lines_decreases<N>(
    ast: ASTNode<N>,
    f: spec_fn(Operation<N>) -> Result<N, EvalError>,
    g: spec_fn(N) -> Seq<char>,
    last: Option<Seq<char>>,
) {
    if reduced(ast, f) is Ok {
        lemma_reduced_shrinks(ast, f);
    }
}

/// The log lines that evaluating `ast` writes: the text of each expression
/// it passes through, one per reduction step, and last the text of its value;
/// a line that repeats the one before it (`last`) is left out.
pub open spec fn log_lines<N>(
    ast: ASTNode<N>,
    f: spec_fn(Operation<N>) -> Result<N, EvalError>,
    g: spec_fn(N) -> Seq<char>,
    last: Option<Seq<char>>,
) -> Seq<Seq<char>>
    decreases pending(ast),
    via log_lines_decreases::<N>
{
    let s = rendered(ast, g);
    let head = if last == Some(s) {
        seq![]
    } else {
        seq![entry(s)]
    };
    if ast is Number {
        head
    } else {
        match reduced(ast, f) {
            Ok(next) => head + log_lines(next, f, g, Some(s)),
            Err(_) => head,
        }
    }
}

pub open spec fn texts(v: Seq<String>) -> Seq<Seq<char>> {
    v.map_values(|s: String| s@)
}

fn binary_symbol_text<N>(op: &Token<N>) -> (r: &'static str)
    ensures
        r@ == binary_symbol(*op),
{
    match op {
        Token::Plus => "+",
        Token::Minus => "-",
        Token::Multiply => "*",
        Token::Divide => "/",
        Token::Exponent => "^",
        _ => "Unknown binary operator",
    }
}

fn function_name_text<N>(func: &Token<N>) -> (r: &'static str)
    ensures
        r@ == function_name(*func),
{
    match func {
        Token::Abs => "abs",
        Token::Sqrt => "sqrt",
        Token::Ln => "ln",
        Token::Sin => "sin",
        Token::Cos => "cos",
        Token::Tg => "tg",
        Token::Cotg => "cotg",
        Token::Sec => "sec",
        Token::Csc => "csc",
        Token::Asin => "asin",
        Token::Acos => "acos",
        Token::Atg => "atg",
        Token::Actg => "actg",
        _ => "Unknown function",
    }
}

pub open spec fn opt_text(o: Option<String>) -> Option<Seq<char>> {
    match o {
        Some(s) => Some(s@),
        None => None,
    }
}

fn push_text(v: &mut Vec<String>, s: String)
    ensures
        texts(final(v)@) == texts(old(v)@).push(s@),
{
    v.push(s);
    assert(texts(v@) =~= texts(old(v)@).push(s@));
}

/// A step-by-step evaluation session and its log.
pub struct Evaluator {
    evaluation_steps: Vec<String>,
}

impl Evaluator {
    /// The log lines recorded so far.
    pub closed spec fn steps(&self) -> Seq<Seq<char>> {
        texts(self.evaluation_steps@)
    }

    pub fn new() -> (r: Self)
        ensures
            r.steps() == Seq::<Seq<char>>::empty(),
    {
        let r = Evaluator { evaluation_steps: Vec::new() };
        assert(r.steps() =~= Seq::<Seq<char>>::empty());
        r
    }

    /// Hands the log over.
    pub fn get_evaluation_steps(self) -> (r: Vec<String>)
        ensures
            texts(r@) == self.steps(),
    {
        self.evaluation_steps
    }

    /// Performs one rewriting step on `ast`; `compute` does the numeric work.
    pub fn reduce_ast<N: Copy, C: Fn(Operation<N>) -> Result<N, EvalError>>(ast: ASTNode<N>, compute: &C) -> (r: Result<
        ASTNode<N>,
        EvalError,
    >)
        requires
            forall|op: Operation<N>| compute.requires((op,)),
        ensures
            ast is Number ==> r == Ok::<ASTNode<N>, EvalError>(ast),
            r is Ok && !(ast is Number) ==> pending(r->Ok_0) < pending(ast),
            forall|f: spec_fn(Operation<N>) -> Result<N, EvalError>| #[trigger]
                models(*compute, f) ==> r == reduced(ast, f),
        decreases ast,
    {
        match ast {
            ASTNode::BinaryOp { left, op, right } => match *left {
                ASTNode::Number(a) => match *right {
                    ASTNode::Number(b) => {
                        let v = compute(Operation::Binary(a, op, b))?;
                        Ok(ASTNode::Number(v))
                    },
                    r => {
                        let r = Self::reduce_ast(r, compute)?;
                        Ok(ASTNode::BinaryOp { left: Box::new(ASTNode::Number(a)), op, right: Box::new(r) })
                    },
                },
                l => {
                    let l = Self::reduce_ast(l, compute)?;
                    Ok(ASTNode::BinaryOp { left: Box::new(l), op, right })
                },
            },
            ASTNode::UnaryOp { op, operand } => match *operand {
                ASTNode::Number(a) => {
                    let v = compute(Operation::Unary(op, a))?;
                    Ok(ASTNode::Number(v))
                },
                x => {
                    let x = Self::reduce_ast(x, compute)?;
                    Ok(ASTNode::UnaryOp { op, operand: Box::new(x) })
                },
            },
            ASTNode::Function { func, argument } => match *argument {
                ASTNode::Number(a) => {
                    let v = compute(Operation::Function(func, a))?;
                    Ok(ASTNode::Number(v))
                },
                x => {
                    let x = Self::reduce_ast(x, compute)?;
                    Ok(ASTNode::Function { func, argument: Box::new(x) })
                },
            },
            ASTNode::LogBase { base, number } => {
                let reduced_base = Self::reduce_ast(*base, compute)?;
                let reduced_number = Self::reduce_ast(*number, compute)?;
                match (reduced_base, reduced_number) {
                    (ASTNode::Number(b), ASTNode::Number(n)) => {
                        let v = compute(Operation::Log(b, n))?;
                        Ok(ASTNode::Number(v))
                    },
                    (b, n) => Ok(ASTNode::LogBase { base: Box::new(b), number: Box::new(n) }),
                }
            },
            ASTNode::Grouping(inner) => {
                let x = Self::reduce_ast(*inner, compute)?;
                if let ASTNode::Number(_) = x {
                    Ok(x)
                } else {
                    Ok(ASTNode::Grouping(Box::new(x)))
                }
            },
            ASTNode::Pi => {
                let v = compute(Operation::Pi)?;
                Ok(ASTNode::Number(v))
            },
            ASTNode::Euler => {
                let v = compute(Operation::Euler)?;
                Ok(ASTNode::Number(v))
            },
            ASTNode::Number(_) => Ok(ast),
        }
    }

    /// The text of `ast`; `show` gives the text of each number.
    pub fn ast_to_string<N: Copy, S: Fn(N) -> String>(ast: &ASTNode<N>, show: &S) -> (r: String)
        requires
            forall|v: N| show.requires((v,)),
        ensures
            forall|g: spec_fn(N) -> Seq<char>| #[trigger] shows(*show, g) ==> r@ == rendered(*ast, g),
        decreases ast,
    {
        match ast {
            ASTNode::Number(value) => show(*value),
            ASTNode::Pi => String::from_str("π"),
            ASTNode::Euler => String::from_str("e"),
            ASTNode::BinaryOp { left, op, right } => {
                let mut out = Self::ast_to_string(left, show);
                let right_str = Self::ast_to_string(right, show);
                out.append(" ");
                out.append(binary_symbol_text(op));
                out.append(" ");
                out.append(right_str.as_str());
                out
            },
            ASTNode::UnaryOp { op, operand } => {
                let operand_str = Self::ast_to_string(operand, show);
                match op {
                    Token::Minus => String::from_str("-").concat(operand_str.as_str()),
                    Token::Fact => operand_str.concat("!"),
                    _ => String::from_str("Unknown unary operator"),
                }
            },
            ASTNode::Function { func, argument } => {
                let arg_str = Self::ast_to_string(argument, show);
                let mut out = String::from_str(function_name_text(func));
                out.append("(");
                out.append(arg_str.as_str());
                out.append(")");
                out
            },
            ASTNode::LogBase { base, number } => {
                let base_str = Self::ast_to_string(base, show);
                let number_str = Self::ast_to_string(number, show);
                let mut out = String::from_str("log(");
                out.append(base_str.as_str());
                out.append(",");
                out.append(number_str.as_str());
                out.append(")");
                out
            },
            ASTNode::Grouping(inner) => {
                let inner_str = Self::ast_to_string(inner, show);
                let mut out = String::from_str("(");
                out.append(inner_str.as_str());
                out.append(")");
                out
            },
        }
    }

    /// Evaluates `ast` step by step and returns its value. Before each step
    /// the log gets the text of the expression, and after the last step the
    /// text of the value; a line equal to the one before it is left out. `compute` does the numeric
    /// work and `show` writes numbers.
    pub fn evaluate_and_print<N: Copy, C, S>(&mut self, ast: ASTNode<N>, compute: &C, show: &S) -> (r: Result<
        N,
        EvalError,
    >) where C: Fn(Operation<N>) -> Result<N, EvalError>, S: Fn(N) -> String
        requires
            forall|op: Operation<N>| compute.requires((op,)),
            forall|v: N| show.requires((v,)),
        ensures
            final(self).steps().len() >= old(self).steps().len(),
            final(self).steps().subrange(0, old(self).steps().len() as int) == old(self).steps(),
            forall|f: spec_fn(Operation<N>) -> Result<N, EvalError>, g: spec_fn(N) -> Seq<char>|
                #[trigger] models(*compute, f) && #[trigger] shows(*show, g) ==> {
                    &&& r == outcome(ast, f)
                    &&& final(self).steps() == old(self).steps() + log_lines(ast, f, g, None)
                },
    {
        let ghost start = self.steps();
        let mut current = ast;
        let mut previous_step: Option<String> = None;
        loop
            invariant
                forall|op: Operation<N>| compute.requires((op,)),
                forall|v: N| show.requires((v,)),
                self.steps().len() >= start.len(),
                self.steps().subrange(0, start.len() as int) == start,
                start == old(self).steps(),
                forall|f: spec_fn(Operation<N>) -> Result<N, EvalError>, g: spec_fn(N) -> Seq<char>|
                    #[trigger] models(*compute, f) && #[trigger] shows(*show, g) ==> {
                        &&& outcome(ast, f) == outcome(current, f)
                        &&& log_lines(ast, f, g, None) == self.steps().skip(start.len() as int)
                            + log_lines(current, f, g, opt_text(previous_step))
                    },
            decreases pending(current),
        {
            let ghost before = self.steps();
            let ghost prev = opt_text(previous_step);
            let expression_string = Self::ast_to_string(&current, show);
            let repeated = match &previous_step {
                Some(p) => *p == expression_string,
                None => false,
            };
            if !repeated {
                let line = String::from_str("= ").concat(expression_string.as_str());
                push_text(&mut self.evaluation_steps, line);
                previous_step = Some(expression_string);
            }
            proof {
                assert(self.steps().subrange(0, start.len() as int) =~= start);
                assert forall|g: spec_fn(N) -> Seq<char>| #[trigger] shows(*show, g) implies {
                    &&& opt_text(previous_step) == Some(rendered(current, g))
                    &&& self.steps() == before + (if prev == Some(rendered(current, g)) {
                        seq![]
                    } else {
                        seq![entry(rendered(current, g))]
                    })
                } by {
                    if repeated {
                        assert(self.steps() =~= before + seq![]);
                    }
                }
            }
            let ghost after = self.steps();
            if let ASTNode::Number(value) = current {
                proof {
                    assert forall|f: spec_fn(Operation<N>) -> Result<N, EvalError>, g: spec_fn(N) -> Seq<char>|
                        #[trigger] models(*compute, f) && #[trigger] shows(*show, g) implies {
                        &&& Ok::<N, EvalError>(value) == outcome(ast, f)
                        &&& self.steps() == start + log_lines(ast, f, g, None)
                    } by {
                        assert(before =~= start + before.skip(start.len() as int));
                        assert(after.skip(start.len() as int) =~= before.skip(start.len() as int) + (if prev == Some(rendered(current, g)) {
                            seq![]
                        } else {
                            seq![entry(rendered(current, g))]
                        }));
                        assert(after =~= start + after.skip(start.len() as int));
                    }
                }
                return Ok(value);
            }
            match Self::reduce_ast(current, compute) {
                Ok(next) => {
                    proof {
                        assert forall|f: spec_fn(Operation<N>) -> Result<N, EvalError>, g: spec_fn(N) -> Seq<char>|
                            #[trigger] models(*compute, f) && #[trigger] shows(*show, g) implies {
                            &&& outcome(ast, f) == outcome(next, f)
                            &&& log_lines(ast, f, g, None) == self.steps().skip(start.len() as int)
                                + log_lines(next, f, g, opt_text(previous_step))
                        } by {
                            assert(before =~= start + before.skip(start.len() as int));
                            assert(after =~= start + after.skip(start.len() as int));
                            assert(after.skip(start.len() as int) =~= before.skip(start.len() as int) + (if prev == Some(rendered(current, g)) {
                                seq![]
                            } else {
                                seq![entry(rendered(current, g))]
                            }));
                        }
                    }
                    current = next;
                },
                Err(e) => {
                    proof {
                        assert forall|f: spec_fn(Operation<N>) -> Result<N, EvalError>, g: spec_fn(N) -> Seq<char>|
                            #[trigger] models(*compute, f) && #[trigger] shows(*show, g) implies {
                            &&& Err::<N, EvalError>(e) == outcome(ast, f)
                            &&& self.steps() == start + log_lines(ast, f, g, None)
                        } by {
                            assert(before =~= start + before.skip(start.len() as int));
                            assert(after.skip(start.len() as int) =~= before.skip(start.len() as int) + (if prev == Some(rendered(current, g)) {
                                seq![]
                            } else {
                                seq![entry(rendered(current, g))]
                            }));
                            assert(after =~= start + after.skip(start.len() as int));
                        }
                    }
                    return Err(e);
                },
            }
        }
    }
}

} // verus!

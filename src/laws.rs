//! Properties that relate several functions of the library.
use vstd::prelude::*;

use crate::evaluator::{
    entry, lemma_reduced_shrinks, outcome, pending, reduced, rendered, log_lines, EvalError, Operation,
};
use crate::lexer::Token;
use crate::parser::{binary, climb, expression, precedence, primary, token_at, ASTNode, ParseError};

verus! {

/// `a op b`, for a binary operator `op` and numbers `a` and `b`, parses as
/// that one operation, and its value is exactly what the numeric operation
/// gives for `(a, op, b)`, an error included.
pub proof fn law_single_operation<N>(
    a: N,
    op: Token<N>,
    b: N,
    two: N,
    f: spec_fn(Operation<N>) -> Result<N, EvalError>,
)
    requires
        precedence(op) > 0,
    ensures
        expression(seq![Token::Number(a), op, Token::Number(b), Token::Eof], 0, two) == Ok::<
            ASTNode<N>,
            ParseError,
        >(ASTNode::BinaryOp {
            left: Box::new(ASTNode::Number(a)),
            op,
            right: Box::new(ASTNode::Number(b)),
        }),
        outcome(
            ASTNode::BinaryOp {
                left: Box::new(ASTNode::Number(a)),
                op,
                right: Box::new(ASTNode::Number(b)),
            },
            f,
        ) == f(Operation::Binary(a, op, b)),
{
    let ts = seq![Token::Number(a), op, Token::Number(b), Token::Eof];
    let node = ASTNode::BinaryOp {
        left: Box::new(ASTNode::Number(a)),
        op,
        right: Box::new(ASTNode::Number(b)),
    };
    assert(token_at(ts, 1) == Some(op));
    assert(token_at(ts, 3) == Some(Token::<N>::Eof));
    assert(primary(ts, 0, two) == Ok::<(ASTNode<N>, nat), ParseError>((ASTNode::Number(a), 0nat)));
    assert(primary(ts, 2, two) == Ok::<(ASTNode<N>, nat), ParseError>((ASTNode::Number(b), 0nat)));
    assert(climb(ts, ASTNode::Number(b), 3, precedence(op) + 1, two) == Ok::<(ASTNode<N>, nat), ParseError>(
        (ASTNode::Number(b), 0nat),
    ));
    assert(binary(ts, 2, precedence(op) + 1, two) == Ok::<(ASTNode<N>, nat), ParseError>(
        (ASTNode::Number(b), 0nat),
    ));
    assert(climb(ts, node, 3, 0, two) == Ok::<(ASTNode<N>, nat), ParseError>((node, 0nat)));
    assert(climb(ts, ASTNode::Number(a), 1, 0, two) == Ok::<(ASTNode<N>, nat), ParseError>((node, 2nat)));
    assert(binary(ts, 0, 0, two) == Ok::<(ASTNode<N>, nat), ParseError>((node, 2nat)));
    match f(Operation::Binary(a, op, b)) {
        Ok(v) => {
            assert(reduced(node, f) == Ok::<ASTNode<N>, EvalError>(ASTNode::Number(v)));
            assert(outcome(ASTNode::<N>::Number(v), f) == Ok::<N, EvalError>(v));
        },
        Err(e) => {},
    }
}

/// Parentheses do not change a value: an expression in a grouping evaluates
/// exactly as the expression itself, to the same number or the same error.
pub proof fn law_grouping_transparent<N>(e: ASTNode<N>, f: spec_fn(Operation<N>) -> Result<N, EvalError>)
    ensures
        outcome(ASTNode::Grouping(Box::new(e)), f) == outcome(e, f),
    decreases pending(e),
{
    let g = ASTNode::Grouping(Box::new(e));
    match e {
        ASTNode::Number(v) => {
            assert(reduced(g, f) == Ok::<ASTNode<N>, EvalError>(e));
        },
        _ => {
            match reduced(e, f) {
                Ok(x) => {
                    lemma_reduced_shrinks(e, f);
                    if !(x is Number) {
                        law_grouping_transparent(x, f);
                    }
                },
                Err(_) => {},
            }
        },
    }
}

/// Reducing a tree that is already a number gives it back unchanged.
pub proof fn law_reduce_number_is_identity<N>(v: N, f: spec_fn(Operation<N>) -> Result<N, EvalError>)
    ensures
        reduced(ASTNode::Number(v), f) == Ok::<ASTNode<N>, EvalError>(ASTNode::Number(v)),
{
}

/// `log(x)` with a single argument is the logarithm of `x` to the default
/// base.
pub proof fn law_log_default_base<N>(x: N, two: N, f: spec_fn(Operation<N>) -> Result<N, EvalError>)
    ensures
        expression(seq![Token::Log, Token::LParen, Token::Number(x), Token::RParen, Token::Eof], 0, two)
            == Ok::<ASTNode<N>, ParseError>(ASTNode::LogBase {
            base: Box::new(ASTNode::Number(two)),
            number: Box::new(ASTNode::Number(x)),
        }),
        outcome(
            ASTNode::LogBase { base: Box::new(ASTNode::Number(two)), number: Box::new(ASTNode::Number(x)) },
            f,
        ) == f(Operation::Log(two, x)),
{
    let ts = seq![Token::Log, Token::LParen, Token::Number(x), Token::RParen, Token::Eof];
    let node = ASTNode::LogBase { base: Box::new(ASTNode::Number(two)), number: Box::new(ASTNode::Number(x)) };
    assert(token_at(ts, 1) == Some(Token::<N>::LParen));
    assert(token_at(ts, 3) == Some(Token::<N>::RParen));
    assert(token_at(ts, 4) == Some(Token::<N>::Eof));
    assert(primary(ts, 2, two) == Ok::<(ASTNode<N>, nat), ParseError>((ASTNode::Number(x), 0nat)));
    assert(climb(ts, ASTNode::Number(x), 3, 0, two) == Ok::<(ASTNode<N>, nat), ParseError>(
        (ASTNode::Number(x), 0nat),
    ));
    assert(binary(ts, 2, 0, two) == Ok::<(ASTNode<N>, nat), ParseError>((ASTNode::Number(x), 0nat)));
    assert(primary(ts, 0, two) == Ok::<(ASTNode<N>, nat), ParseError>((node, 3nat)));
    assert(climb(ts, node, 4, 0, two) == Ok::<(ASTNode<N>, nat), ParseError>((node, 0nat)));
    assert(binary(ts, 0, 0, two) == Ok::<(ASTNode<N>, nat), ParseError>((node, 3nat)));
    assert(expression(ts, 0, two) == Ok::<ASTNode<N>, ParseError>(node));
    assert(reduced(ASTNode::<N>::Number(two), f) == Ok::<ASTNode<N>, EvalError>(ASTNode::Number(two)));
    assert(reduced(ASTNode::<N>::Number(x), f) == Ok::<ASTNode<N>, EvalError>(ASTNode::Number(x)));
    match f(Operation::Log(two, x)) {
        Ok(v) => {
            assert(reduced(node, f) == Ok::<ASTNode<N>, EvalError>(ASTNode::Number(v)));
            assert(outcome(ASTNode::<N>::Number(v), f) == Ok::<N, EvalError>(v));
        },
        Err(e) => {
            assert(reduced(node, f) == Err::<ASTNode<N>, EvalError>(e));
        },
    }
}

/// No two neighbouring lines of a sequence are equal.
pub open spec fn no_adjacent_repeats(q: Seq<Seq<char>>) -> bool {
    forall|k: int| 0 <= k < q.len() - 1 ==> #[trigger] q[k] != q[k + 1]
}

proof fn lemma_entry_injective(a: Seq<char>, b: Seq<char>)
    requires
        entry(a) == entry(b),
    ensures
        a == b,
{
    reveal_strlit("= ");
    assert(a =~= entry(a).skip(2));
    assert(b =~= entry(b).skip(2));
}

proof fn lemma_log_lines_differ<N>(
    ast: ASTNode<N>,
    f: spec_fn(Operation<N>) -> Result<N, EvalError>,
    g: spec_fn(N) -> Seq<char>,
    last: Option<Seq<char>>,
)
    ensures
        no_adjacent_repeats(log_lines(ast, f, g, last)),
        last is Some && log_lines(ast, f, g, last).len() > 0 ==> log_lines(ast, f, g, last)[0]
            != entry(last->0),
    decreases pending(ast),
{
    let s = rendered(ast, g);
    let head = if last == Some(s) {
        seq![]
    } else {
        seq![entry(s)]
    };
    if last is Some && last != Some(s) && entry(s) == entry(last->0) {
        lemma_entry_injective(s, last->0);
    }
    if !(ast is Number) {
        match reduced(ast, f) {
            Ok(next) => {
                lemma_reduced_shrinks(ast, f);
                lemma_log_lines_differ(next, f, g, Some(s));
                let rest = log_lines(next, f, g, Some(s));
                assert(log_lines(ast, f, g, last) == head + rest);
                assert forall|k: int| 0 <= k < (head + rest).len() - 1 implies #[trigger] (head + rest)[k]
                    != (head + rest)[k + 1] by {
                    if head.len() == 1 && k == 0 {
                        assert((head + rest)[1] == rest[0]);
                    } else {
                        assert((head + rest)[k] == rest[k - head.len()]);
                        assert((head + rest)[k + 1] == rest[k + 1 - head.len()]);
                    }
                }
            },
            Err(_) => {},
        }
    }
}

proof fn lemma_log_ends_with_value<N>(
    ast: ASTNode<N>,
    f: spec_fn(Operation<N>) -> Result<N, EvalError>,
    g: spec_fn(N) -> Seq<char>,
    last: Option<Seq<char>>,
)
    requires
        outcome(ast, f) is Ok,
    ensures
        log_lines(ast, f, g, last).len() > 0 ==> log_lines(ast, f, g, last).last() == entry(
            g(outcome(ast, f)->Ok_0),
        ),
        log_lines(ast, f, g, last).len() == 0 ==> last == Some(g(outcome(ast, f)->Ok_0)),
    decreases pending(ast),
{
    let s = rendered(ast, g);
    let head = if last == Some(s) {
        seq![]
    } else {
        seq![entry(s)]
    };
    if !(ast is Number) {
        let next = reduced(ast, f)->Ok_0;
        lemma_reduced_shrinks(ast, f);
        lemma_log_ends_with_value(next, f, g, Some(s));
        assert(log_lines(ast, f, g, last) == head + log_lines(next, f, g, Some(s)));
    }
}

/// The step log of one evaluation never holds the same line twice in a row,
/// and when the expression has a value, its last line is the text of that
/// value.
pub proof fn law_steps_without_repeats<N>(
    ast: ASTNode<N>,
    f: spec_fn(Operation<N>) -> Result<N, EvalError>,
    g: spec_fn(N) -> Seq<char>,
)
    ensures
        no_adjacent_repeats(log_lines(ast, f, g, None)),
        outcome(ast, f) is Ok ==> log_lines(ast, f, g, None).len() > 0 && log_lines(ast, f, g, None).last()
            == entry(g(outcome(ast, f)->Ok_0)),
{
    lemma_log_lines_differ(ast, f, g, None);
    if outcome(ast, f) is Ok {
        lemma_log_ends_with_value(ast, f, g, None);
    }
}

} // verus!

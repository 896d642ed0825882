//! The parser of the filter language: recursive descent over the token
//! stream, building the left-associative expression tree.

use vstd::prelude::*;
use crate::lee::condition::Condition;
use crate::lee::error::ParseError;
use crate::lee::expression::{CombineOperator, Expression, LeftExpression, expr_wf};
use crate::lee::lexer::{Token, token_wf, tokenize};

verus! {

fn err_at(pos: usize, msg: &str) -> (r: ParseError)
    ensures
        r.msg@ == msg@,
{
    ParseError { pos, msg: msg.to_owned() }
}

/// Parse one term: a parenthesised subexpression, or a single
/// identifier-operator-literal comparison.
fn parse_term(toks: &Vec<Token>, pos: usize) -> (r: Result<(LeftExpression, usize), ParseError>)
    requires
        pos <= toks@.len(),
        forall|i: int| 0 <= i < toks@.len() ==> token_wf(#[trigger] toks@[i]),
    ensures
        r matches Ok(p) ==> (match p.0 {
            LeftExpression::Condition(c) => crate::lee::condition::value_wf(c.value),
            LeftExpression::Expression(e) => expr_wf(e),
        }) && pos < p.1 <= toks@.len(),
    decreases toks@.len() - pos, 0int,
{
    if pos >= toks.len() {
        return Err(err_at(pos, "expected a condition or a parenthesised expression"));
    }
    match &toks[pos] {
        Token::LParen => {
            let (inner, after) = match parse_expression(toks, pos + 1) {
                Ok(p) => p,
                Err(e) => {
                    return Err(e);
                },
            };
            if after >= toks.len() {
                return Err(err_at(after, "expected a closing parenthesis"));
            }
            match &toks[after] {
                Token::RParen => Ok((LeftExpression::Expression(inner), after + 1)),
                _ => Err(err_at(after, "expected a closing parenthesis")),
            }
        },
        Token::Ident(id) => {
            if pos + 1 >= toks.len() {
                return Err(err_at(pos, "expected an operator after the field name"));
            }
            let op = match &toks[pos + 1] {
                Token::Op(op) => *op,
                _ => {
                    return Err(err_at(pos, "expected an operator after the field name"));
                },
            };
            if pos + 2 >= toks.len() {
                return Err(err_at(pos, "expected a value after the operator"));
            }
            let value = match &toks[pos + 2] {
                Token::Lit(v) => v.duplicate(),
                _ => {
                    return Err(err_at(pos, "expected a value after the operator"));
                },
            };
            let cond = Condition { ident: id.clone(), operator: op, value, field: None };
            Ok((LeftExpression::Condition(cond), pos + 3))
        },
        _ => Err(err_at(pos, "expected a condition or a parenthesised expression")),
    }
}

/// Parse an expression: terms joined left-associatively by `&&` and `||`,
/// with no precedence between the two.
pub fn parse_expression(toks: &Vec<Token>, pos: usize) -> (r: Result<
    (Expression, usize),
    ParseError,
>)
    requires
        pos <= toks@.len(),
        forall|i: int| 0 <= i < toks@.len() ==> token_wf(#[trigger] toks@[i]),
    ensures
        r matches Ok(p) ==> expr_wf(p.0) && pos < p.1 <= toks@.len(),
    decreases toks@.len() - pos, 1int,
{
    let (first, mut cur_pos) = match parse_term(toks, pos) {
        Ok(p) => p,
        Err(e) => {
            return Err(e);
        },
    };
    let mut cur = Expression { left: Box::new(first), operator: None, right: None };
    loop
        invariant
            cur_pos <= toks@.len(),
            pos < cur_pos,
            forall|i: int| 0 <= i < toks@.len() ==> token_wf(#[trigger] toks@[i]),
            expr_wf(cur),
        ensures
            cur_pos <= toks@.len(),
            pos < cur_pos,
            expr_wf(cur),
        decreases toks@.len() - cur_pos,
    {
        if cur_pos >= toks.len() {
            break;
        }
        let op: CombineOperator = match &toks[cur_pos] {
            Token::And => CombineOperator::And,
            Token::Or => CombineOperator::Or,
            _ => {
                break;
            },
        };
        let (rhs, after) = match parse_term(toks, cur_pos + 1) {
            Ok(p) => p,
            Err(e) => {
                return Err(e);
            },
        };
        let rhs_expr = Expression { left: Box::new(rhs), operator: None, right: None };
        proof {
            assert(expr_wf(rhs_expr));
        }
        cur = Expression {
            left: Box::new(LeftExpression::Expression(cur)),
            operator: Some(op),
            right: Some(Box::new(rhs_expr)),
        };
        proof {
            assert(expr_wf(cur));
        }
        cur_pos = after;
    }
    Ok((cur, cur_pos))
}

/// Parse a whole query: one expression covering every token.
pub fn make_expr(src: &str) -> (r: Result<Expression, ParseError>)
    ensures
        r matches Ok(e) ==> expr_wf(e),
{
    let toks = match tokenize(src) {
        Ok(ts) => ts,
        Err(e) => {
            return Err(e);
        },
    };
    let (expr, after) = match parse_expression(&toks, 0) {
        Ok(p) => p,
        Err(e) => {
            return Err(e);
        },
    };
    if after != toks.len() {
        return Err(err_at(after, "unexpected trailing input"));
    }
    Ok(expr)
}

} // verus!

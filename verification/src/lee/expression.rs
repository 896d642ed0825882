//! The boolean expression tree of the filter language.

use vstd::prelude::*;
use crate::lee::condition::{Condition, spec_eval_condition, FieldRef, value_wf};
use crate::lee::error::CompileError;
use crate::moving::Pilot;

verus! {

/// The boolean connective between two terms.
#[derive(Debug, Clone, Copy, PartialEq, Eq, Structural)]
pub enum CombineOperator {
    And,
    Or,
}

/// The left operand of an expression: a bare comparison or a parenthesised
/// subexpression.
#[derive(Debug)]
pub enum LeftExpression {
    Condition(Condition),
    Expression(Expression),
}

/// A boolean expression: a left operand, optionally combined with a right
/// expression.  A well-formed expression has a right operand exactly where
/// it has an operator.
#[derive(Debug)]
pub struct Expression {
    pub left: Box<LeftExpression>,
    pub operator: Option<CombineOperator>,
    pub right: Option<Box<Expression>>,
}

/// Well-formedness: an operator comes with a right operand, literals are
/// well-formed.
pub open spec fn expr_wf(e: Expression) -> bool
    decreases e,
{
    &&& (e.operator is Some <==> e.right is Some)
    &&& match *e.left {
        LeftExpression::Condition(c) => value_wf(c.value),
        LeftExpression::Expression(e2) => expr_wf(e2),
    }
    &&& match e.right {
        Option::Some(r) => expr_wf(*r),
        Option::None => true,
    }
}

/// What an expression says of one pilot.  The combination short-circuits,
/// which the result does not show; an expression without an operator is its
/// left operand.
pub open spec fn spec_eval_expr(e: Expression, p: Pilot) -> bool
    decreases e,
{
    let left_result = match *e.left {
        LeftExpression::Condition(c) => spec_eval_condition(c, p),
        LeftExpression::Expression(e2) => spec_eval_expr(e2, p),
    };
    match (e.operator, e.right) {
        (Option::Some(CombineOperator::And), Option::Some(r)) => left_result
            && spec_eval_expr(*r, p),
        (Option::Some(CombineOperator::Or), Option::Some(r)) => left_result
            || spec_eval_expr(*r, p),
        _ => left_result,
    }
}

/// Whether every condition of the tree is compiled against a field.
pub open spec fn expr_compiled(e: Expression) -> bool
    decreases e,
{
    &&& match *e.left {
        LeftExpression::Condition(c) => c.field is Some,
        LeftExpression::Expression(e2) => expr_compiled(e2),
    }
    &&& match e.right {
        Option::Some(r) => expr_compiled(*r),
        Option::None => true,
    }
}

impl Expression {
    /// Evaluate against one pilot, short-circuiting on `&&` and `||`.
    ///
    /// The result is a function of the expression and the pilot alone, as
    /// the contract states: repeated calls with the same pilot return the
    /// same boolean, so a compiled expression is safe to share.
    pub fn evaluate(&self, model: &Pilot) -> (r: bool)
        requires
            expr_wf(*self),
        ensures
            r == spec_eval_expr(*self, *model),
        decreases *self,
    {
        let left_result: bool = match &*self.left {
            LeftExpression::Condition(c) => c.evaluate(model),
            LeftExpression::Expression(e) => e.evaluate(model),
        };
        match (&self.operator, &self.right) {
            (Option::Some(CombineOperator::And), Option::Some(r)) => left_result
                && r.evaluate(model),
            (Option::Some(CombineOperator::Or), Option::Some(r)) => left_result
                || r.evaluate(model),
            _ => left_result,
        }
    }
}


/// Whether some condition of the tree names an unknown field.
pub open spec fn expr_has_unknown_ident(e: Expression) -> bool
    decreases e,
{
    ||| match *e.left {
        LeftExpression::Condition(c) => crate::web::filter::spec_field_of(c.ident@) is None,
        LeftExpression::Expression(e2) => expr_has_unknown_ident(e2),
    }
    ||| match e.right {
        Option::Some(r) => expr_has_unknown_ident(*r),
        Option::None => false,
    }
}

/// The compiled image of a tree: the same shape, identifiers, operators
/// and literals, with every condition's field resolved from its
/// identifier.
pub open spec fn compiled_matches(e0: Expression, e1: Expression) -> bool
    decreases e0,
{
    &&& e1.operator == e0.operator
    &&& match (*e0.left, *e1.left) {
        (LeftExpression::Condition(c0), LeftExpression::Condition(c1)) => {
            &&& c1.ident@ == c0.ident@
            &&& c1.operator == c0.operator
            &&& crate::lee::condition::value_eq(c1.value, c0.value)
            &&& crate::web::filter::spec_field_of(c0.ident@) is Some
            &&& c1.field == Some(crate::web::filter::spec_field_of(c0.ident@)->Some_0)
        },
        (LeftExpression::Expression(s0), LeftExpression::Expression(s1)) =>
            compiled_matches(s0, s1),
        _ => false,
    }
    &&& match (e0.right, e1.right) {
        (Option::Some(r0), Option::Some(r1)) => compiled_matches(*r0, *r1),
        (Option::None, Option::None) => true,
        _ => false,
    }
}

impl Expression {
    /// Compile the whole tree against the allowed pilot fields: every
    /// condition gets its field reference, or the first unknown identifier
    /// aborts the compilation.  The result is the submitted tree with the
    /// fields resolved and nothing else changed.
    pub fn compile(self) -> (r: Result<Expression, CompileError>)
        ensures
            match r {
                Ok(e) => !expr_has_unknown_ident(self) && expr_compiled(e)
                    && compiled_matches(self, e)
                    && (expr_wf(self) ==> expr_wf(e)),
                Err(_) => expr_has_unknown_ident(self),
            },
        decreases self,
    {
        let Expression { left, operator, right } = self;
        let ghost self0 = Expression { left, operator, right };
        let left2: LeftExpression = match *left {
            LeftExpression::Condition(c) => match c.compile() {
                Ok(c2) => LeftExpression::Condition(c2),
                Err(p) => {
                    return Err(p.1);
                },
            },
            LeftExpression::Expression(e) => match e.compile() {
                Ok(e2) => LeftExpression::Expression(e2),
                Err(err) => {
                    return Err(err);
                },
            },
        };
        let right2: Option<Box<Expression>> = match right {
            Option::Some(bx) => match (*bx).compile() {
                Ok(e2) => Some(Box::new(e2)),
                Err(err) => {
                    return Err(err);
                },
            },
            Option::None => None,
        };
        Ok(Expression { left: Box::new(left2), operator, right: right2 })
    }
}

} // verus!

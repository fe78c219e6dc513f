//! The syntax tree that the parser produces.

use vstd::prelude::*;

verus! {

/// A node of the syntax tree.
///
/// A node owns its children. A number keeps its literal text: no numeric
/// conversion takes place here.
#[derive(PartialEq, Debug)]
pub enum Expression {
    Identifier(String),
    Number(String),
    ProcedureCall(Box<Expression>, Vec<Box<Expression>>),
}

/// The mathematical value of an [`Expression`].
pub enum ExpressionView {
    Identifier(Seq<char>),
    Number(Seq<char>),
    ProcedureCall(Box<ExpressionView>, Seq<ExpressionView>),
}

impl Expression {
    /// The mathematical value of the expression, child by child.
    pub open spec fn model(self) -> ExpressionView
        decreases self,
    {
        match self {
            Expression::Identifier(name) => ExpressionView::Identifier(name@),
            Expression::Number(literal) => ExpressionView::Number(literal@),
            Expression::ProcedureCall(operator, operands) => ExpressionView::ProcedureCall(
                Box::new((*operator).model()),
                Expression::models(operands@),
            ),
        }
    }

    /// The mathematical values of several expressions, in the same order.
    pub open spec fn models(expressions: Seq<Box<Expression>>) -> Seq<ExpressionView>
        decreases expressions,
    {
        Seq::new(
            expressions.len(),
            |i: int|
                if 0 <= i < expressions.len() {
                    (*expressions[i]).model()
                } else {
                    arbitrary()
                },
        )
    }
}

impl View for Expression {
    type V = ExpressionView;

    open spec fn view(&self) -> ExpressionView {
        self.model()
    }
}

} // verus!

//! The grammar, as mathematical functions on sequences of tokens.
//!
//! ```text
//! expression ::= NUMBER | IDENTIFIER | "(" expression expression* ")"
//! ```
//!
//! [`parse_expression`] says what reading one expression from the front of a
//! token sequence yields and how many tokens it takes. [`tokens_of`] goes the
//! other way and writes an expression out as tokens.

use vstd::prelude::*;
use crate::expression::ExpressionView;
use crate::token::TokenView;

verus! {

/// What reading one expression ends in.
pub enum Outcome {
    /// An expression was read.
    Node(ExpressionView),
    /// No expression starts here: the input has ended, or the next token is
    /// none that an expression starts with.
    Nothing,
    /// The parentheses do not match.
    Unmatched,
}

/// The result of reading one expression from the front of a token sequence.
pub struct Parsed {
    pub outcome: Outcome,
    /// The number of tokens taken from the front of the sequence.
    pub used: nat,
}

/// The result of reading the operands of a call up to its closing parenthesis.
pub struct ParsedOperands {
    /// The operands in order, or `None` where the list does not close.
    pub operands: Option<Seq<ExpressionView>>,
    /// The number of tokens taken from the front of the sequence, the closing
    /// parenthesis included.
    pub used: nat,
}

impl ParsedOperands {
    /// The result for a list of which `operands`, read from `used` tokens,
    /// stand before what `self` describes.
    pub open spec fn after(self, operands: Seq<ExpressionView>, used: nat) -> ParsedOperands {
        ParsedOperands {
            operands: match self.operands {
                Some(others) => Some(operands + others),
                None => None,
            },
            used: used + self.used,
        }
    }
}

/// Reads one expression from the front of `tokens`.
///
/// A number or an identifier is an expression by itself. An opening
/// parenthesis starts a call. A closing parenthesis where an expression should
/// start is an error, and nothing is taken. At the end of the input, and at
/// any other token, there is no expression, and nothing is taken.
pub open spec fn parse_expression(tokens: Seq<TokenView>) -> Parsed
    decreases tokens.len(), 0nat,
{
    if tokens.len() == 0 {
        Parsed { outcome: Outcome::Nothing, used: 0 }
    } else {
        match tokens[0] {
            TokenView::Number(literal) => Parsed {
                outcome: Outcome::Node(ExpressionView::Number(literal)),
                used: 1,
            },
            TokenView::Identifier(name) => Parsed {
                outcome: Outcome::Node(ExpressionView::Identifier(name)),
                used: 1,
            },
            TokenView::LeftParen => {
                let call = parse_call(tokens.skip(1));
                Parsed { outcome: call.outcome, used: call.used + 1 }
            },
            TokenView::RightParen => Parsed { outcome: Outcome::Unmatched, used: 0 },
            TokenView::Other(_) => Parsed { outcome: Outcome::Nothing, used: 0 },
        }
    }
}

/// Reads a call whose opening parenthesis has been taken: the operator, then
/// the operands up to the closing parenthesis.
///
/// Where no expression stands in the operator's place there is no call, and
/// no error either. An error in the operator or in the operands is the
/// call's error.
///
/// The test on `operator.used` serves the termination proof alone: it holds
/// of every input, as [`crate::laws::lemma_used_is_bounded`] shows.
pub open spec fn parse_call(tokens: Seq<TokenView>) -> Parsed
    decreases tokens.len(), 2nat,
{
    let operator = parse_expression(tokens);
    match operator.outcome {
        Outcome::Node(function) => {
            if operator.used <= tokens.len() {
                let list = parse_operands(tokens.skip(operator.used as int));
                Parsed {
                    outcome: match list.operands {
                        Some(operands) => Outcome::Node(
                            ExpressionView::ProcedureCall(Box::new(function), operands),
                        ),
                        None => Outcome::Unmatched,
                    },
                    used: operator.used + list.used,
                }
            } else {
                Parsed { outcome: Outcome::Unmatched, used: operator.used }
            }
        },
        Outcome::Nothing => Parsed { outcome: Outcome::Nothing, used: operator.used },
        Outcome::Unmatched => Parsed { outcome: Outcome::Unmatched, used: operator.used },
    }
}

/// Reads operands up to the closing parenthesis of their call.
///
/// The list closes at a closing parenthesis, which is taken. It does not
/// close where the input ends first, where an operand is in error, or where
/// a token stands that no expression starts with.
///
/// The test on `first.used` serves the termination proof alone: it holds of
/// every input, as [`crate::laws::lemma_used_is_bounded`] shows.
pub open spec fn parse_operands(tokens: Seq<TokenView>) -> ParsedOperands
    decreases tokens.len(), 1nat,
{
    if tokens.len() == 0 {
        ParsedOperands { operands: None, used: 0 }
    } else if tokens[0] is RightParen {
        ParsedOperands { operands: Some(Seq::empty()), used: 1 }
    } else {
        let first = parse_expression(tokens);
        match first.outcome {
            Outcome::Node(operand) => {
                if 0 < first.used <= tokens.len() {
                    parse_operands(tokens.skip(first.used as int)).after(
                        seq![operand],
                        first.used,
                    )
                } else {
                    ParsedOperands { operands: None, used: first.used }
                }
            },
            _ => ParsedOperands { operands: None, used: first.used },
        }
    }
}

/// The tokens that an expression is written as.
pub open spec fn tokens_of(expression: ExpressionView) -> Seq<TokenView>
    decreases expression,
{
    match expression {
        ExpressionView::Identifier(name) => seq![TokenView::Identifier(name)],
        ExpressionView::Number(literal) => seq![TokenView::Number(literal)],
        ExpressionView::ProcedureCall(operator, operands) => seq![TokenView::LeftParen]
            + tokens_of(*operator) + tokens_of_all(operands) + seq![TokenView::RightParen],
    }
}

/// The tokens of several expressions, one after the other.
pub open spec fn tokens_of_all(expressions: Seq<ExpressionView>) -> Seq<TokenView>
    decreases expressions,
{
    if expressions.len() == 0 {
        Seq::empty()
    } else {
        tokens_of(expressions[0]) + tokens_of_all(expressions.drop_first())
    }
}

/// How many more parentheses `tokens` opens than it closes.
pub open spec fn depth(tokens: Seq<TokenView>) -> int
    decreases tokens.len(),
{
    if tokens.len() == 0 {
        0
    } else {
        depth(tokens.drop_last()) + match tokens.last() {
            TokenView::LeftParen => 1int,
            TokenView::RightParen => -1int,
            _ => 0int,
        }
    }
}

/// Whether a whole expression stands at the front of `tokens`.
pub open spec fn starts_with_expression(tokens: Seq<TokenView>) -> bool {
    exists|expression: ExpressionView| (#[trigger] tokens_of(expression)).is_prefix_of(tokens)
}

/// Whether `tokens` starts a list that the input ends in: it begins with an
/// opening parenthesis, and at no token are as many parentheses closed as
/// have been opened.
pub open spec fn never_closes(tokens: Seq<TokenView>) -> bool {
    &&& tokens.len() > 0
    &&& forall|k: int| 1 <= k <= tokens.len() ==> depth(#[trigger] tokens.take(k)) >= 1
}

/// Whether `tokens` is made of opening parentheses up to its end, or up to a
/// token that no expression starts with. These are the inputs on which
/// there is no expression where the first one should start.
pub open spec fn starts_nothing(tokens: Seq<TokenView>) -> bool
    decreases tokens.len(),
{
    if tokens.len() == 0 {
        true
    } else {
        match tokens[0] {
            TokenView::Other(_) => true,
            TokenView::LeftParen => starts_nothing(tokens.skip(1)),
            _ => false,
        }
    }
}

} // verus!

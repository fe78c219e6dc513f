//! What holds of the grammar on every sequence of tokens, with proofs.

use vstd::prelude::*;
use crate::expression::ExpressionView;
use crate::grammar::{
    depth, never_closes, parse_call, parse_expression, parse_operands, starts_nothing,
    starts_with_expression, tokens_of, tokens_of_all, Outcome, Parsed, ParsedOperands,
};
use crate::token::TokenView;

verus! {

/// Reading never takes more tokens than there are, and an expression takes at
/// least one. The same holds of a call after its opening parenthesis and of an
/// operand list, which takes at least its closing parenthesis.
pub proof fn lemma_used_is_bounded(tokens: Seq<TokenView>)
    ensures
        parse_expression(tokens).used <= tokens.len(),
        parse_expression(tokens).outcome is Node ==> parse_expression(tokens).used >= 1,
        parse_call(tokens).used <= tokens.len(),
        parse_call(tokens).outcome is Node ==> parse_call(tokens).used >= 2,
        parse_operands(tokens).used <= tokens.len(),
        parse_operands(tokens).operands is Some ==> parse_operands(tokens).used >= 1,
    decreases tokens.len(),
{
    if tokens.len() > 0 {
        lemma_used_is_bounded(tokens.skip(1));
        let first = parse_expression(tokens);
        if first.outcome is Node {
            lemma_used_is_bounded(tokens.skip(first.used as int));
        }
    }
}

/// An expression is written as at least one token, and the first is no
/// closing parenthesis.
pub proof fn lemma_written_starts_expression(expression: ExpressionView)
    ensures
        tokens_of(expression).len() >= 1,
        !(tokens_of(expression)[0] is RightParen),
{
}

/// Reading gives back what was written: the tokens of an expression, whatever
/// follows them, are read as that expression, and all of them are taken. This
/// holds at any depth of nesting.
pub proof fn lemma_written_is_read(expression: ExpressionView, rest: Seq<TokenView>)
    ensures
        parse_expression(tokens_of(expression) + rest) == (Parsed {
            outcome: Outcome::Node(expression),
            used: tokens_of(expression).len(),
        }),
    decreases expression,
{
    let tokens = tokens_of(expression) + rest;
    match expression {
        ExpressionView::ProcedureCall(operator, operands) => {
            let list = tokens_of_all(operands) + seq![TokenView::RightParen] + rest;
            let body = tokens_of(*operator) + list;
            assert(tokens.skip(1) =~= body);
            lemma_written_is_read(*operator, list);
            assert(body.skip(tokens_of(*operator).len() as int) =~= list);
            lemma_operands_written_are_read(operands, rest);
        },
        _ => {},
    }
}

/// The operands of a call, written one after the other and closed by a
/// parenthesis, are read as those operands up to and with the parenthesis.
pub proof fn lemma_operands_written_are_read(
    operands: Seq<ExpressionView>,
    rest: Seq<TokenView>,
)
    ensures
        parse_operands(tokens_of_all(operands) + seq![TokenView::RightParen] + rest) == (
        ParsedOperands {
            operands: Some(operands),
            used: tokens_of_all(operands).len() + 1,
        }),
    decreases operands,
{
    let tokens = tokens_of_all(operands) + seq![TokenView::RightParen] + rest;
    if operands.len() == 0 {
        assert(operands =~= Seq::empty());
    } else {
        let first = operands[0];
        let others = operands.drop_first();
        let list = tokens_of_all(others) + seq![TokenView::RightParen] + rest;
        assert(tokens =~= tokens_of(first) + list);
        lemma_written_starts_expression(first);
        lemma_written_is_read(first, list);
        assert(tokens.skip(tokens_of(first).len() as int) =~= list);
        lemma_operands_written_are_read(others, rest);
        assert(seq![first] + others =~= operands);
    }
}

/// What was read is what was written: where an expression is read, the tokens
/// taken are exactly the tokens of that expression. So every call that the
/// parser returns stands for a region of the input from an opening
/// parenthesis to the one that closes it.
pub proof fn lemma_read_is_written(tokens: Seq<TokenView>)
    ensures
        parse_expression(tokens).outcome matches Outcome::Node(expression) ==> tokens.take(
            parse_expression(tokens).used as int,
        ) == tokens_of(expression),
        parse_call(tokens).outcome matches Outcome::Node(expression) ==> seq![
            TokenView::LeftParen,
        ] + tokens.take(parse_call(tokens).used as int) == tokens_of(expression),
        parse_operands(tokens).operands matches Some(operands) ==> tokens.take(
            parse_operands(tokens).used as int,
        ) == tokens_of_all(operands) + seq![TokenView::RightParen],
    decreases tokens.len(),
{
    lemma_used_is_bounded(tokens);
    if tokens.len() > 0 {
        let first = parse_expression(tokens);
        match tokens[0] {
            TokenView::LeftParen => {
                lemma_read_is_written(tokens.skip(1));
                assert(tokens.take(first.used as int) =~= seq![TokenView::LeftParen]
                    + tokens.skip(1).take(first.used - 1));
            },
            TokenView::RightParen => {
                assert(tokens.take(1) =~= Seq::empty() + seq![TokenView::RightParen]);
            },
            _ => {
                assert(tokens.take(1) =~= seq![tokens[0]]);
            },
        }
        if let Outcome::Node(expression) = first.outcome {
            let after = tokens.skip(first.used as int);
            lemma_read_is_written(after);
            lemma_used_is_bounded(after);
            let list = parse_operands(after);
            if let Some(operands) = list.operands {
                assert(tokens.take((first.used + list.used) as int) =~= tokens.take(
                    first.used as int,
                ) + after.take(list.used as int));
                let written = tokens_of(expression);
                let closed = tokens_of_all(operands) + seq![TokenView::RightParen];
                assert(seq![TokenView::LeftParen] + (written + closed) =~= seq![
                    TokenView::LeftParen,
                ] + written + tokens_of_all(operands) + seq![TokenView::RightParen]);
                let all = seq![expression] + operands;
                assert(all.drop_first() =~= operands);
                assert(tokens_of_all(all) == written + tokens_of_all(operands));
                assert(written + closed =~= tokens_of_all(all) + seq![TokenView::RightParen]);
            }
        }
    }
}

/// The depth of two sequences joined is the sum of their depths.
pub proof fn lemma_depth_of_joined(front: Seq<TokenView>, back: Seq<TokenView>)
    ensures
        depth(front + back) == depth(front) + depth(back),
    decreases back.len(),
{
    if back.len() == 0 {
        assert(front + back =~= front);
    } else {
        assert((front + back).drop_last() =~= front + back.drop_last());
        lemma_depth_of_joined(front, back.drop_last());
    }
}

/// The depth of a single token: one for an opening parenthesis, minus one for
/// a closing one, zero for any other.
pub proof fn lemma_depth_of_one(token: TokenView)
    ensures
        depth(seq![token]) == match token {
            TokenView::LeftParen => 1int,
            TokenView::RightParen => -1int,
            _ => 0int,
        },
{
    assert(seq![token].drop_last() =~= Seq::empty());
    assert(depth(seq![token].drop_last()) == 0);
}

/// An expression is written with balanced parentheses: as many are closed as
/// are opened. So are several expressions written one after the other.
pub proof fn lemma_written_is_balanced(expression: ExpressionView)
    ensures
        depth(tokens_of(expression)) == 0,
    decreases expression,
{
    match expression {
        ExpressionView::ProcedureCall(operator, operands) => {
            let open = seq![TokenView::LeftParen];
            let close = seq![TokenView::RightParen];
            lemma_written_is_balanced(*operator);
            lemma_all_written_are_balanced(operands);
            lemma_depth_of_one(TokenView::LeftParen);
            lemma_depth_of_one(TokenView::RightParen);
            lemma_depth_of_joined(open, tokens_of(*operator));
            lemma_depth_of_joined(open + tokens_of(*operator), tokens_of_all(operands));
            lemma_depth_of_joined(
                open + tokens_of(*operator) + tokens_of_all(operands),
                close,
            );
        },
        ExpressionView::Identifier(name) => {
            lemma_depth_of_one(TokenView::Identifier(name));
        },
        ExpressionView::Number(literal) => {
            lemma_depth_of_one(TokenView::Number(literal));
        },
    }
}

/// Several expressions written one after the other have balanced parentheses.
pub proof fn lemma_all_written_are_balanced(expressions: Seq<ExpressionView>)
    ensures
        depth(tokens_of_all(expressions)) == 0,
    decreases expressions,
{
    if expressions.len() > 0 {
        lemma_written_is_balanced(expressions[0]);
        lemma_all_written_are_balanced(expressions.drop_first());
        lemma_depth_of_joined(
            tokens_of(expressions[0]),
            tokens_of_all(expressions.drop_first()),
        );
    }
}

/// There is no expression exactly where the input is made of opening
/// parentheses up to its end or up to a token that no expression starts with.
pub proof fn lemma_nothing_is_read(tokens: Seq<TokenView>)
    ensures
        parse_expression(tokens).outcome is Nothing <==> starts_nothing(tokens),
        parse_call(tokens).outcome is Nothing <==> starts_nothing(tokens),
    decreases tokens.len(),
{
    if tokens.len() > 0 {
        lemma_nothing_is_read(tokens.skip(1));
    }
}

/// The input decides the outcome. An expression is read exactly where a whole
/// expression stands at the front of the input. There is none exactly where
/// the input is made of opening parentheses up to its end or up to a token
/// that no expression starts with. Every other input is an error.
pub proof fn lemma_outcome_by_input(tokens: Seq<TokenView>)
    ensures
        parse_expression(tokens).outcome is Node <==> starts_with_expression(tokens),
        parse_expression(tokens).outcome is Nothing <==> starts_nothing(tokens),
        parse_expression(tokens).outcome is Unmatched <==> !starts_with_expression(tokens)
            && !starts_nothing(tokens),
{
    lemma_nothing_is_read(tokens);
    lemma_used_is_bounded(tokens);
    lemma_read_is_written(tokens);
    if let Outcome::Node(expression) = parse_expression(tokens).outcome {
        assert(tokens_of(expression).is_prefix_of(tokens));
    }
    if starts_with_expression(tokens) {
        let expression = choose|expression: ExpressionView|
            (#[trigger] tokens_of(expression)).is_prefix_of(tokens);
        let written = tokens_of(expression);
        assert(tokens =~= written + tokens.skip(written.len() as int));
        lemma_written_is_read(expression, tokens.skip(written.len() as int));
    }
}

/// Where an expression is read, the tokens taken have balanced parentheses.
pub proof fn lemma_read_is_balanced(tokens: Seq<TokenView>)
    ensures
        parse_expression(tokens).outcome is Node ==> depth(
            tokens.take(parse_expression(tokens).used as int),
        ) == 0,
{
    lemma_read_is_written(tokens);
    if let Outcome::Node(expression) = parse_expression(tokens).outcome {
        lemma_written_is_balanced(expression);
    }
}

/// A list that is not closed is an error: where the input starts a list and
/// ends before the list is closed, reading reports unmatched parentheses,
/// whatever stands in the list. The one exception is a list cut off before
/// its operator, for which there is no expression and no error.
pub proof fn lemma_unterminated_list_is_error(tokens: Seq<TokenView>)
    requires
        never_closes(tokens),
        !starts_nothing(tokens),
    ensures
        parse_expression(tokens).outcome is Unmatched,
{
    lemma_nothing_is_read(tokens);
    lemma_used_is_bounded(tokens);
    lemma_read_is_balanced(tokens);
}

/// Within what an expression is written as, no more parentheses are closed
/// than have been opened; within a call, from its opening parenthesis up to
/// before the closing one, at least one is open.
pub proof fn lemma_depth_within_written(expression: ExpressionView, length: int)
    requires
        0 <= length <= tokens_of(expression).len(),
    ensures
        depth(tokens_of(expression).take(length)) >= 0,
        expression is ProcedureCall && 1 <= length < tokens_of(expression).len() ==> depth(
            tokens_of(expression).take(length),
        ) >= 1,
    decreases expression,
{
    let written = tokens_of(expression);
    if length == written.len() {
        assert(written.take(length) =~= written);
        lemma_written_is_balanced(expression);
    } else if length == 0 {
        assert(written.take(0).len() == 0);
    } else {
        match expression {
            ExpressionView::ProcedureCall(operator, operands) => {
                let open = seq![TokenView::LeftParen];
                let front = tokens_of(*operator);
                let back = tokens_of_all(operands);
                let inner = length - 1;
                lemma_depth_of_one(TokenView::LeftParen);
                if inner <= front.len() {
                    assert(written.take(length) =~= open + front.take(inner));
                    lemma_depth_within_written(*operator, inner);
                    lemma_depth_of_joined(open, front.take(inner));
                } else {
                    let last = inner - front.len();
                    assert(written.take(length) =~= open + front + back.take(last));
                    lemma_written_is_balanced(*operator);
                    lemma_depth_within_all_written(operands, last);
                    lemma_depth_of_joined(open, front);
                    lemma_depth_of_joined(open + front, back.take(last));
                }
            },
            _ => {},
        }
    }
}

/// Within several expressions written one after the other, no more
/// parentheses are closed than have been opened.
pub proof fn lemma_depth_within_all_written(expressions: Seq<ExpressionView>, length: int)
    requires
        0 <= length <= tokens_of_all(expressions).len(),
    ensures
        depth(tokens_of_all(expressions).take(length)) >= 0,
    decreases expressions,
{
    let written = tokens_of_all(expressions);
    if length == 0 {
        assert(written.take(0).len() == 0);
    } else {
        let front = tokens_of(expressions[0]);
        let back = tokens_of_all(expressions.drop_first());
        if length <= front.len() {
            assert(written.take(length) =~= front.take(length));
            lemma_depth_within_written(expressions[0], length);
        } else {
            let last = length - front.len();
            assert(written.take(length) =~= front + back.take(last));
            lemma_written_is_balanced(expressions[0]);
            lemma_depth_within_all_written(expressions.drop_first(), last);
            lemma_depth_of_joined(front, back.take(last));
        }
    }
}

/// A call cut off is an error: of the tokens that a call is written as, any
/// part from the opening parenthesis up to before the closing one is a list
/// that is not closed, and reading it reports unmatched parentheses. The one
/// exception is a call cut off before its operator.
pub proof fn lemma_truncated_call_is_error(call: ExpressionView, kept: int)
    requires
        call is ProcedureCall,
        1 <= kept < tokens_of(call).len(),
    ensures
        never_closes(tokens_of(call).take(kept)),
        !starts_nothing(tokens_of(call).take(kept)) ==> parse_expression(
            tokens_of(call).take(kept),
        ).outcome is Unmatched,
{
    let tokens = tokens_of(call).take(kept);
    assert forall|k: int| 1 <= k <= tokens.len() implies depth(#[trigger] tokens.take(k))
        >= 1 by {
        assert(tokens.take(k) =~= tokens_of(call).take(k));
        lemma_depth_within_written(call, k);
    }
    if !starts_nothing(tokens) {
        lemma_unterminated_list_is_error(tokens);
    }
}

/// A closing parenthesis where an expression should start is an error, and
/// it is not taken.
pub proof fn lemma_stray_closer_is_error(tokens: Seq<TokenView>)
    requires
        tokens.len() > 0,
        tokens[0] is RightParen,
    ensures
        parse_expression(tokens) == (Parsed { outcome: Outcome::Unmatched, used: 0 }),
{
}

/// A number or an identifier is read as a leaf that keeps the token's text
/// as it stands: written out again, the leaf is the token that was read.
pub proof fn lemma_leaf_keeps_text(token: TokenView, rest: Seq<TokenView>)
    requires
        token.is_leaf(),
    ensures
        parse_expression(seq![token] + rest).used == 1,
        parse_expression(seq![token] + rest).outcome matches Outcome::Node(leaf) && tokens_of(leaf)
            == seq![token] && match leaf {
            ExpressionView::Number(literal) => token == TokenView::Number(literal),
            ExpressionView::Identifier(name) => token == TokenView::Identifier(name),
            ExpressionView::ProcedureCall(_, _) => false,
        },
{
}

/// Two expressions written one after the other are read one after the other:
/// the first reading gives the first, the second gives the second, and a
/// third finds the input at its end and gives no expression.
pub proof fn lemma_expressions_are_read_in_order(first: ExpressionView, second: ExpressionView)
    ensures
        ({
            let tokens = tokens_of(first) + tokens_of(second);
            let after_first = tokens.skip(tokens_of(first).len() as int);
            let after_second = after_first.skip(tokens_of(second).len() as int);
            &&& parse_expression(tokens) == (Parsed {
                outcome: Outcome::Node(first),
                used: tokens_of(first).len(),
            })
            &&& parse_expression(after_first) == (Parsed {
                outcome: Outcome::Node(second),
                used: tokens_of(second).len(),
            })
            &&& parse_expression(after_second) == (Parsed { outcome: Outcome::Nothing, used: 0 })
        }),
{
    let tokens = tokens_of(first) + tokens_of(second);
    lemma_written_is_read(first, tokens_of(second));
    assert(tokens.skip(tokens_of(first).len() as int) =~= tokens_of(second) + Seq::empty());
    lemma_written_is_read(second, Seq::empty());
}

} // verus!

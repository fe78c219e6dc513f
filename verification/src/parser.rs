//! The parser: a token cursor with one token of lookahead.

use vstd::prelude::*;
use vstd::seq_lib::lemma_seq_skip_of_skip;
use vstd::std_specs::iter::IteratorSpec;
use crate::error::{unmatched_parentheses, SyntaxError};
use crate::expression::{Expression, ExpressionView};
use crate::grammar::{parse_call, parse_expression, parse_operands, Outcome};
use crate::laws::lemma_used_is_bounded;
use crate::token::{views, Token, TokenView};

verus! {

/// The tokens that a parser has yet to read: its lookahead, then what its
/// source will still yield. Once the lookahead is empty the parser reads no
/// more.
pub open spec fn pending(lookahead: Option<Token>, rest: Seq<Token>) -> Seq<TokenView> {
    match lookahead {
        Some(token) => seq![token@] + views(rest),
        None => Seq::empty(),
    }
}

/// The first of `tokens`, if there is one.
pub open spec fn head(tokens: Seq<Token>) -> Option<Token> {
    if tokens.len() > 0 {
        Some(tokens[0])
    } else {
        None
    }
}

/// What follows the first of `tokens`; nothing where there is none.
pub open spec fn tail(tokens: Seq<Token>) -> Seq<Token> {
    if tokens.len() > 0 {
        tokens.drop_first()
    } else {
        tokens
    }
}

/// Whether `result` is what a parse with the given outcome returns.
pub open spec fn reports(
    result: Result<Option<Box<Expression>>, SyntaxError>,
    outcome: Outcome,
) -> bool {
    match outcome {
        Outcome::Node(expression) => result matches Ok(Some(node)) && node@ == expression,
        Outcome::Nothing => result == Ok::<Option<Box<Expression>>, SyntaxError>(None),
        Outcome::Unmatched => result matches Err(e) && e.error@ == unmatched_parentheses(),
    }
}

/// A parser over a source of tokens.
///
/// It holds the source and the next token, taken from the source ahead of
/// time. Each call of [`Parser::parse`] reads one expression.
pub struct Parser<TokenIter: Iterator<Item = Token> + Clone> {
    current: Option<Token>,
    lexer: TokenIter,
}

impl<TokenIter: Iterator<Item = Token> + Clone> Parser<TokenIter> {
    /// The token that the parser looks at, if the input has not ended.
    pub closed spec fn lookahead(&self) -> Option<Token> {
        self.current
    }

    /// The source that the parser takes its tokens from.
    pub closed spec fn source(&self) -> TokenIter {
        self.lexer
    }

    /// A bound on the work left: it falls with every token taken.
    pub closed spec fn fuel(&self) -> nat {
        match self.current {
            Some(_) => self.lexer.decrease()->0 + 1,
            None => 0,
        }
    }

    /// Whether the source keeps the laws of iterators and is known to end.
    pub closed spec fn well_formed(&self) -> bool {
        &&& self.lexer.obeys_prophetic_iter_laws()
        &&& self.lexer.decrease() is Some
    }

    /// A parser at the first token of `lexer`: the token is taken from the
    /// source and held as the lookahead. Where the source yields none, the
    /// lookahead is empty.
    ///
    /// The source has to keep the laws of iterators, so that it ends and
    /// stays at its end, and has to come with a measure of what is left.
    pub fn new(mut lexer: TokenIter) -> (parser: Parser<TokenIter>)
        requires
            lexer.obeys_prophetic_iter_laws(),
            lexer.decrease() is Some,
        ensures
            parser.well_formed(),
            parser.lookahead() == head(lexer.remaining()),
            parser.source().remaining() == tail(lexer.remaining()),
            pending(parser.lookahead(), parser.source().remaining()) == views(lexer.remaining()),
    {
        let current = lexer.next();
        Self { current, lexer }
    }

    /// Takes the next token from the source into the lookahead; the token
    /// that was there is dropped. At the end of the input the lookahead
    /// becomes empty and stays so.
    fn advance(&mut self)
        requires
            old(self).well_formed(),
        ensures
            final(self).well_formed(),
            final(self).lookahead() == head(old(self).source().remaining()),
            final(self).source().remaining() == tail(old(self).source().remaining()),
            old(self).lookahead() is Some ==> pending(
                final(self).lookahead(),
                final(self).source().remaining(),
            ) == pending(old(self).lookahead(), old(self).source().remaining()).skip(1),
            old(self).lookahead() is Some ==> final(self).fuel() < old(self).fuel(),
    {
        self.current = self.lexer.next();
    }

    /// Reads one expression from the pending tokens, as
    /// [`parse_expression`] describes it, and steps past the tokens taken.
    ///
    /// Returns the expression, or `None` where no expression starts at the
    /// lookahead, or the error for parentheses that do not match. After an
    /// error the parser stands where the error was found. Calling again reads
    /// the next expression, so a whole input is read by calling until `None`
    /// comes back.
    pub fn parse(&mut self) -> (result: Result<Option<Box<Expression>>, SyntaxError>)
        requires
            old(self).well_formed(),
        ensures
            final(self).well_formed(),
            ({
                let tokens = pending(old(self).lookahead(), old(self).source().remaining());
                let parsed = parse_expression(tokens);
                &&& reports(result, parsed.outcome)
                &&& parsed.used <= tokens.len()
                &&& pending(final(self).lookahead(), final(self).source().remaining())
                    == tokens.skip(parsed.used as int)
            }),
            final(self).fuel() <= old(self).fuel(),
            result matches Ok(Some(_)) ==> final(self).fuel() < old(self).fuel(),
        decreases old(self).fuel(), 1nat,
    {
        proof {
            lemma_used_is_bounded(pending(self.current, self.lexer.remaining()));
        }
        match &self.current {
            Some(token) => match token {
                Token::Number(a) => {
                    let literal = a.clone();
                    self.generate(Box::new(Expression::Number(literal)))
                },
                Token::Identifier(a) => {
                    let name = a.clone();
                    self.generate(Box::new(Expression::Identifier(name)))
                },
                Token::LeftParen => self.procedure_call(),
                Token::RightParen => Err(SyntaxError::new("Unmatched Parentheses!")),
                _ => Ok(None),
            },
            None => Ok(None),
        }
    }

    /// Reads a call, as [`parse_call`] describes it: steps past the opening
    /// parenthesis in the lookahead, reads the operator, then gathers operands
    /// up to the closing parenthesis and steps past it.
    fn procedure_call(&mut self) -> (result: Result<Option<Box<Expression>>, SyntaxError>)
        requires
            old(self).well_formed(),
            old(self).lookahead() is Some,
        ensures
            final(self).well_formed(),
            ({
                let tokens = pending(old(self).lookahead(), old(self).source().remaining());
                let call = parse_call(tokens.skip(1));
                &&& reports(result, call.outcome)
                &&& call.used + 1 <= tokens.len()
                &&& pending(final(self).lookahead(), final(self).source().remaining())
                    == tokens.skip((call.used + 1) as int)
            }),
            final(self).fuel() < old(self).fuel(),
        decreases old(self).fuel(), 0nat,
    {
        let ghost tokens = pending(self.current, self.lexer.remaining());
        self.advance();
        proof {
            lemma_used_is_bounded(tokens.skip(1));
        }
        match self.parse()? {
            None => Ok(None),
            Some(operator) => {
                let ghost start = parse_expression(tokens.skip(1)).used + 1;
                let ghost at = start;
                let mut params: Vec<Box<Expression>> = Vec::new();
                proof {
                    lemma_seq_skip_of_skip(tokens, 1, start - 1);
                    assert(forall|others: Seq<ExpressionView>|
                        Expression::models(params@) + others =~= others);
                }
                loop
                    invariant
                        self.well_formed(),
                        self.fuel() < old(self).fuel(),
                        tokens == pending(old(self).lookahead(), old(self).source().remaining()),
                        parse_expression(tokens.skip(1)).outcome == Outcome::Node(operator@),
                        start == parse_expression(tokens.skip(1)).used + 1,
                        start <= at <= tokens.len(),
                        pending(self.current, self.lexer.remaining()) == tokens.skip(at as int),
                        parse_operands(tokens.skip(start as int)) == parse_operands(
                            tokens.skip(at as int),
                        ).after(Expression::models(params@), (at - start) as nat),
                    decreases self.fuel(),
                {
                    let ghost here = tokens.skip(at as int);
                    proof {
                        lemma_used_is_bounded(here);
                        lemma_seq_skip_of_skip(tokens, 1, start - 1);
                    }
                    match &self.current {
                        Some(Token::RightParen) => {
                            proof {
                                lemma_seq_skip_of_skip(tokens, at as int, 1);
                                assert(Expression::models(params@) + Seq::empty()
                                    =~= Expression::models(params@));
                            }
                            return self.generate(
                                Box::new(Expression::ProcedureCall(operator, params)),
                            );
                        },
                        None => {
                            return Err(SyntaxError::new("Unmatched Parentheses!"));
                        },
                        _ => {
                            proof {
                                lemma_seq_skip_of_skip(
                                    tokens,
                                    at as int,
                                    parse_expression(here).used as int,
                                );
                            }
                            let operand = match self.parse()? {
                                None => {
                                    return Err(SyntaxError::new("Unmatched Parentheses!"));
                                },
                                Some(subexpr) => subexpr,
                            };
                            let ghost before = params@;
                            params.push(operand);
                            proof {
                                assert(forall|others: Seq<ExpressionView>|
                                    Expression::models(before) + (seq![operand@] + others)
                                        =~= Expression::models(params@) + others);
                                at = at + parse_expression(here).used;
                            }
                        },
                    }
                }
            },
        }
    }

    /// Steps past the lookahead and returns `ast` as the expression read.
    fn generate(&mut self, ast: Box<Expression>) -> (result: Result<
        Option<Box<Expression>>,
        SyntaxError,
    >)
        requires
            old(self).well_formed(),
        ensures
            final(self).well_formed(),
            result == Ok::<Option<Box<Expression>>, SyntaxError>(Some(ast)),
            final(self).lookahead() == head(old(self).source().remaining()),
            final(self).source().remaining() == tail(old(self).source().remaining()),
            old(self).lookahead() is Some ==> pending(
                final(self).lookahead(),
                final(self).source().remaining(),
            ) == pending(old(self).lookahead(), old(self).source().remaining()).skip(1),
            old(self).lookahead() is Some ==> final(self).fuel() < old(self).fuel(),
    {
        self.advance();
        Ok(Some(ast))
    }
}

} // verus!

//! The recursive-descent parser for the precedence grammar
//!
//! ```text
//! program := exp ';'
//! exp     := term (('+'|'-') term)*
//! term    := factor (('*'|'/') factor)*
//! factor  := NUMBER | '(' exp ')'
//! ```
//!
//! The parser owns the lexer and one token of lookahead. A parser state is
//! described by the input, the lookahead token, and the offset just past
//! that token; the `spec_` functions below say, for every such state, what
//! each production returns and where it leaves the state. Every operator
//! chain folds left-to-right, so `+ -` and `* /` are left-associative.

use crate::arith::{digits_val, lemma_digits_val_nonneg};
use crate::ast::AST;
use crate::errors::CalcError;
use crate::lexer::{spec_next_token, Lexer};
use crate::token::{token_kind, wf_token, Token, TokenKind, TokenV};
use vstd::prelude::*;

verus! {

/// The position a production continues from after a step that moved the
/// offset from `i` to `j`. A successful step always moves strictly forward
/// and stays within the input, so on every reachable path this is just `j`;
/// the two guards only serve the termination measure of the mutually
/// recursive definitions below.
pub open spec fn step_pos(input: Seq<u8>, i: nat, j: nat) -> nat {
    let k: nat = if j > i {
        j
    } else {
        i + 1
    };
    if k <= input.len() {
        k
    } else {
        input.len()
    }
}

/// What `eat` returns: with the expected lookahead, the next token and the
/// offset past it; with any other lookahead, a syntax error naming the
/// expected and the found kind.
pub open spec fn spec_eat(input: Seq<u8>, cur: TokenV, expected: TokenV, i: nat) -> Result<
    (TokenV, nat),
    CalcError,
> {
    if cur == expected {
        spec_next_token(input, i)
    } else {
        Err(CalcError::UnexpectedToken {
            expected: token_kind(expected),
            found: token_kind(cur),
        })
    }
}

/// The starting production: an expression that must be followed by `;`.
/// The `;` is left in the lookahead, to be consumed by the driver once the
/// statement's value has been put out.
pub open spec fn spec_program(input: Seq<u8>, t: TokenV, i: nat) -> Result<
    (AST, TokenV, nat),
    CalcError,
>
    decreases input.len() - i, 5int,
{
    match spec_exp(input, t, i) {
        Ok((a, t2, j2)) => if t2 == TokenV::Semi {
            Ok((a, t2, j2))
        } else {
            Err(CalcError::UnexpectedToken { expected: TokenKind::Semi, found: token_kind(t2) })
        },
        Err(e) => Err(e),
    }
}

/// `exp`: a term followed by a left-folded chain of `+` or `-` terms.
pub open spec fn spec_exp(input: Seq<u8>, t: TokenV, i: nat) -> Result<
    (AST, TokenV, nat),
    CalcError,
>
    decreases input.len() - i, 4int,
{
    match spec_term(input, t, i) {
        // a term can only succeed with input left at `i`, so the bound
        // check merely keeps the recursion measure decreasing
        Ok((a, t2, j2)) => if i < input.len() {
            spec_exp_chain(input, a, t2, step_pos(input, i, j2))
        } else {
            Err(CalcError::EndOfInput)
        },
        Err(e) => Err(e),
    }
}

/// The chain of `exp`: while the lookahead is `+` or `-`, consume it, parse
/// the next term, and immediately combine it with the value accumulated so
/// far, keeping evaluation left-associative.
pub open spec fn spec_exp_chain(input: Seq<u8>, acc: AST, t: TokenV, i: nat) -> Result<
    (AST, TokenV, nat),
    CalcError,
>
    decreases input.len() - i, 3int,
{
    if t == TokenV::Plus || t == TokenV::Minus {
        match spec_next_token(input, i) {
            Ok((t2, j2)) => match spec_term(input, t2, step_pos(input, i, j2)) {
                Ok((rhs, t3, j3)) => {
                    let rc = if t == TokenV::Plus {
                        AST::Plus(Box::new(acc), Box::new(rhs))
                    } else {
                        AST::Minus(Box::new(acc), Box::new(rhs))
                    };
                    spec_exp_chain(input, rc, t3, step_pos(input, step_pos(input, i, j2), j3))
                },
                Err(e) => Err(e),
            },
            Err(e) => Err(e),
        }
    } else {
        Ok((acc, t, i))
    }
}

/// `term`: a factor followed by a left-folded chain of `*` or `/` factors.
pub open spec fn spec_term(input: Seq<u8>, t: TokenV, i: nat) -> Result<
    (AST, TokenV, nat),
    CalcError,
>
    decreases input.len() - i, 2int,
{
    match spec_factor(input, t, i) {
        // a factor can only succeed with input left at `i`, so the bound
        // check merely keeps the recursion measure decreasing
        Ok((a, t2, j2)) => if i < input.len() {
            spec_term_chain(input, a, t2, step_pos(input, i, j2))
        } else {
            Err(CalcError::EndOfInput)
        },
        Err(e) => Err(e),
    }
}

/// The chain of `term`: while the lookahead is `*` or `/`, consume it,
/// parse the next factor, and immediately combine, left-associatively.
pub open spec fn spec_term_chain(input: Seq<u8>, acc: AST, t: TokenV, i: nat) -> Result<
    (AST, TokenV, nat),
    CalcError,
>
    decreases input.len() - i, 1int,
{
    if t == TokenV::Times || t == TokenV::Divide {
        match spec_next_token(input, i) {
            Ok((t2, j2)) => match spec_factor(input, t2, step_pos(input, i, j2)) {
                Ok((rhs, t3, j3)) => {
                    let rc = if t == TokenV::Times {
                        AST::Times(Box::new(acc), Box::new(rhs))
                    } else {
                        AST::Divide(Box::new(acc), Box::new(rhs))
                    };
                    spec_term_chain(input, rc, t3, step_pos(input, step_pos(input, i, j2), j3))
                },
                Err(e) => Err(e),
            },
            Err(e) => Err(e),
        }
    } else {
        Ok((acc, t, i))
    }
}

/// `factor`: a number literal, which must parse into `i32`, or a
/// parenthesized expression. Any other lookahead is a syntax error.
pub open spec fn spec_factor(input: Seq<u8>, t: TokenV, i: nat) -> Result<
    (AST, TokenV, nat),
    CalcError,
>
    decreases input.len() - i, 0int,
{
    match t {
        TokenV::Num(s) => match spec_next_token(input, i) {
            Ok((t2, j2)) => if digits_val(s) <= i32::MAX as int {
                Ok((AST::Num(digits_val(s) as i32), t2, j2))
            } else {
                Err(CalcError::LiteralTooLarge)
            },
            Err(e) => Err(e),
        },
        TokenV::LParen => match spec_next_token(input, i) {
            Ok((t2, j2)) => match spec_exp(input, t2, step_pos(input, i, j2)) {
                Ok((a, t3, j3)) => match spec_eat(input, t3, TokenV::RParen, j3) {
                    Ok((t4, j4)) => Ok((a, t4, j4)),
                    Err(e) => Err(e),
                },
                Err(e) => Err(e),
            },
            Err(e) => Err(e),
        },
        _ => Err(CalcError::ExpectedFactor { found: token_kind(t) }),
    }
}

/// The parser: one token of lookahead over the owned lexer.
pub struct Parser {
    pub tok: Token,
    pub lex: Lexer,
}

impl Parser {
    /// The whole input.
    pub open spec fn input(&self) -> Seq<u8> {
        self.lex.input()
    }

    /// The offset just past the lookahead token.
    pub open spec fn pos(&self) -> nat {
        self.lex.pos()
    }

    /// The lookahead token.
    pub open spec fn lookahead(&self) -> TokenV {
        self.tok@
    }

    /// Well-formed: the lexer offset is within the input and the lookahead
    /// came out of the lexer, so its digit text is sound.
    pub open spec fn wf(&self) -> bool {
        self.lex.wf() && wf_token(self.tok@)
    }

    /// Creates a parser over the given lexer by reading the first lookahead
    /// token.
    pub fn new(lex: Lexer) -> (r: Result<Parser, CalcError>)
        requires
            lex.wf(),
        ensures
            match r {
                Ok(p) => spec_next_token(lex.input(), lex.pos()) == Ok::<
                    (TokenV, nat),
                    CalcError,
                >((p.lookahead(), p.pos())) && p.input() == lex.input() && p.wf() && lex.pos()
                    < p.pos(),
                Err(e) => spec_next_token(lex.input(), lex.pos()) == Err::<
                    (TokenV, nat),
                    CalcError,
                >(e),
            },
    {
        let mut lex = lex;
        match lex.get_token() {
            Ok(t) => Ok(Parser { tok: t, lex }),
            Err(e) => Err(e),
        }
    }

    /// Replaces the lookahead with the next token from the lexer.
    pub fn get_token(&mut self) -> (r: Result<(), CalcError>)
        requires
            old(self).wf(),
        ensures
            final(self).input() == old(self).input(),
            final(self).wf(),
            match r {
                Ok(_) => spec_next_token(old(self).input(), old(self).pos()) == Ok::<
                    (TokenV, nat),
                    CalcError,
                >((final(self).lookahead(), final(self).pos())) && old(self).pos() < final(
                    self).pos(),
                Err(e) => spec_next_token(old(self).input(), old(self).pos()) == Err::<
                    (TokenV, nat),
                    CalcError,
                >(e),
            },
    {
        match self.lex.get_token() {
            Ok(t) => {
                self.tok = t;
                Ok(())
            },
            Err(e) => Err(e),
        }
    }

    /// Checks that the lookahead equals `t` and advances past it; a
    /// mismatch is a syntax error naming the expected and the found kind,
    /// and consumes nothing — the parser is left exactly as it was.
    pub fn eat(&mut self, t: Token) -> (r: Result<(), CalcError>)
        requires
            old(self).wf(),
        ensures
            final(self).input() == old(self).input(),
            final(self).wf(),
            match r {
                Ok(_) => spec_eat(old(self).input(), old(self).lookahead(), t@, old(self).pos())
                    == Ok::<(TokenV, nat), CalcError>((final(self).lookahead(), final(self).pos()))
                    && old(self).pos() < final(self).pos(),
                Err(e) => spec_eat(old(self).input(), old(self).lookahead(), t@, old(self).pos())
                    == Err::<(TokenV, nat), CalcError>(e),
            },
            old(self).lookahead() != t@ ==> *final(self) == *old(self),
    {
        if crate::token::token_eq(&self.tok, &t) {
            self.get_token()
        } else {
            Err(CalcError::UnexpectedToken { expected: t.kind(), found: self.tok.kind() })
        }
    }

    /// The starting production: parses one statement's expression and
    /// checks that the lookahead is then `;`, leaving the `;` unconsumed.
    pub fn program(&mut self) -> (r: Result<AST, CalcError>)
        requires
            old(self).wf(),
        ensures
            final(self).input() == old(self).input(),
            final(self).wf(),
            match r {
                Ok(a) => spec_program(old(self).input(), old(self).lookahead(), old(self).pos())
                    == Ok::<(AST, TokenV, nat), CalcError>(
                    (a, final(self).lookahead(), final(self).pos()),
                ) && old(self).pos() < final(self).pos(),
                Err(e) => spec_program(old(self).input(), old(self).lookahead(), old(self).pos())
                    == Err::<(AST, TokenV, nat), CalcError>(e),
            },
        decreases self.input().len() - self.pos(), 5int,
    {
        let a = match self.exp() {
            Ok(a) => a,
            Err(e) => return Err(e),
        };
        self.semi(a)
    }

    /// `exp`: a term, then a left-folded chain of `+`/`-` terms.
    pub fn exp(&mut self) -> (r: Result<AST, CalcError>)
        requires
            old(self).wf(),
        ensures
            final(self).input() == old(self).input(),
            final(self).wf(),
            match r {
                Ok(a) => spec_exp(old(self).input(), old(self).lookahead(), old(self).pos())
                    == Ok::<(AST, TokenV, nat), CalcError>(
                    (a, final(self).lookahead(), final(self).pos()),
                ) && old(self).pos() < final(self).pos(),
                Err(e) => spec_exp(old(self).input(), old(self).lookahead(), old(self).pos())
                    == Err::<(AST, TokenV, nat), CalcError>(e),
            },
        decreases self.input().len() - self.pos(), 4int,
    {
        let t = match self.term() {
            Ok(t) => t,
            Err(e) => return Err(e),
        };
        self.exp_(t)
    }

    /// The chain of `exp`: folds `+`/`-` terms into `t` from the left.
    pub fn exp_(&mut self, t: AST) -> (r: Result<AST, CalcError>)
        requires
            old(self).wf(),
        ensures
            final(self).input() == old(self).input(),
            final(self).wf(),
            match r {
                Ok(a) => spec_exp_chain(
                    old(self).input(),
                    t,
                    old(self).lookahead(),
                    old(self).pos(),
                ) == Ok::<(AST, TokenV, nat), CalcError>(
                    (a, final(self).lookahead(), final(self).pos()),
                ) && old(self).pos() <= final(self).pos(),
                Err(e) => spec_exp_chain(
                    old(self).input(),
                    t,
                    old(self).lookahead(),
                    old(self).pos(),
                ) == Err::<(AST, TokenV, nat), CalcError>(e),
            },
        decreases self.input().len() - self.pos(), 3int,
    {
        let is_plus = matches!(self.tok, Token::Plus);
        let is_minus = matches!(self.tok, Token::Minus);
        if is_plus || is_minus {
            let eaten = if is_plus {
                self.eat(Token::Plus)
            } else {
                self.eat(Token::Minus)
            };
            match eaten {
                Ok(_) => {},
                Err(e) => return Err(e),
            }
            let s = match self.term() {
                Ok(s) => s,
                Err(e) => return Err(e),
            };
            let rc = if is_plus {
                AST::Plus(Box::new(t), Box::new(s))
            } else {
                AST::Minus(Box::new(t), Box::new(s))
            };
            self.exp_(rc)
        } else {
            Ok(t)
        }
    }

    /// `term`: a factor, then a left-folded chain of `*`/`/` factors.
    pub fn term(&mut self) -> (r: Result<AST, CalcError>)
        requires
            old(self).wf(),
        ensures
            final(self).input() == old(self).input(),
            final(self).wf(),
            match r {
                Ok(a) => spec_term(old(self).input(), old(self).lookahead(), old(self).pos())
                    == Ok::<(AST, TokenV, nat), CalcError>(
                    (a, final(self).lookahead(), final(self).pos()),
                ) && old(self).pos() < final(self).pos(),
                Err(e) => spec_term(old(self).input(), old(self).lookahead(), old(self).pos())
                    == Err::<(AST, TokenV, nat), CalcError>(e),
            },
        decreases self.input().len() - self.pos(), 2int,
    {
        let f = match self.factor() {
            Ok(f) => f,
            Err(e) => return Err(e),
        };
        self.term_(f)
    }

    /// The chain of `term`: folds `*`/`/` factors into `f` from the left.
    pub fn term_(&mut self, f: AST) -> (r: Result<AST, CalcError>)
        requires
            old(self).wf(),
        ensures
            final(self).input() == old(self).input(),
            final(self).wf(),
            match r {
                Ok(a) => spec_term_chain(
                    old(self).input(),
                    f,
                    old(self).lookahead(),
                    old(self).pos(),
                ) == Ok::<(AST, TokenV, nat), CalcError>(
                    (a, final(self).lookahead(), final(self).pos()),
                ) && old(self).pos() <= final(self).pos(),
                Err(e) => spec_term_chain(
                    old(self).input(),
                    f,
                    old(self).lookahead(),
                    old(self).pos(),
                ) == Err::<(AST, TokenV, nat), CalcError>(e),
            },
        decreases self.input().len() - self.pos(), 1int,
    {
        let is_times = matches!(self.tok, Token::Times);
        let is_divide = matches!(self.tok, Token::Divide);
        if is_times || is_divide {
            let eaten = if is_times {
                self.eat(Token::Times)
            } else {
                self.eat(Token::Divide)
            };
            match eaten {
                Ok(_) => {},
                Err(e) => return Err(e),
            }
            let g = match self.factor() {
                Ok(g) => g,
                Err(e) => return Err(e),
            };
            let rc = if is_times {
                AST::Times(Box::new(f), Box::new(g))
            } else {
                AST::Divide(Box::new(f), Box::new(g))
            };
            self.term_(rc)
        } else {
            Ok(f)
        }
    }

    /// `factor`: a number, whose digit text must fit `i32`, or a
    /// parenthesized expression.
    pub fn factor(&mut self) -> (r: Result<AST, CalcError>)
        requires
            old(self).wf(),
        ensures
            final(self).input() == old(self).input(),
            final(self).wf(),
            match r {
                Ok(a) => spec_factor(old(self).input(), old(self).lookahead(), old(self).pos())
                    == Ok::<(AST, TokenV, nat), CalcError>(
                    (a, final(self).lookahead(), final(self).pos()),
                ) && old(self).pos() < final(self).pos(),
                Err(e) => spec_factor(old(self).input(), old(self).lookahead(), old(self).pos())
                    == Err::<(AST, TokenV, nat), CalcError>(e),
            },
        decreases self.input().len() - self.pos(), 0int,
    {
        let is_num = matches!(self.tok, Token::Num(_));
        if is_num {
            let pv = match &self.tok {
                Token::Num(text) => {
                    proof {
                        lemma_digits_val_nonneg(text@);
                    }
                    crate::arith::parse_literal(text)
                },
                _ => Err(CalcError::LiteralTooLarge),
            };
            match self.get_token() {
                Err(e) => Err(e),
                Ok(_) => match pv {
                    Ok(x) => Ok(AST::Num(x)),
                    Err(e) => Err(e),
                },
            }
        } else {
            let is_lparen = matches!(self.tok, Token::LParen);
            if is_lparen {
                match self.eat(Token::LParen) {
                    Ok(_) => {},
                    Err(e) => return Err(e),
                }
                let rc = match self.exp() {
                    Ok(a) => a,
                    Err(e) => return Err(e),
                };
                match self.eat(Token::RParen) {
                    Ok(_) => {},
                    Err(e) => return Err(e),
                }
                Ok(rc)
            } else {
                Err(CalcError::ExpectedFactor { found: self.tok.kind() })
            }
        }
    }

    /// The terminal production: succeeds exactly when the statement ends
    /// with `;`, handing the parsed expression through. The `;` stays in
    /// the lookahead.
    pub fn semi(&mut self, a: AST) -> (r: Result<AST, CalcError>)
        ensures
            final(self).input() == old(self).input(),
            final(self).pos() == old(self).pos(),
            final(self).lookahead() == old(self).lookahead(),
            final(self).wf() == old(self).wf(),
            r == (if old(self).lookahead() == TokenV::Semi {
                Ok::<AST, CalcError>(a)
            } else {
                Err(CalcError::UnexpectedToken {
                    expected: TokenKind::Semi,
                    found: token_kind(old(self).lookahead()),
                })
            }),
    {
        if matches!(self.tok, Token::Semi) {
            Ok(a)
        } else {
            Err(CalcError::UnexpectedToken { expected: TokenKind::Semi, found: self.tok.kind() })
        }
    }
}

} // verus!

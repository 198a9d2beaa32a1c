//! The parser: from tokens to a syntax tree, by recursive descent.
//!
//! ```text
//! expr   := term ( (Add | Subtract) term )*
//! term   := factor ( (Multiply | Divide) factor )*
//! factor := Number
//!         | (Add | Subtract) factor
//!         | LeftParen expr <any token>
//!         | <nothing>
//! ```
//!
//! The parser is permissive. Where a factor is due and none begins, the literal `0` stands in
//! for it and no token is consumed. The token after a parenthesised expression is consumed
//! whatever it is. The only failure is a move past the last token.

use crate::error::Error;
use crate::token::{symbols, Number, Symbol, Token};
use crate::tree::{Node, Operator, Sign, Tree};
use vstd::prelude::*;

verus! {

/// What a rule of the grammar made of the tokens from some position on.
pub struct Parsed {
    /// The tree that was built.
    pub tree: Tree,
    /// How many tokens were consumed.
    pub used: nat,
}

/// The token under the cursor. Beyond the last token the cursor sees the sentinel.
pub open spec fn current(tokens: Seq<Symbol>, position: nat) -> Symbol {
    if position < tokens.len() {
        tokens[position as int]
    } else {
        Symbol::EndOfInput
    }
}

/// Whether the cursor can move on: a token stands after the current one.
pub open spec fn has_next(tokens: Seq<Symbol>, position: nat) -> bool {
    position + 1 < tokens.len()
}

/// How many tokens stand at or after the cursor.
pub open spec fn remaining(tokens: Seq<Symbol>, position: nat) -> nat {
    if position < tokens.len() {
        (tokens.len() - position) as nat
    } else {
        0
    }
}

/// The sign that a token is in front of a factor.
pub open spec fn sign_of(symbol: Symbol) -> Option<Sign> {
    match symbol {
        Symbol::Add => Some(Sign::Plus),
        Symbol::Subtract => Some(Sign::Minus),
        _ => None,
    }
}

/// The operator that a token is between two terms.
pub open spec fn additive(symbol: Symbol) -> Option<Operator> {
    match symbol {
        Symbol::Add => Some(Operator::Add),
        Symbol::Subtract => Some(Operator::Subtract),
        _ => None,
    }
}

/// The operator that a token is between two factors.
pub open spec fn multiplicative(symbol: Symbol) -> Option<Operator> {
    match symbol {
        Symbol::Multiply => Some(Operator::Multiply),
        Symbol::Divide => Some(Operator::Divide),
        _ => None,
    }
}

/// The same outcome, with `n` more tokens counted as consumed.
pub open spec fn after(n: nat, outcome: Result<Parsed, Error>) -> Result<Parsed, Error> {
    match outcome {
        Ok(parsed) => Ok(Parsed { tree: parsed.tree, used: n + parsed.used }),
        Err(e) => Err(e),
    }
}

/// The literal that stands in for a missing factor.
pub open spec fn zero_literal() -> Tree {
    Tree::Literal(seq!['0'])
}

/// The rule `factor` at `position`.
pub open spec fn factor_at(tokens: Seq<Symbol>, position: nat) -> Result<Parsed, Error>
    decreases remaining(tokens, position), 0nat,
{
    match current(tokens, position) {
        Symbol::Number(text) => {
            if has_next(tokens, position) {
                Ok(Parsed { tree: Tree::Literal(text), used: 1 })
            } else {
                Err(Error::Syntax)
            }
        },
        Symbol::Add | Symbol::Subtract => {
            if has_next(tokens, position) {
                match factor_at(tokens, position + 1) {
                    Ok(inner) => Ok(
                        Parsed {
                            tree: Tree::UnaryOp {
                                sign: sign_of(current(tokens, position))->Some_0,
                                child: Box::new(inner.tree),
                            },
                            used: 1 + inner.used,
                        },
                    ),
                    Err(e) => Err(e),
                }
            } else {
                Err(Error::Syntax)
            }
        },
        Symbol::LeftParen => {
            if has_next(tokens, position) {
                match expr_at(tokens, position + 1) {
                    Ok(inner) => {
                        if has_next(tokens, position + 1 + inner.used) {
                            Ok(Parsed { tree: inner.tree, used: inner.used + 2 })
                        } else {
                            Err(Error::Syntax)
                        }
                    },
                    Err(e) => Err(e),
                }
            } else {
                Err(Error::Syntax)
            }
        },
        _ => Ok(Parsed { tree: zero_literal(), used: 0 }),
    }
}

/// The tail `( (Multiply | Divide) factor )*` of a term at `position`, with `left` as what
/// stands before it. Each operator takes all that was built so far as its left operand.
pub open spec fn term_rest(tokens: Seq<Symbol>, position: nat, left: Tree) -> Result<Parsed, Error>
    decreases remaining(tokens, position), 1nat,
{
    match multiplicative(current(tokens, position)) {
        Some(op) => {
            if has_next(tokens, position) {
                match factor_at(tokens, position + 1) {
                    Ok(right) => after(
                        1 + right.used,
                        term_rest(
                            tokens,
                            position + 1 + right.used,
                            Tree::BinaryOp {
                                op,
                                left: Box::new(left),
                                right: Box::new(right.tree),
                            },
                        ),
                    ),
                    Err(e) => Err(e),
                }
            } else {
                Err(Error::Syntax)
            }
        },
        None => Ok(Parsed { tree: left, used: 0 }),
    }
}

/// The rule `term` at `position`.
pub open spec fn term_at(tokens: Seq<Symbol>, position: nat) -> Result<Parsed, Error>
    decreases remaining(tokens, position), 2nat,
{
    match factor_at(tokens, position) {
        Ok(first) => after(first.used, term_rest(tokens, position + first.used, first.tree)),
        Err(e) => Err(e),
    }
}

/// The tail `( (Add | Subtract) term )*` of an expression at `position`, with `left` as what
/// stands before it. Each operator takes all that was built so far as its left operand.
pub open spec fn expr_rest(tokens: Seq<Symbol>, position: nat, left: Tree) -> Result<Parsed, Error>
    decreases remaining(tokens, position), 3nat,
{
    match additive(current(tokens, position)) {
        Some(op) => {
            if has_next(tokens, position) {
                match term_at(tokens, position + 1) {
                    Ok(right) => after(
                        1 + right.used,
                        expr_rest(
                            tokens,
                            position + 1 + right.used,
                            Tree::BinaryOp {
                                op,
                                left: Box::new(left),
                                right: Box::new(right.tree),
                            },
                        ),
                    ),
                    Err(e) => Err(e),
                }
            } else {
                Err(Error::Syntax)
            }
        },
        None => Ok(Parsed { tree: left, used: 0 }),
    }
}

/// The rule `expr` at `position`.
pub open spec fn expr_at(tokens: Seq<Symbol>, position: nat) -> Result<Parsed, Error>
    decreases remaining(tokens, position), 4nat,
{
    match term_at(tokens, position) {
        Ok(first) => after(first.used, expr_rest(tokens, position + first.used, first.tree)),
        Err(e) => Err(e),
    }
}

/// Whether what a rule returned, and where it left the cursor, is what the grammar says.
///
/// On success the node is the tree of `expected` and the cursor has moved by the tokens
/// consumed. On failure the error is that of `expected` and the cursor stands on the last token.
pub open spec fn agrees(
    r: Result<Node, Error>,
    tokens: Seq<Symbol>,
    before: nat,
    now: nat,
    expected: Result<Parsed, Error>,
) -> bool {
    match expected {
        Ok(parsed) => r is Ok && r->Ok_0@ == parsed.tree && now == before + parsed.used,
        Err(e) => r is Err && r->Err_0 == e && now + 1 == tokens.len(),
    }
}

/// A cursor over a sequence of tokens that is never empty.
#[derive(Debug)]
pub struct Parser {
    tokens: Vec<Token>,
    position: usize,
}

impl Parser {
    #[verifier::type_invariant]
    spec fn well_formed(self) -> bool {
        self.position < self.tokens.len()
    }

    /// The tokens that the parser reads, each taken by its view.
    pub closed spec fn symbols(&self) -> Seq<Symbol> {
        symbols(self.tokens@)
    }

    /// The index of the token under the cursor.
    pub closed spec fn position(&self) -> nat {
        self.position as nat
    }

    /// Sets the cursor on the first of `tokens`. Fails where there is no token.
    pub fn new(tokens: Vec<Token>) -> (r: Result<Parser, Error>)
        ensures
            tokens@.len() == 0 ==> r is Err && r->Err_0 == Error::Syntax,
            tokens@.len() > 0 ==> r is Ok && r->Ok_0.symbols() == symbols(tokens@)
                && r->Ok_0.position() == 0,
    {
        if tokens.len() == 0 {
            Err(Error::Syntax)
        } else {
            Ok(Parser { tokens, position: 0 })
        }
    }

    /// The token under the cursor.
    pub fn current(&self) -> (token: Token)
        ensures
            self.position() < self.symbols().len(),
            token@ == current(self.symbols(), self.position()),
    {
        proof {
            use_type_invariant(self);
        }
        self.tokens[self.position].clone()
    }

    /// Moves the cursor to the next token and returns it. Where the cursor stands on the
    /// last token it stays there, and the move fails.
    pub fn next(&mut self) -> (r: Result<Token, Error>)
        ensures
            final(self).symbols() == old(self).symbols(),
            has_next(old(self).symbols(), old(self).position()) ==> r is Ok && r->Ok_0@ == current(
                old(self).symbols(),
                old(self).position() + 1,
            ) && final(self).position() == old(self).position() + 1,
            !has_next(old(self).symbols(), old(self).position()) ==> r is Err && r->Err_0
                == Error::Syntax && final(self).position() == old(self).position()
                && final(self).position() + 1 == final(self).symbols().len(),
    {
        proof {
            use_type_invariant(&*self);
        }
        if self.position + 1 < self.tokens.len() {
            self.position = self.position + 1;
            Ok(self.tokens[self.position].clone())
        } else {
            Err(Error::Syntax)
        }
    }

    /// Parses a factor at the cursor: a literal, a signed factor, or an expression in
    /// parentheses. Where none of these begins, the literal `0` is returned and the cursor
    /// stays.
    pub fn factor(&mut self) -> (r: Result<Node, Error>)
        ensures
            final(self).symbols() == old(self).symbols(),
            agrees(
                r,
                old(self).symbols(),
                old(self).position(),
                final(self).position(),
                factor_at(old(self).symbols(), old(self).position()),
            ),
        decreases old(self).symbols().len() - old(self).position(), 0nat,
    {
        proof {
            use_type_invariant(&*self);
        }
        let token = self.current();
        match token {
            Token::Number(number) => {
                match self.next() {
                    Ok(_) => Ok(Node::Literal(number)),
                    Err(e) => Err(e),
                }
            },
            Token::Add | Token::Subtract => {
                let sign = match token {
                    Token::Add => Sign::Plus,
                    _ => Sign::Minus,
                };
                match self.next() {
                    Ok(_) => {
                        proof {
                            use_type_invariant(&*self);
                        }
                        match self.factor() {
                            Ok(child) => Ok(Node::UnaryOp { sign, child: Box::new(child) }),
                            Err(e) => Err(e),
                        }
                    },
                    Err(e) => Err(e),
                }
            },
            Token::LeftParen => {
                match self.next() {
                    Ok(_) => {
                        proof {
                            use_type_invariant(&*self);
                        }
                        match self.expr() {
                            Ok(inner) => {
                                match self.next() {
                                    Ok(_) => Ok(inner),
                                    Err(e) => Err(e),
                                }
                            },
                            Err(e) => Err(e),
                        }
                    },
                    Err(e) => Err(e),
                }
            },
            _ => Ok(Node::Literal(Number::zero())),
        }
    }

    /// Parses a term at the cursor: factors joined by `*` and `/`, grouped from the left.
    pub fn term(&mut self) -> (r: Result<Node, Error>)
        ensures
            final(self).symbols() == old(self).symbols(),
            agrees(
                r,
                old(self).symbols(),
                old(self).position(),
                final(self).position(),
                term_at(old(self).symbols(), old(self).position()),
            ),
        decreases old(self).symbols().len() - old(self).position(), 1nat,
    {
        let ghost tokens = self.symbols();
        let ghost start = self.position();
        let mut node = match self.factor() {
            Ok(first) => first,
            Err(e) => {
                return Err(e);
            },
        };
        proof {
            use_type_invariant(&*self);
        }
        loop
            invariant
                self.symbols() == tokens,
                tokens.len() == self.tokens.len(),
                start <= self.position() < tokens.len(),
                start == old(self).position(),
                tokens == old(self).symbols(),
                term_at(tokens, start) == after(
                    (self.position() - start) as nat,
                    term_rest(tokens, self.position(), node@),
                ),
            decreases tokens.len() - self.position(),
        {
            let op = match self.current() {
                Token::Multiply => Operator::Multiply,
                Token::Divide => Operator::Divide,
                _ => {
                    return Ok(node);
                },
            };
            match self.next() {
                Ok(_) => {},
                Err(e) => {
                    return Err(e);
                },
            }
            proof {
                use_type_invariant(&*self);
            }
            let right = match self.factor() {
                Ok(right) => right,
                Err(e) => {
                    return Err(e);
                },
            };
            proof {
                use_type_invariant(&*self);
            }
            node = Node::BinaryOp { op, left: Box::new(node), right: Box::new(right) };
        }
    }

    /// Parses an expression at the cursor: terms joined by `+` and `-`, grouped from the left.
    pub fn expr(&mut self) -> (r: Result<Node, Error>)
        ensures
            final(self).symbols() == old(self).symbols(),
            agrees(
                r,
                old(self).symbols(),
                old(self).position(),
                final(self).position(),
                expr_at(old(self).symbols(), old(self).position()),
            ),
        decreases old(self).symbols().len() - old(self).position(), 2nat,
    {
        let ghost tokens = self.symbols();
        let ghost start = self.position();
        let mut node = match self.term() {
            Ok(first) => first,
            Err(e) => {
                return Err(e);
            },
        };
        proof {
            use_type_invariant(&*self);
        }
        loop
            invariant
                self.symbols() == tokens,
                tokens.len() == self.tokens.len(),
                start <= self.position() < tokens.len(),
                start == old(self).position(),
                tokens == old(self).symbols(),
                expr_at(tokens, start) == after(
                    (self.position() - start) as nat,
                    expr_rest(tokens, self.position(), node@),
                ),
            decreases tokens.len() - self.position(),
        {
            let op = match self.current() {
                Token::Add => Operator::Add,
                Token::Subtract => Operator::Subtract,
                _ => {
                    return Ok(node);
                },
            };
            match self.next() {
                Ok(_) => {},
                Err(e) => {
                    return Err(e);
                },
            }
            proof {
                use_type_invariant(&*self);
            }
            let right = match self.term() {
                Ok(right) => right,
                Err(e) => {
                    return Err(e);
                },
            };
            proof {
                use_type_invariant(&*self);
            }
            node = Node::BinaryOp { op, left: Box::new(node), right: Box::new(right) };
        }
    }
}

/// The tree of the expression with which a token sequence begins.
pub open spec fn parse_tokens(tokens: Seq<Symbol>) -> Result<Tree, Error> {
    if tokens.len() == 0 {
        Err(Error::Syntax)
    } else {
        match expr_at(tokens, 0) {
            Ok(parsed) => Ok(parsed.tree),
            Err(e) => Err(e),
        }
    }
}

/// What `parse` returned, with the node taken by its view.
pub open spec fn parsed_tree(r: Result<Node, Error>) -> Result<Tree, Error> {
    match r {
        Ok(node) => Ok(node@),
        Err(e) => Err(e),
    }
}

/// Parses the expression with which `tokens` begins. What follows it is not read.
pub fn parse(tokens: Vec<Token>) -> (r: Result<Node, Error>)
    ensures
        parsed_tree(r) == parse_tokens(symbols(tokens@)),
{
    match Parser::new(tokens) {
        Ok(parser) => {
            let mut parser = parser;
            parser.expr()
        },
        Err(e) => Err(e),
    }
}

} // verus!

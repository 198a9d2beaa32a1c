//! The evaluator: from a syntax tree to a value.
//!
//! The tree is walked children first. What a number is, and how two of them are added, is
//! left to the caller, who passes the arithmetic of the number domain as a function.

use crate::error::Error;
use crate::lexer::{is_ignored, lemma_tokenize_ignores, lex, literals_meet, tokenize};
use crate::parser::{parse, parse_tokens};
use crate::token::Number;
use crate::tree::{Node, Operator, Sign, Tree};
use vstd::prelude::*;

verus! {

/// One step of arithmetic, which the evaluator asks the number domain to carry out.
pub enum Operation<'a, T> {
    /// The value of a literal.
    Literal(&'a Number),
    /// The operand with its sign changed.
    Negate(T),
    /// The first operand plus the second.
    Add(T, T),
    /// The first operand minus the second.
    Subtract(T, T),
    /// The first operand times the second.
    Multiply(T, T),
    /// The first operand divided by the second.
    Divide(T, T),
}

/// The step that applies `op` to `left` and `right`.
pub open spec fn binary<'a, T>(op: Operator, left: T, right: T) -> Operation<'a, T> {
    match op {
        Operator::Add => Operation::Add(left, right),
        Operator::Subtract => Operation::Subtract(left, right),
        Operator::Multiply => Operation::Multiply(left, right),
        Operator::Divide => Operation::Divide(left, right),
    }
}

impl Node {
    /// Whether `value` is a value of this tree under `arithmetic`: a literal has what the
    /// arithmetic gives for it, a factor with a plus sign has the value of the factor, one with
    /// a minus sign the negation of it, and an operation what the arithmetic gives for the
    /// values of the left and of the right operand.
    pub open spec fn resolves_to<T, F: Fn(Operation<T>) -> T>(
        self,
        arithmetic: F,
        value: T,
    ) -> bool
        decreases self,
    {
        match self {
            Node::Literal(number) => arithmetic.ensures((Operation::Literal(&number),), value),
            Node::UnaryOp { sign: Sign::Plus, child } => child.resolves_to(arithmetic, value),
            Node::UnaryOp { sign: Sign::Minus, child } => exists|v: T|
                child.resolves_to(arithmetic, v) && #[trigger] arithmetic.ensures(
                    (Operation::Negate(v),),
                    value,
                ),
            Node::BinaryOp { op, left, right } => exists|a: T, b: T|
                left.resolves_to(arithmetic, a) && right.resolves_to(arithmetic, b)
                    && #[trigger] arithmetic.ensures((binary(op, a, b),), value),
        }
    }

    /// Evaluates the tree, children first and the left operand before the right.
    pub fn resolve<T, F: Fn(Operation<T>) -> T>(&self, arithmetic: &F) -> (value: T)
        requires
            forall|operation: Operation<T>| arithmetic.requires((operation,)),
        ensures
            self.resolves_to(arithmetic, value),
        decreases self,
    {
        match self {
            Node::Literal(number) => arithmetic(Operation::Literal(number)),
            Node::UnaryOp { sign, child } => {
                let v = child.resolve(arithmetic);
                match sign {
                    Sign::Plus => v,
                    Sign::Minus => arithmetic(Operation::Negate(v)),
                }
            },
            Node::BinaryOp { op, left, right } => {
                let a = left.resolve(arithmetic);
                let b = right.resolve(arithmetic);
                let operation = match op {
                    Operator::Add => Operation::Add(a, b),
                    Operator::Subtract => Operation::Subtract(a, b),
                    Operator::Multiply => Operation::Multiply(a, b),
                    Operator::Divide => Operation::Divide(a, b),
                };
                assert(operation == binary(*op, a, b));
                arithmetic(operation)
            },
        }
    }
}

/// The syntax tree of a text: that of the expression with which its tokens begin.
pub open spec fn parse_text(text: Seq<char>) -> Result<Tree, Error> {
    match tokenize(text) {
        Ok(tokens) => parse_tokens(tokens),
        Err(e) => Err(e),
    }
}

/// Whether `r` is what evaluating `expected` under `arithmetic` may give: the error where
/// there is no tree, and else a value of a node that has the tree as its view.
pub open spec fn evaluated<T, F: Fn(Operation<T>) -> T>(
    r: Result<T, Error>,
    expected: Result<Tree, Error>,
    arithmetic: F,
) -> bool {
    match expected {
        Ok(tree) => r is Ok && exists|node: Node|
            node@ == tree && #[trigger] node.resolves_to(arithmetic, r->Ok_0),
        Err(e) => r is Err && r->Err_0 == e,
    }
}

/// Evaluates an expression given as text: splits it into tokens, parses them, and evaluates
/// the tree under `arithmetic`.
///
/// Fails with `Error::NumericConversion` on a literal that is no decimal numeral, and with
/// `Error::Syntax` where the parser has to move past the last token.
pub fn evaluate<T, F: Fn(Operation<T>) -> T>(expression: &str, arithmetic: &F) -> (r: Result<
    T,
    Error,
>)
    requires
        forall|operation: Operation<T>| arithmetic.requires((operation,)),
    ensures
        evaluated(r, parse_text(expression@), arithmetic),
{
    let tokens = match lex(expression) {
        Ok(tokens) => tokens,
        Err(e) => {
            return Err(e);
        },
    };
    let node = match parse(tokens) {
        Ok(node) => node,
        Err(e) => {
            return Err(e);
        },
    };
    let value = node.resolve(arithmetic);
    let r: Result<T, Error> = Ok(value);
    assert(node.resolves_to(arithmetic, r->Ok_0));
    r
}

/// Blanks change nothing: a character that the lexer passes over can be put anywhere but
/// inside a literal, and the syntax tree stays the same.
pub proof fn lemma_parse_text_ignores(a: Seq<char>, c: char, b: Seq<char>)
    requires
        is_ignored(c),
        !literals_meet(a, b),
    ensures
        parse_text(a + seq![c] + b) == parse_text(a + b),
{
    lemma_tokenize_ignores(a, c, b);
}

/// Whether two steps ask for the same: they are one step, or the values of two literals
/// with the same text.
pub open spec fn same_step<T>(p: Operation<T>, q: Operation<T>) -> bool {
    p == q || match (p, q) {
        (Operation::Literal(m), Operation::Literal(n)) => m@ == n@,
        _ => false,
    }
}

/// Whether `arithmetic` gives one value for each step.
pub open spec fn is_function<T, F: Fn(Operation<T>) -> T>(arithmetic: F) -> bool {
    forall|p: Operation<T>, q: Operation<T>, x: T, y: T|
        same_step(p, q) && #[trigger] arithmetic.ensures((p,), x) && #[trigger] arithmetic.ensures(
            (q,),
            y,
        ) ==> x == y
}

/// With an arithmetic that gives one value for each step, a tree has one value: two nodes
/// with the same view have the same value.
pub proof fn lemma_resolve_unique<T, F: Fn(Operation<T>) -> T>(
    a: Node,
    b: Node,
    arithmetic: F,
    x: T,
    y: T,
)
    requires
        is_function(arithmetic),
        a@ == b@,
        a.resolves_to(arithmetic, x),
        b.resolves_to(arithmetic, y),
    ensures
        x == y,
    decreases a,
{
    match a {
        Node::Literal(m) => {
            let n = b->Literal_0;
            assert(b == Node::Literal(n));
            assert(same_step::<T>(Operation::Literal(&m), Operation::Literal(&n)));
        },
        Node::UnaryOp { sign: Sign::Plus, child } => {
            let other = b->UnaryOp_child;
            lemma_resolve_unique(*child, *other, arithmetic, x, y);
        },
        Node::UnaryOp { sign: Sign::Minus, child } => {
            let other = b->UnaryOp_child;
            let v = choose|v: T|
                child.resolves_to(arithmetic, v) && #[trigger] arithmetic.ensures(
                    (Operation::Negate(v),),
                    x,
                );
            let w = choose|w: T|
                other.resolves_to(arithmetic, w) && #[trigger] arithmetic.ensures(
                    (Operation::Negate(w),),
                    y,
                );
            lemma_resolve_unique(*child, *other, arithmetic, v, w);
            assert(same_step::<T>(Operation::Negate(v), Operation::Negate(w)));
        },
        Node::BinaryOp { op, left, right } => {
            let other_left = b->BinaryOp_left;
            let other_right = b->BinaryOp_right;
            let (v, w) = choose|v: T, w: T|
                left.resolves_to(arithmetic, v) && right.resolves_to(arithmetic, w)
                    && #[trigger] arithmetic.ensures((binary(op, v, w),), x);
            let (p, q) = choose|p: T, q: T|
                other_left.resolves_to(arithmetic, p) && other_right.resolves_to(arithmetic, q)
                    && #[trigger] arithmetic.ensures((binary(op, p, q),), y);
            lemma_resolve_unique(*left, *other_left, arithmetic, v, p);
            lemma_resolve_unique(*right, *other_right, arithmetic, w, q);
            assert(same_step::<T>(binary(op, v, w), binary(op, p, q)));
        },
    }
}

/// Evaluating the same text twice gives the same. The tree depends on the text alone; with an
/// arithmetic that gives one value for each step, so does the value.
pub proof fn lemma_evaluate_twice<T, F: Fn(Operation<T>) -> T>(
    text: Seq<char>,
    arithmetic: F,
    first: Result<T, Error>,
    second: Result<T, Error>,
)
    requires
        is_function(arithmetic),
        evaluated(first, parse_text(text), arithmetic),
        evaluated(second, parse_text(text), arithmetic),
    ensures
        first == second,
{
    match parse_text(text) {
        Ok(tree) => {
            let a = choose|node: Node|
                node@ == tree && #[trigger] node.resolves_to(arithmetic, first->Ok_0);
            let b = choose|node: Node|
                node@ == tree && #[trigger] node.resolves_to(arithmetic, second->Ok_0);
            lemma_resolve_unique(a, b, arithmetic, first->Ok_0, second->Ok_0);
        },
        Err(_) => {},
    }
}

} // verus!

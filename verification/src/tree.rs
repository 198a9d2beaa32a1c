//! The syntax tree of an expression.

use crate::token::Number;
use vstd::prelude::*;

verus! {

/// The sign in front of a factor.
#[derive(Clone, Copy, Debug, PartialEq, Eq, Structural)]
pub enum Sign {
    Plus,
    Minus,
}

/// The four operations that stand between two operands.
#[derive(Clone, Copy, Debug, PartialEq, Eq, Structural)]
pub enum Operator {
    Add,
    Subtract,
    Multiply,
    Divide,
}

/// A node of the syntax tree. Each node owns its children.
#[derive(Debug, PartialEq, Eq)]
pub enum Node {
    Literal(Number),
    UnaryOp { sign: Sign, child: Box<Node> },
    BinaryOp { op: Operator, left: Box<Node>, right: Box<Node> },
}

/// The tree that a node is to the contracts, with each literal as its text.
pub enum Tree {
    Literal(Seq<char>),
    UnaryOp { sign: Sign, child: Box<Tree> },
    BinaryOp { op: Operator, left: Box<Tree>, right: Box<Tree> },
}

impl Node {
    /// The tree under this node.
    pub open spec fn tree(self) -> Tree
        decreases self,
    {
        match self {
            Node::Literal(number) => Tree::Literal(number@),
            Node::UnaryOp { sign, child } => Tree::UnaryOp { sign, child: Box::new(child.tree()) },
            Node::BinaryOp { op, left, right } => Tree::BinaryOp {
                op,
                left: Box::new(left.tree()),
                right: Box::new(right.tree()),
            },
        }
    }
}

impl View for Node {
    type V = Tree;

    open spec fn view(&self) -> Tree {
        self.tree()
    }
}

} // verus!

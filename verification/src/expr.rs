//! Expression trees and the operators that join them.
use vstd::prelude::*;

verus! {

/// A binary operator of the arithmetic language.
#[derive(Debug, Clone, Copy, PartialEq, Eq, Structural)]
pub enum Op {
    Add,
    Subtract,
    Multiply,
    Divide,
    Modulo,
    Pow,
}

impl Op {
    /// How tightly the operator binds its operands: `+ -` loosest, then
    /// `* / %`, then `^`.
    pub open spec fn spec_binding_power(self) -> u8 {
        match self {
            Op::Add | Op::Subtract => 1,
            Op::Multiply | Op::Divide | Op::Modulo => 2,
            Op::Pow => 3,
        }
    }

    /// Whether a chain of this operator groups from the right, as `^` does.
    pub open spec fn spec_right_associative(self) -> bool {
        self == Op::Pow
    }

    /// The operator's binding power.
    #[verifier::when_used_as_spec(spec_binding_power)]
    pub fn binding_power(self) -> (power: u8)
        ensures
            power == self.spec_binding_power(),
    {
        match self {
            Op::Add | Op::Subtract => 1,
            Op::Multiply | Op::Divide | Op::Modulo => 2,
            Op::Pow => 3,
        }
    }

    /// Whether the operator groups from the right.
    #[verifier::when_used_as_spec(spec_right_associative)]
    pub fn right_associative(self) -> (right: bool)
        ensures
            right == self.spec_right_associative(),
    {
        match self {
            Op::Pow => true,
            _ => false,
        }
    }
}

/// An expression as contracts see it: the same tree, with each literal as
/// the sequence of its digits.
pub enum Tree {
    Number(Seq<char>),
    Negate(Box<Tree>),
    Binary(Box<Tree>, Op, Box<Tree>),
}

/// An arithmetic expression. A literal keeps its digits as they were
/// written, most significant first; what number they stand for is the
/// evaluator's matter.
#[derive(Debug, PartialEq, Eq)]
pub enum Expr {
    Number(String),
    UnaryMinus(Box<Expr>),
    BinOp { lhs: Box<Expr>, op: Op, rhs: Box<Expr> },
}

impl Expr {
    /// The tree that this expression is.
    pub open spec fn tree(&self) -> Tree
        decreases self,
    {
        match self {
            Expr::Number(digits) => Tree::Number(digits@),
            Expr::UnaryMinus(operand) => Tree::Negate(Box::new(operand.tree())),
            Expr::BinOp { lhs, op, rhs } => Tree::Binary(
                Box::new(lhs.tree()),
                *op,
                Box::new(rhs.tree()),
            ),
        }
    }
}

impl View for Expr {
    type V = Tree;

    open spec fn view(&self) -> Tree {
        self.tree()
    }
}

/// Why a text is not an expression.
#[derive(Debug, Clone, Copy, PartialEq, Eq, Structural)]
pub enum ParseErrorKind {
    /// A character that cannot stand where it stands: one outside the
    /// language, or an operand right after another.
    UnexpectedToken,
    /// A `(` that is never closed, or a `)` that closes nothing.
    UnmatchedGrouping,
    /// An operand is missing: the text ends, or an operator or `)` stands
    /// where a number or `(` must.
    EmptyAtom,
}

/// A failed parse: what went wrong and at which character, counted from 0.
/// A position equal to the length of the text means its end.
#[derive(Debug, Clone, Copy, PartialEq, Eq, Structural)]
pub struct ParseError {
    pub kind: ParseErrorKind,
    pub position: usize,
}

} // verus!

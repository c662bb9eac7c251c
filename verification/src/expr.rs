//! The syntax tree of an expression.

use vstd::prelude::*;
use crate::error::Error;
use crate::token::{is_digit_string, Token, TokenView};

verus! {

/// A number leaf. It holds the decimal digits of its literal, most significant first.
#[derive(Debug, PartialEq)]
pub struct ExprNumber {
    pub number: Vec<u8>,
}

/// A binary operation. It owns both operands; `op` says how they are combined.
#[derive(Debug, PartialEq)]
pub struct ExprOp {
    pub left: Box<Expr>,
    pub right: Box<Expr>,
    pub op: Token,
}

/// An expression: a number, or an operation on two expressions.
#[derive(Debug, PartialEq)]
pub enum Expr {
    Number(ExprNumber),
    Op(ExprOp),
}

/// The mathematical content of an [`Expr`].
pub enum ExprView {
    Number(Seq<u8>),
    Op { left: Box<ExprView>, right: Box<ExprView>, op: TokenView },
}

impl ExprView {
    /// Every operation in the tree carries one of the four operators, and every leaf a
    /// digit string.
    pub open spec fn well_formed(self) -> bool
        decreases self,
    {
        match self {
            ExprView::Number(digits) => is_digit_string(digits),
            ExprView::Op { left, right, op } => {
                &&& op.is_operator()
                &&& left.well_formed()
                &&& right.well_formed()
            },
        }
    }

    /// A product: a number, or a product multiplied or divided by a number. Such a tree
    /// holds no `+` or `-`, and its operations are grouped to the left.
    pub open spec fn is_product(self) -> bool
        decreases self,
    {
        match self {
            ExprView::Number(_) => true,
            ExprView::Op { left, right, op } => {
                &&& op.is_multiplicative()
                &&& left.is_product()
                &&& *right is Number
            },
        }
    }

    /// A sum: a product, or a sum to which a product is added or from which one is
    /// subtracted. In such a tree `*` and `/` bind tighter than `+` and `-`, and the
    /// operations of either tier are grouped to the left.
    pub open spec fn is_sum(self) -> bool
        decreases self,
    {
        ||| self.is_product()
        ||| self matches ExprView::Op { left, right, op } && {
            &&& op.is_additive()
            &&& left.is_sum()
            &&& right.is_product()
        }
    }

    /// The tokens of the tree, read from left to right: each operator between its
    /// operands.
    pub open spec fn infix(self) -> Seq<TokenView>
        decreases self,
    {
        match self {
            ExprView::Number(digits) => seq![TokenView::Number(digits)],
            ExprView::Op { left, right, op } => left.infix() + seq![op] + right.infix(),
        }
    }
}

impl View for ExprNumber {
    type V = ExprView;

    open spec fn view(&self) -> ExprView {
        ExprView::Number(self.number@)
    }
}

impl Expr {
    /// The tree as a mathematical value; `@` on an expression means this.
    pub open spec fn tree(&self) -> ExprView
        decreases self,
    {
        match self {
            Expr::Number(leaf) => ExprView::Number(leaf.number@),
            Expr::Op(node) => ExprView::Op {
                left: Box::new(node.left.tree()),
                right: Box::new(node.right.tree()),
                op: node.op@,
            },
        }
    }
}

impl View for Expr {
    type V = ExprView;

    open spec fn view(&self) -> ExprView {
        self.tree()
    }
}

impl View for ExprOp {
    type V = ExprView;

    open spec fn view(&self) -> ExprView {
        ExprView::Op {
            left: Box::new(self.left.tree()),
            right: Box::new(self.right.tree()),
            op: self.op@,
        }
    }
}

impl ExprNumber {
    /// Whether the leaf holds at least one digit and nothing but digits.
    pub fn check(&self) -> (r: Result<(), Error>)
        ensures
            r is Ok <==> self@.well_formed(),
            r is Err ==> r == Err::<(), Error>(Error::InternalInvariant),
    {
        if self.number.len() == 0 {
            return Err(Error::InternalInvariant);
        }
        let mut i: usize = 0;
        while i < self.number.len()
            invariant
                i <= self.number.len(),
                forall|j: int| 0 <= j < i ==> self.number[j] < 10,
            decreases self.number.len() - i,
        {
            if self.number[i] >= 10 {
                return Err(Error::InternalInvariant);
            }
            i = i + 1;
        }
        Ok(())
    }
}

impl ExprOp {
    /// An operation node on the two operands.
    pub fn new(left: Box<Expr>, right: Box<Expr>, op: Token) -> (node: ExprOp)
        ensures
            node.left == left,
            node.right == right,
            node.op == op,
    {
        ExprOp { left, right, op }
    }

    /// The same node as an expression on the heap.
    pub fn new_boxed(left: Box<Expr>, right: Box<Expr>, op: Token) -> (node: Box<Expr>)
        ensures
            *node == Expr::Op(ExprOp { left, right, op }),
    {
        Box::new(Expr::Op(ExprOp::new(left, right, op)))
    }

    /// Whether the tag is one of the four operators and both operands pass
    /// [`Expr::check`]. The left operand is looked at first.
    pub fn check(&self) -> (r: Result<(), Error>)
        ensures
            r is Ok <==> self@.well_formed(),
            r is Err ==> r == Err::<(), Error>(Error::InternalInvariant),
        decreases self,
    {
        match self.left.check() {
            Err(e) => {
                return Err(e);
            },
            Ok(()) => {},
        }
        match self.right.check() {
            Err(e) => {
                return Err(e);
            },
            Ok(()) => {},
        }
        if self.op.is_operator() {
            Ok(())
        } else {
            Err(Error::InternalInvariant)
        }
    }
}

impl Expr {
    /// Looks for what evaluation could not handle: an operation whose tag is none of the
    /// four operators, or a leaf that holds something other than digits.
    ///
    /// A tree built by the parser always passes.
    pub fn check(&self) -> (r: Result<(), Error>)
        ensures
            r is Ok <==> self@.well_formed(),
            r is Err ==> r == Err::<(), Error>(Error::InternalInvariant),
        decreases self,
    {
        match self {
            Expr::Number(leaf) => leaf.check(),
            Expr::Op(node) => node.check(),
        }
    }
}

} // verus!

//! The grammar is unambiguous: a sum is determined by its tokens.
//!
//! Read from left to right, two different sums never give the same tokens. So the tree
//! that a parse returns is the only sum that spells the tokens that were read.

use vstd::prelude::*;
use crate::expr::ExprView;
use crate::token::TokenView;

verus! {

/// No token of the sequence is `+` or `-`.
pub open spec fn no_additive(tokens: Seq<TokenView>) -> bool {
    forall|i: int| 0 <= i < tokens.len() ==> !(#[trigger] tokens[i]).is_additive()
}

/// A tree has at least one token, and the first is a number.
pub proof fn lemma_infix_starts_with_number(tree: ExprView)
    ensures
        tree.infix().len() > 0,
        tree.infix().first() is Number,
    decreases tree,
{
    match tree {
        ExprView::Number(_) => {},
        ExprView::Op { left, right, op } => {
            lemma_infix_starts_with_number(*left);
        },
    }
}

/// A product holds no `+` and no `-`.
pub proof fn lemma_product_has_no_additive(tree: ExprView)
    requires
        tree.is_product(),
    ensures
        no_additive(tree.infix()),
    decreases tree,
{
    match tree {
        ExprView::Number(_) => {},
        ExprView::Op { left, right, op } => {
            lemma_product_has_no_additive(*left);
            let tokens = tree.infix();
            let n = left.infix().len() as int;
            assert(right.infix().len() == 1);
            assert(right.infix()[0] is Number);
            assert(tokens.len() == n + 2);
            assert forall|i: int| 0 <= i < tokens.len() implies !(#[trigger] tokens[i])
                .is_additive() by {
                if i < n {
                    assert(tokens[i] == left.infix()[i]);
                } else if i == n {
                    assert(tokens[i] == op);
                } else {
                    assert(tokens[i] == right.infix()[0]);
                }
            }
        },
    }
}

/// Two products with the same tokens are the same tree.
pub proof fn lemma_product_is_determined_by_its_tokens(first: ExprView, second: ExprView)
    requires
        first.is_product(),
        second.is_product(),
        first.infix() == second.infix(),
    ensures
        first == second,
    decreases first,
{
    lemma_infix_starts_with_number(first);
    lemma_infix_starts_with_number(second);
    match (first, second) {
        (ExprView::Number(a), ExprView::Number(b)) => {
            assert(first.infix()[0] == TokenView::Number(a));
            assert(second.infix()[0] == TokenView::Number(b));
            assert(a == b);
        },
        (
            ExprView::Op { left: left1, right: right1, op: op1 },
            ExprView::Op { left: left2, right: right2, op: op2 },
        ) => {
            let tokens = first.infix();
            let n = left1.infix().len() as int;
            assert(right1.infix().len() == 1);
            assert(right2.infix().len() == 1);
            assert(tokens.len() == n + 2);
            assert(second.infix().len() == left2.infix().len() + 2);
            assert(tokens[n] == op1);
            assert(second.infix()[n] == op2);
            assert(tokens[n + 1] == right1.infix()[0]);
            assert(second.infix()[n + 1] == right2.infix()[0]);
            assert(left1.infix() =~= tokens.subrange(0, n));
            assert(left2.infix() =~= second.infix().subrange(0, n));
            lemma_product_is_determined_by_its_tokens(*left1, *left2);
            assert(*right1 == *right2) by {
                assert(right1.infix()[0] == right2.infix()[0]);
            }
            assert(left1 == left2);
            assert(right1 == right2);
        },
        (ExprView::Number(_), ExprView::Op { left, right, op }) => {
            lemma_infix_starts_with_number(*left);
            assert(second.infix().len() == left.infix().len() + 1 + right.infix().len());
            assert(first.infix().len() == 1);
        },
        (ExprView::Op { left, right, op }, ExprView::Number(_)) => {
            lemma_infix_starts_with_number(*left);
            assert(first.infix().len() == left.infix().len() + 1 + right.infix().len());
            assert(second.infix().len() == 1);
        },
    }
}

/// In a sum that is no product, the last `+` or `-` is the one at the root: what follows
/// it is a product.
proof fn lemma_root_is_last_additive(
    left1: ExprView,
    right1: ExprView,
    op1: TokenView,
    left2: ExprView,
    right2: ExprView,
    op2: TokenView,
)
    requires
        op1.is_additive(),
        op2.is_additive(),
        right1.is_product(),
        right2.is_product(),
        left1.infix() + seq![op1] + right1.infix() == left2.infix() + seq![op2] + right2.infix(),
    ensures
        left1.infix().len() == left2.infix().len(),
{
    let tokens = left1.infix() + seq![op1] + right1.infix();
    let other = left2.infix() + seq![op2] + right2.infix();
    let n1 = left1.infix().len() as int;
    let n2 = left2.infix().len() as int;
    lemma_product_has_no_additive(right1);
    lemma_product_has_no_additive(right2);
    let front1 = left1.infix() + seq![op1];
    let front2 = left2.infix() + seq![op2];
    assert(tokens.len() == n1 + 1 + right1.infix().len());
    assert(other.len() == n2 + 1 + right2.infix().len());
    assert(front1[n1] == op1);
    assert(front2[n2] == op2);
    assert(tokens[n1] == op1);
    assert(other[n2] == op2);
    if n1 < n2 {
        assert(tokens[n2] == right1.infix()[n2 - front1.len()]);
        assert(!right1.infix()[n2 - n1 - 1].is_additive());
    } else if n2 < n1 {
        assert(other[n1] == right2.infix()[n1 - front2.len()]);
        assert(!right2.infix()[n1 - n2 - 1].is_additive());
    }
}

/// Two sums with the same tokens are the same tree.
pub proof fn lemma_sum_is_determined_by_its_tokens(first: ExprView, second: ExprView)
    requires
        first.is_sum(),
        second.is_sum(),
        first.infix() == second.infix(),
    ensures
        first == second,
    decreases first,
{
    if first.is_product() && second.is_product() {
        lemma_product_is_determined_by_its_tokens(first, second);
    } else if first.is_product() {
        lemma_product_has_no_additive(first);
        match second {
            ExprView::Op { left, right, op } => {
                assert(second.infix()[left.infix().len() as int] == op);
            },
            _ => {},
        }
    } else if second.is_product() {
        lemma_product_has_no_additive(second);
        match first {
            ExprView::Op { left, right, op } => {
                assert(first.infix()[left.infix().len() as int] == op);
            },
            _ => {},
        }
    } else {
        match (first, second) {
            (
                ExprView::Op { left: left1, right: right1, op: op1 },
                ExprView::Op { left: left2, right: right2, op: op2 },
            ) => {
                lemma_root_is_last_additive(*left1, *right1, op1, *left2, *right2, op2);
                let tokens = first.infix();
                let n = left1.infix().len() as int;
                assert(tokens[n] == op1);
                assert(second.infix()[n] == op2);
                assert(left1.infix() =~= tokens.subrange(0, n));
                assert(left2.infix() =~= second.infix().subrange(0, n));
                assert(right1.infix() =~= tokens.subrange(n + 1, tokens.len() as int));
                assert(right2.infix() =~= second.infix().subrange(
                    n + 1,
                    second.infix().len() as int,
                ));
                lemma_sum_is_determined_by_its_tokens(*left1, *left2);
                lemma_product_is_determined_by_its_tokens(*right1, *right2);
                assert(left1 == left2);
                assert(right1 == right2);
            },
            _ => {},
        }
    }
}

} // verus!

//! Loss functions, as expressions over a prediction and the truth.

use vstd::prelude::*;
use crate::algebra::arena::{Arena, Expr};
use crate::algebra::construct::{elementwise, held, mapped};
use crate::algebra::gradient::number;
use crate::algebra::operation::{Operation, OperationView};
use crate::algebra::tree::{lemma_grown_trans, Tree};
use crate::tensor::{Tensor, ZERO};

verus! {

/// The expression of the categorical cross entropy: zero less the sum of the truth times
/// the logarithm of the prediction.
pub open spec fn categorical_cross_entropy_of(prediction: Tree, truth: Tree) -> Tree {
    Tree::binary(
        OperationView::Sub,
        number(ZERO),
        Tree::unary(
            OperationView::Sum,
            Tree::binary(OperationView::Mul, truth, Tree::unary(OperationView::Ln, prediction)),
        ),
    )
}

/// The categorical cross entropy of a prediction against the truth.
pub fn categorical_cross_entropy(arena: &mut Arena, prediction: Expr, truth: Expr) -> (r: Expr)
    requires
        old(arena)@.wf(),
        old(arena)@.contains(prediction),
        old(arena)@.contains(truth),
    ensures
        final(arena)@.grown(old(arena)@),
        final(arena)@.contains(r),
        final(arena)@.of(r) == categorical_cross_entropy_of(
            old(arena)@.of(prediction),
            old(arena)@.of(truth),
        ),
{
    let ghost before = arena@;
    let zero = held(arena, Tensor::scalar(ZERO));
    let ghost a1 = arena@;
    let log = mapped(arena, Operation::Ln, prediction);
    let ghost a2 = arena@;
    proof {
        lemma_grown_trans(before, a1, a2);
    }
    let weighted = elementwise(arena, Operation::Mul, truth, log);
    let ghost a3 = arena@;
    proof {
        lemma_grown_trans(before, a2, a3);
    }
    let total = mapped(arena, Operation::Sum, weighted);
    let ghost a4 = arena@;
    proof {
        lemma_grown_trans(before, a3, a4);
    }
    let r = elementwise(arena, Operation::Sub, zero, total);
    proof {
        lemma_grown_trans(before, a4, arena@);
    }
    r
}

} // verus!

//! Activation functions, as expressions over their input.

use vstd::prelude::*;
use crate::algebra::arena::{Arena, Expr};
use crate::algebra::comparison::{cmp, Op};
use crate::algebra::construct::{elementwise, held, mapped, ternary};
use crate::algebra::gradient::number;
use crate::algebra::operation::{Operation, OperationView};
use crate::algebra::tree::{lemma_extends_keeps, lemma_grown_trans, Tree};
use crate::tensor::{Tensor, ZERO};

verus! {

/// The input itself.
pub fn linear(input: Expr) -> (r: Expr)
    ensures
        r == input,
{
    input
}

/// The expression that `relu` makes of `x`: zero where `x` is less than zero, `x`
/// elsewhere.
pub open spec fn relu_of(x: Tree) -> Tree {
    Tree::ternary(
        OperationView::Ternary,
        Tree::binary(OperationView::Compare { op: Op::Less }, x, number(ZERO)),
        number(ZERO),
        x,
    )
}

/// The greater of the input and zero, element by element.
pub fn relu(arena: &mut Arena, input: Expr) -> (r: Expr)
    requires
        old(arena)@.wf(),
        old(arena)@.contains(input),
    ensures
        final(arena)@.grown(old(arena)@),
        final(arena)@.contains(r),
        final(arena)@.of(r) == relu_of(old(arena)@.of(input)),
{
    let ghost before = arena@;
    let zero = held(arena, Tensor::scalar(ZERO));
    let ghost a1 = arena@;
    let r = input.max(arena, zero);
    proof {
        lemma_extends_keeps(a1, arena@);
        lemma_grown_trans(before, a1, arena@);
    }
    r
}

/// The expression that `leaky_relu` with the slope `alpha` makes of `x`: `alpha` times `x`
/// where `x` is less than zero, `x` elsewhere.
pub open spec fn leaky_relu_of(alpha: u32, x: Tree) -> Tree {
    Tree::ternary(
        OperationView::Ternary,
        Tree::binary(OperationView::Compare { op: Op::Less }, x, number(ZERO)),
        Tree::binary(OperationView::Mul, x, number(alpha)),
        x,
    )
}

/// The input where it is not less than zero, and `alpha` times the input elsewhere.
/// `alpha` is given as the bit pattern of a single-precision number.
pub fn leaky_relu(arena: &mut Arena, alpha: u32, input: Expr) -> (r: Expr)
    requires
        old(arena)@.wf(),
        old(arena)@.contains(input),
    ensures
        final(arena)@.grown(old(arena)@),
        final(arena)@.contains(r),
        final(arena)@.of(r) == leaky_relu_of(alpha, old(arena)@.of(input)),
{
    let ghost before = arena@;
    let zero = held(arena, Tensor::scalar(ZERO));
    let ghost a1 = arena@;
    let less = cmp(arena, input, Op::Less, zero);
    let ghost a2 = arena@;
    proof {
        lemma_extends_keeps(a1, a2);
        lemma_grown_trans(before, a1, a2);
    }
    let slope = held(arena, Tensor::scalar(alpha));
    let ghost a3 = arena@;
    proof {
        lemma_grown_trans(before, a2, a3);
    }
    let scaled = elementwise(arena, Operation::Mul, input, slope);
    let ghost a4 = arena@;
    proof {
        lemma_grown_trans(before, a3, a4);
    }
    let r = ternary(arena, less, scaled, input);
    proof {
        lemma_extends_keeps(a4, arena@);
        lemma_grown_trans(before, a4, arena@);
    }
    r
}

/// The softmax of the input.
pub fn softmax(arena: &mut Arena, input: Expr) -> (r: Expr)
    requires
        old(arena)@.wf(),
        old(arena)@.contains(input),
    ensures
        final(arena)@.grown(old(arena)@),
        final(arena)@.contains(r),
        final(arena)@.of(r) == Tree::unary(OperationView::Softmax, old(arena)@.of(input)),
{
    mapped(arena, Operation::Softmax, input)
}

} // verus!

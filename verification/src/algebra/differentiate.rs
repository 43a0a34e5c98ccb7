//! The executable side of differentiation.

use vstd::prelude::*;
use crate::algebra::arena::{ids, Arena, ArenaView, Expr};
use crate::algebra::construct::{
    elementwise, held, mapped, ternary, try_binary, try_unary, unevaluable,
};
use crate::algebra::gradient::{
    arriving, backprop, contributable, contributions, drain, gradient, gradients,
    lemma_drain_pushes, lemma_total_join, lemma_total_push, lemma_total_pushes, number,
    placeholder, pushes, seed, step, total, Gathered,
};
use crate::algebra::gradients::Gradients;
use crate::algebra::kernel::kernel_ok;
use crate::algebra::operation::{Operation, OperationView};
use crate::algebra::simplify::literal;
use crate::algebra::tree::{lemma_extends_keeps, lemma_grown_trans, lemma_node, Tree};
use crate::shape::{broadcast_axes, checked_size, repeated_axes, same, size};
use crate::tensor::{Tensor, TensorView, HALF, MINUS_ONE, ONE, TWO, ZERO};

verus! {

/// Whether the handles stand, position by position, for the given expressions.
pub open spec fn handed_as(a: ArenaView, handed: Seq<Option<Expr>>, trees: Seq<Option<Tree>>) -> bool {
    &&& handed.len() == trees.len()
    &&& forall|j: int|
        0 <= j < handed.len() ==> match #[trigger] handed[j] {
            Some(e) => a.contains(e) && trees[j] == Some(a.of(e)),
            None => trees[j] is None,
        }
}

/// What a difference hands on: the gradient, and its negative.
fn handed_sub(arena: &mut Arena, output: Expr) -> (r: Vec<Option<Expr>>)
    requires
        old(arena)@.wf(),
        old(arena)@.contains(output),
    ensures
        final(arena)@.grown(old(arena)@),
        handed_as(final(arena)@, r@, seq![Some(old(arena)@.of(output)), Some(Tree::binary(OperationView::Mul, number(MINUS_ONE), old(arena)@.of(output)))]),
{
    let ghost before = arena@;
    proof {
        lemma_extends_keeps(before, before);
    }
    let minus = held(arena, Tensor::scalar(MINUS_ONE));
    let ghost a1 = arena@;
    let negated = elementwise(arena, Operation::Mul, minus, output);
    proof {
        lemma_grown_trans(before, a1, arena@);
    }
    vec![Some(output), Some(negated)]
}

/// What a product hands on: to each factor the gradient times the other factor.
fn handed_mul(arena: &mut Arena, x: Expr, y: Expr, output: Expr) -> (r: Vec<Option<Expr>>)
    requires
        old(arena)@.wf(),
        old(arena)@.contains(x),
        old(arena)@.contains(y),
        old(arena)@.contains(output),
    ensures
        final(arena)@.grown(old(arena)@),
        handed_as(final(arena)@, r@, seq![Some(Tree::binary(OperationView::Mul, old(arena)@.of(output), old(arena)@.of(y))), Some(Tree::binary(OperationView::Mul, old(arena)@.of(output), old(arena)@.of(x)))]),
{
    let ghost before = arena@;
    proof {
        lemma_extends_keeps(before, before);
    }
    let first = elementwise(arena, Operation::Mul, output, y);
    let ghost a1 = arena@;
    let second = elementwise(arena, Operation::Mul, output, x);
    proof {
        lemma_grown_trans(before, a1, arena@);
    }
    vec![Some(first), Some(second)]
}

/// What a quotient hands on: to the numerator the gradient over the denominator, to the
/// denominator the gradient times the negative numerator over the square of the denominator.
fn handed_div(arena: &mut Arena, x: Expr, y: Expr, output: Expr) -> (r: Vec<Option<Expr>>)
    requires
        old(arena)@.wf(),
        old(arena)@.contains(x),
        old(arena)@.contains(y),
        old(arena)@.contains(output),
    ensures
        final(arena)@.grown(old(arena)@),
        handed_as(final(arena)@, r@, seq![
            Some(Tree::binary(OperationView::Div, old(arena)@.of(output), old(arena)@.of(y))),
            Some(
                Tree::binary(
                    OperationView::Mul,
                    old(arena)@.of(output),
                    Tree::binary(
                        OperationView::Div,
                        Tree::binary(OperationView::Mul, number(MINUS_ONE), old(arena)@.of(x)),
                        Tree::unary(OperationView::Square, old(arena)@.of(y)),
                    ),
                ),
            ),
        ]),
{
    let ghost before = arena@;
    proof {
        lemma_extends_keeps(before, before);
    }
    let first = elementwise(arena, Operation::Div, output, y);
    let ghost a1 = arena@;
    let minus = held(arena, Tensor::scalar(MINUS_ONE));
    let ghost a2 = arena@;
    proof {
        lemma_grown_trans(before, a1, a2);
    }
    let negated = elementwise(arena, Operation::Mul, minus, x);
    let ghost a3 = arena@;
    proof {
        lemma_grown_trans(before, a2, a3);
    }
    let squared = mapped(arena, Operation::Square, y);
    let ghost a4 = arena@;
    proof {
        lemma_grown_trans(before, a3, a4);
    }
    let ratio = elementwise(arena, Operation::Div, negated, squared);
    let ghost a5 = arena@;
    proof {
        lemma_grown_trans(before, a4, a5);
    }
    let second = elementwise(arena, Operation::Mul, output, ratio);
    proof {
        lemma_grown_trans(before, a5, arena@);
    }
    vec![Some(first), Some(second)]
}

/// What a term without a derivative hands on: to each of its two inputs a placeholder of
/// the input's shape.
fn handed_placeholders(arena: &mut Arena, x: Expr, y: Expr, reason: &str) -> (r: Vec<Option<Expr>>)
    requires
        old(arena)@.wf(),
        old(arena)@.contains(x),
        old(arena)@.contains(y),
    ensures
        final(arena)@.grown(old(arena)@),
        handed_as(final(arena)@, r@, seq![Some(placeholder(old(arena)@.of(x), reason@)), Some(placeholder(old(arena)@.of(y), reason@))]),
{
    let ghost before = arena@;
    proof {
        lemma_extends_keeps(before, before);
    }
    proof {
        lemma_node(before, x);
        lemma_node(before, y);
    }
    let left_shape = arena.shape(x).clone();
    let right_shape = arena.shape(y).clone();
    let first = unevaluable(arena, left_shape, reason);
    let ghost a1 = arena@;
    proof {
        lemma_extends_keeps(before, a1);
    }
    let second = unevaluable(arena, right_shape, reason);
    proof {
        lemma_extends_keeps(a1, arena@);
        lemma_grown_trans(before, a1, arena@);
    }
    vec![Some(first), Some(second)]
}

/// What a selection hands on: nothing to the condition; to each branch the gradient where
/// the branch was selected and zero elsewhere.
fn handed_ternary(arena: &mut Arena, x: Expr, output: Expr) -> (r: Vec<Option<Expr>>)
    requires
        old(arena)@.wf(),
        old(arena)@.contains(x),
        old(arena)@.contains(output),
    ensures
        final(arena)@.grown(old(arena)@),
        handed_as(final(arena)@, r@, seq![
            None,
            Some(Tree::ternary(OperationView::Ternary, old(arena)@.of(x), old(arena)@.of(output), number(ZERO))),
            Some(Tree::ternary(OperationView::Ternary, old(arena)@.of(x), number(ZERO), old(arena)@.of(output))),
        ]),
{
    let ghost before = arena@;
    proof {
        lemma_extends_keeps(before, before);
    }
    let zero = held(arena, Tensor::scalar(ZERO));
    let ghost a1 = arena@;
    let first = ternary(arena, x, output, zero);
    let ghost a2 = arena@;
    proof {
        lemma_extends_keeps(a1, a2);
        lemma_grown_trans(before, a1, a2);
    }
    let second = ternary(arena, x, zero, output);
    proof {
        lemma_extends_keeps(a2, arena@);
        lemma_grown_trans(before, a2, arena@);
    }
    vec![None, Some(first), Some(second)]
}

/// What an exponential hands on: the gradient times the exponential.
fn handed_exp(arena: &mut Arena, x: Expr, output: Expr) -> (r: Vec<Option<Expr>>)
    requires
        old(arena)@.wf(),
        old(arena)@.contains(x),
        old(arena)@.contains(output),
    ensures
        final(arena)@.grown(old(arena)@),
        handed_as(final(arena)@, r@, seq![Some(Tree::binary(OperationView::Mul, old(arena)@.of(output), Tree::unary(OperationView::Exp, old(arena)@.of(x))))]),
{
    let ghost before = arena@;
    proof {
        lemma_extends_keeps(before, before);
    }
    let again = mapped(arena, Operation::Exp, x);
    let ghost a1 = arena@;
    let first = elementwise(arena, Operation::Mul, output, again);
    proof {
        lemma_grown_trans(before, a1, arena@);
    }
    vec![Some(first)]
}

/// What a logarithm hands on: the gradient over the operand.
fn handed_ln(arena: &mut Arena, x: Expr, output: Expr) -> (r: Vec<Option<Expr>>)
    requires
        old(arena)@.wf(),
        old(arena)@.contains(x),
        old(arena)@.contains(output),
    ensures
        final(arena)@.grown(old(arena)@),
        handed_as(final(arena)@, r@, seq![Some(Tree::binary(OperationView::Div, old(arena)@.of(output), old(arena)@.of(x)))]),
{
    let ghost before = arena@;
    proof {
        lemma_extends_keeps(before, before);
    }
    let first = elementwise(arena, Operation::Div, output, x);
    vec![Some(first)]
}

/// What a square hands on: the gradient times two times the operand.
fn handed_square(arena: &mut Arena, x: Expr, output: Expr) -> (r: Vec<Option<Expr>>)
    requires
        old(arena)@.wf(),
        old(arena)@.contains(x),
        old(arena)@.contains(output),
    ensures
        final(arena)@.grown(old(arena)@),
        handed_as(final(arena)@, r@, seq![Some(Tree::binary(OperationView::Mul, Tree::binary(OperationView::Mul, old(arena)@.of(output), number(TWO)), old(arena)@.of(x)))]),
{
    let ghost before = arena@;
    proof {
        lemma_extends_keeps(before, before);
    }
    let two = held(arena, Tensor::scalar(TWO));
    let ghost a1 = arena@;
    let doubled = elementwise(arena, Operation::Mul, output, two);
    let ghost a2 = arena@;
    proof {
        lemma_grown_trans(before, a1, a2);
    }
    let first = elementwise(arena, Operation::Mul, doubled, x);
    proof {
        lemma_grown_trans(before, a2, arena@);
    }
    vec![Some(first)]
}

/// What a square root hands on: the gradient times one half over the square root.
fn handed_sqrt(arena: &mut Arena, x: Expr, output: Expr) -> (r: Vec<Option<Expr>>)
    requires
        old(arena)@.wf(),
        old(arena)@.contains(x),
        old(arena)@.contains(output),
    ensures
        final(arena)@.grown(old(arena)@),
        handed_as(final(arena)@, r@, seq![Some(Tree::binary(OperationView::Div, Tree::binary(OperationView::Mul, old(arena)@.of(output), number(HALF)), Tree::unary(OperationView::Sqrt, old(arena)@.of(x))))]),
{
    let ghost before = arena@;
    proof {
        lemma_extends_keeps(before, before);
    }
    let half = held(arena, Tensor::scalar(HALF));
    let ghost a1 = arena@;
    let halved = elementwise(arena, Operation::Mul, output, half);
    let ghost a2 = arena@;
    proof {
        lemma_grown_trans(before, a1, a2);
    }
    let root = mapped(arena, Operation::Sqrt, x);
    let ghost a3 = arena@;
    proof {
        lemma_grown_trans(before, a2, a3);
    }
    let first = elementwise(arena, Operation::Div, halved, root);
    proof {
        lemma_grown_trans(before, a3, arena@);
    }
    vec![Some(first)]
}

/// What a sum of all elements hands on: the gradient times ones of the operand's shape.
fn handed_sum(arena: &mut Arena, x: Expr, output: Expr) -> (r: Vec<Option<Expr>>)
    requires
        old(arena)@.wf(),
        old(arena)@.contains(x),
        old(arena)@.contains(output),
    ensures
        final(arena)@.grown(old(arena)@),
        handed_as(final(arena)@, r@, seq![Some(Tree::binary(OperationView::Mul, old(arena)@.of(output), literal(TensorView::filled(old(arena)@.of(x).shape(), ONE))))]),
{
    let ghost before = arena@;
    proof {
        lemma_extends_keeps(before, before);
    }
    proof {
        lemma_node(before, x);
    }
    let shape = arena.shape(x).clone();
    let ones = held(arena, Tensor::ones(shape));
    let ghost a1 = arena@;
    let first = elementwise(arena, Operation::Mul, output, ones);
    proof {
        lemma_grown_trans(before, a1, arena@);
    }
    vec![Some(first)]
}

/// What a softmax hands on: the gradient less the sum of its product with the softmax,
/// times the softmax.
fn handed_softmax(arena: &mut Arena, x: Expr, output: Expr) -> (r: Vec<Option<Expr>>)
    requires
        old(arena)@.wf(),
        old(arena)@.contains(x),
        old(arena)@.contains(output),
    ensures
        final(arena)@.grown(old(arena)@),
        handed_as(final(arena)@, r@, seq![
            Some(
                Tree::binary(
                    OperationView::Mul,
                    Tree::binary(
                        OperationView::Sub,
                        old(arena)@.of(output),
                        Tree::unary(
                            OperationView::Sum,
                            Tree::binary(
                                OperationView::Mul,
                                old(arena)@.of(output),
                                Tree::unary(OperationView::Softmax, old(arena)@.of(x)),
                            ),
                        ),
                    ),
                    Tree::unary(OperationView::Softmax, old(arena)@.of(x)),
                ),
            ),
        ]),
{
    let ghost before = arena@;
    proof {
        lemma_extends_keeps(before, before);
    }
    let again = mapped(arena, Operation::Softmax, x);
    let ghost a1 = arena@;
    let weighted = elementwise(arena, Operation::Mul, output, again);
    let ghost a2 = arena@;
    proof {
        lemma_grown_trans(before, a1, a2);
    }
    let total = mapped(arena, Operation::Sum, weighted);
    let ghost a3 = arena@;
    proof {
        lemma_grown_trans(before, a2, a3);
    }
    let centred = elementwise(arena, Operation::Sub, output, total);
    let ghost a4 = arena@;
    proof {
        lemma_grown_trans(before, a3, a4);
    }
    let first = elementwise(arena, Operation::Mul, centred, again);
    proof {
        lemma_grown_trans(before, a4, arena@);
    }
    vec![Some(first)]
}

/// What a transposition hands on: the gradient transposed.
fn handed_transpose(arena: &mut Arena, output: Expr) -> (r: Vec<Option<Expr>>)
    requires
        old(arena)@.wf(),
        old(arena)@.contains(output),
    ensures
        final(arena)@.grown(old(arena)@),
        handed_as(final(arena)@, r@, seq![Some(Tree::unary(OperationView::Transpose, old(arena)@.of(output)))]),
{
    let ghost before = arena@;
    proof {
        lemma_extends_keeps(before, before);
    }
    let first = mapped(arena, Operation::Transpose, output);
    vec![Some(first)]
}

/// What a sum over axes hands on: the gradient repeated up to the operand's shape.
fn handed_reduce_sum(arena: &mut Arena, x: Expr, output: Expr) -> (r: Option<Vec<Option<Expr>>>)
    requires
        old(arena)@.wf(),
        old(arena)@.contains(x),
        old(arena)@.contains(output),
    ensures
        final(arena)@.grown(old(arena)@),
        r is Some <==> Tree::unary(OperationView::BroadcastTo { shape: old(arena)@.of(x).shape() }, old(arena)@.of(output)).wf(),
        r matches Some(handed) ==> handed_as(final(arena)@, handed@, seq![Some(Tree::unary(OperationView::BroadcastTo { shape: old(arena)@.of(x).shape() }, old(arena)@.of(output)))]),
{
    let ghost before = arena@;
    proof {
        lemma_extends_keeps(before, before);
    }
    proof {
        lemma_node(before, x);
    }
    let shape = arena.shape(x).clone();
    match try_unary(arena, Operation::BroadcastTo { shape }, output) {
        Some(first) => Some(vec![Some(first)]),
        None => None,
    }
}

/// What a reshaping hands on: the gradient under the operand's shape.
fn handed_reshape(arena: &mut Arena, x: Expr, output: Expr) -> (r: Option<Vec<Option<Expr>>>)
    requires
        old(arena)@.wf(),
        old(arena)@.contains(x),
        old(arena)@.contains(output),
    ensures
        final(arena)@.grown(old(arena)@),
        r is Some <==> Tree::unary(OperationView::Reshape { shape: old(arena)@.of(x).shape() }, old(arena)@.of(output)).wf(),
        r matches Some(handed) ==> handed_as(final(arena)@, handed@, seq![Some(Tree::unary(OperationView::Reshape { shape: old(arena)@.of(x).shape() }, old(arena)@.of(output)))]),
{
    let ghost before = arena@;
    proof {
        lemma_extends_keeps(before, before);
    }
    proof {
        lemma_node(before, x);
    }
    let shape = arena.shape(x).clone();
    match try_unary(arena, Operation::Reshape { shape }, output) {
        Some(first) => Some(vec![Some(first)]),
        None => None,
    }
}

/// What an expansion to rank `rank` hands on: the gradient summed over the axes along
/// which the operand was repeated, under the operand's shape.
fn handed_broadcast_to(arena: &mut Arena, x: Expr, rank: usize, output: Expr) -> (r: Option<Vec<Option<Expr>>>)
    requires
        old(arena)@.wf(),
        old(arena)@.contains(x),
        old(arena)@.contains(output),
    ensures
        final(arena)@.grown(old(arena)@),
        r is Some <==> old(arena)@.of(x).rank() <= rank && Tree::unary(
            OperationView::Reshape { shape: old(arena)@.of(x).shape() },
            Tree::unary(
                OperationView::ReduceSum { axes: broadcast_axes(old(arena)@.of(x).shape(), rank as nat) },
                old(arena)@.of(output),
            ),
        ).wf(),
        r matches Some(handed) ==> handed_as(final(arena)@, handed@, seq![Some(Tree::unary(
            OperationView::Reshape { shape: old(arena)@.of(x).shape() },
            Tree::unary(
                OperationView::ReduceSum { axes: broadcast_axes(old(arena)@.of(x).shape(), rank as nat) },
                old(arena)@.of(output),
            ),
        ))]),
{
    let ghost before = arena@;
    proof {
        lemma_extends_keeps(before, before);
    }
    proof {
        lemma_node(before, x);
    }
    let from = arena.shape(x).clone();
    if from.len() > rank {
        return None;
    }
    let axes = repeated_axes(&from, rank);
    let ghost inner = Tree::unary(OperationView::ReduceSum { axes: axes@ }, before.of(output));
    let ghost whole = Tree::unary(OperationView::Reshape { shape: from@ }, inner);
    proof {
        assert(whole.inputs[0] == inner);
    }
    match try_unary(arena, Operation::ReduceSum { axes }, output) {
        Some(summed) => {
            let ghost a1 = arena@;
            let r = match try_unary(arena, Operation::Reshape { shape: from }, summed) {
                Some(first) => Some(vec![Some(first)]),
                None => None,
            };
            proof {
                lemma_grown_trans(before, a1, arena@);
            }
            r
        },
        None => None,
    }
}

/// What a matrix product hands on: to the left factor the gradient times the right factor
/// transposed, to the right factor the left factor transposed times the gradient.
fn handed_matmul(arena: &mut Arena, x: Expr, y: Expr, output: Expr) -> (r: Option<Vec<Option<Expr>>>)
    requires
        old(arena)@.wf(),
        old(arena)@.contains(x),
        old(arena)@.contains(y),
        old(arena)@.contains(output),
    ensures
        final(arena)@.grown(old(arena)@),
        r is Some <==> Tree::binary(OperationView::MatMul, old(arena)@.of(output), Tree::unary(OperationView::Transpose, old(arena)@.of(y))).wf() && Tree::binary(OperationView::MatMul, Tree::unary(OperationView::Transpose, old(arena)@.of(x)), old(arena)@.of(output)).wf(),
        r matches Some(handed) ==> handed_as(final(arena)@, handed@, seq![Some(Tree::binary(OperationView::MatMul, old(arena)@.of(output), Tree::unary(OperationView::Transpose, old(arena)@.of(y)))), Some(Tree::binary(OperationView::MatMul, Tree::unary(OperationView::Transpose, old(arena)@.of(x)), old(arena)@.of(output)))]),
{
    let ghost before = arena@;
    proof {
        lemma_extends_keeps(before, before);
    }
    let right = mapped(arena, Operation::Transpose, y);
    let ghost a1 = arena@;
    match try_binary(arena, Operation::MatMul, output, right) {
        Some(first) => {
            let ghost a2 = arena@;
            proof {
                lemma_grown_trans(before, a1, a2);
            }
            let left = mapped(arena, Operation::Transpose, x);
            let ghost a3 = arena@;
            proof {
                lemma_grown_trans(before, a2, a3);
            }
            let r = match try_binary(arena, Operation::MatMul, left, output) {
                Some(second) => Some(vec![Some(first), Some(second)]),
                None => None,
            };
            proof {
                lemma_grown_trans(before, a3, arena@);
            }
            r
        },
        None => {
            proof {
                lemma_grown_trans(before, a1, arena@);
            }
            None
        },
    }
}

/// What a product of a matrix and a vector hands on: to the matrix the outer product of
/// the gradient and the vector, to the vector the matrix transposed times the gradient.
fn handed_matvecmul(arena: &mut Arena, x: Expr, y: Expr, output: Expr) -> (r: Option<Vec<Option<Expr>>>)
    requires
        old(arena)@.wf(),
        old(arena)@.contains(x),
        old(arena)@.contains(y),
        old(arena)@.contains(output),
    ensures
        final(arena)@.grown(old(arena)@),
        r is Some <==> Tree::binary(
            OperationView::MatMul,
            Tree::unary(
                OperationView::Reshape { shape: seq![size(old(arena)@.of(output).shape()) as usize, 1usize] },
                old(arena)@.of(output),
            ),
            Tree::unary(
                OperationView::Reshape { shape: seq![1usize, size(old(arena)@.of(y).shape()) as usize] },
                old(arena)@.of(y),
            ),
        ).wf() && Tree::binary(OperationView::MatVecMul, Tree::unary(OperationView::Transpose, old(arena)@.of(x)), old(arena)@.of(output)).wf(),
        r matches Some(handed) ==> handed_as(final(arena)@, handed@, seq![Some(Tree::binary(
            OperationView::MatMul,
            Tree::unary(
                OperationView::Reshape { shape: seq![size(old(arena)@.of(output).shape()) as usize, 1usize] },
                old(arena)@.of(output),
            ),
            Tree::unary(
                OperationView::Reshape { shape: seq![1usize, size(old(arena)@.of(y).shape()) as usize] },
                old(arena)@.of(y),
            ),
        )), Some(Tree::binary(OperationView::MatVecMul, Tree::unary(OperationView::Transpose, old(arena)@.of(x)), old(arena)@.of(output)))]),
{
    let ghost before = arena@;
    proof {
        lemma_extends_keeps(before, before);
    }
    proof {
        lemma_node(before, output);
        lemma_node(before, y);
    }
    let rows: usize = match checked_size(arena.shape(output)) {
        Some(rows) => rows,
        None => unreached(),
    };
    let columns: usize = match checked_size(arena.shape(y)) {
        Some(columns) => columns,
        None => unreached(),
    };
    let mut tall: Vec<usize> = Vec::new();
    tall.push(rows);
    tall.push(1);
    let mut wide: Vec<usize> = Vec::new();
    wide.push(1);
    wide.push(columns);
    let ghost column = Tree::unary(OperationView::Reshape { shape: tall@ }, before.of(output));
    let ghost row = Tree::unary(OperationView::Reshape { shape: wide@ }, before.of(y));
    let ghost c0 = Tree::binary(OperationView::MatMul, column, row);
    proof {
        assert(tall@ =~= seq![rows, 1usize]);
        assert(wide@ =~= seq![1usize, columns]);
        assert(c0.inputs[0] == column);
        assert(c0.inputs[1] == row);
    }
    match try_unary(arena, Operation::Reshape { shape: tall }, output) {
        Some(as_column) => {
            let ghost a1 = arena@;
            match try_unary(arena, Operation::Reshape { shape: wide }, y) {
                Some(as_row) => {
                    let ghost a2 = arena@;
                    proof {
                        lemma_grown_trans(before, a1, a2);
                    }
                    match try_binary(arena, Operation::MatMul, as_column, as_row) {
                        Some(first) => {
                            let ghost a3 = arena@;
                            proof {
                                lemma_grown_trans(before, a2, a3);
                            }
                            let left = mapped(arena, Operation::Transpose, x);
                            let ghost a4 = arena@;
                            proof {
                                lemma_grown_trans(before, a3, a4);
                            }
                            let r = match try_binary(arena, Operation::MatVecMul, left, output) {
                                Some(second) => Some(vec![Some(first), Some(second)]),
                                None => None,
                            };
                            proof {
                                lemma_grown_trans(before, a4, arena@);
                            }
                            r
                        },
                        None => {
                            proof {
                                lemma_grown_trans(before, a2, arena@);
                            }
                            None
                        },
                    }
                },
                None => {
                    proof {
                        lemma_grown_trans(before, a1, arena@);
                    }
                    None
                },
            }
        },
        None => None,
    }
}

impl Expr {
    /// What the root term hands to each of its inputs, in order, when the gradient `output`
    /// arrives at it, where it can hand its contributions on; the terms of the
    /// contributions are appended to the arena.
    pub fn contribute(&self, arena: &mut Arena, output: Expr) -> (r: Option<Vec<Option<Expr>>>)
        requires
            old(arena)@.wf(),
            old(arena)@.contains(*self),
            old(arena)@.contains(output),
        ensures
            final(arena)@.grown(old(arena)@),
            r is Some <==> contributable(old(arena)@.of(*self), old(arena)@.of(output)),
            r matches Some(handed) ==> handed_as(
                final(arena)@,
                handed@,
                contributions(old(arena)@.of(*self), old(arena)@.of(output)),
            ),
    {
        let ghost before = arena@;
        let ghost t = before.of(*self);
        let ghost g = before.of(output);
        proof {
            lemma_node(before, *self);
            lemma_extends_keeps(before, before);
        }
        let inputs = self.inputs(arena);
        let n: usize = inputs.len();
        proof {
            assert forall|p: int| 0 <= p < n implies before.of(#[trigger] inputs[p]) == t.inputs[p]
                && before.contains(inputs[p]) by {
                assert(before.trees(ids(inputs@))[p] == before.tree(ids(inputs@)[p] as int));
            }
        }
        let operation = arena.operation(*self).copy();
        let handed: Option<Vec<Option<Expr>>> = match operation {
            Operation::Constant { .. } => Some(Vec::new()),
            Operation::Variable { .. } => Some(Vec::new()),
            Operation::Unevaluable { .. } => Some(Vec::new()),
            Operation::Add => Some(vec![Some(output), Some(output)]),
            Operation::BiasAdd => Some(vec![Some(output), Some(output)]),
            Operation::Sub => Some(handed_sub(arena, output)),
            Operation::Mul => Some(handed_mul(arena, inputs[0], inputs[1], output)),
            Operation::Div => Some(handed_div(arena, inputs[0], inputs[1], output)),
            Operation::Compare { .. } => Some(
                handed_placeholders(
                    arena,
                    inputs[0],
                    inputs[1],
                    "gradients are not supported for comparisons",
                ),
            ),
            Operation::Conv2D { .. } => Some(
                handed_placeholders(
                    arena,
                    inputs[0],
                    inputs[1],
                    "Conv2D gradients have not been implemented.",
                ),
            ),
            Operation::Ternary => Some(handed_ternary(arena, inputs[0], output)),
            Operation::Exp => {
                proof {
                    assert(t.inputs =~= seq![t.inputs[0]]);
                }
                Some(handed_exp(arena, inputs[0], output))
            },
            Operation::Ln => Some(handed_ln(arena, inputs[0], output)),
            Operation::Square => Some(handed_square(arena, inputs[0], output)),
            Operation::Sqrt => Some(handed_sqrt(arena, inputs[0], output)),
            Operation::Sum => Some(handed_sum(arena, inputs[0], output)),
            Operation::Softmax => {
                proof {
                    assert(t.inputs =~= seq![t.inputs[0]]);
                }
                Some(handed_softmax(arena, inputs[0], output))
            },
            Operation::Transpose => Some(handed_transpose(arena, output)),
            Operation::ReduceSum { .. } => handed_reduce_sum(arena, inputs[0], output),
            Operation::Reshape { .. } => handed_reshape(arena, inputs[0], output),
            Operation::BroadcastTo { shape } => handed_broadcast_to(
                arena,
                inputs[0],
                shape.len(),
                output,
            ),
            Operation::MatMul => handed_matmul(arena, inputs[0], inputs[1], output),
            Operation::MatVecMul => handed_matvecmul(arena, inputs[0], inputs[1], output),
        };
        proof {
            let a = arena@;
            let want = contributions(t, g);
            if handed is Some {
                assert(handed_as(a, handed->0@, want));
                assert forall|j: int| 0 <= j < want.len() implies (#[trigger] want[j] matches Some(
                    c,
                ) ==> c.wf()) by {
                    if handed->0[j] is Some {
                        lemma_node(a, handed->0[j]->0);
                    }
                }
            } else {
                assert(!contributable(t, g)) by {
                    if contributable(t, g) {
                        assert(want[0] matches Some(c) ==> c.wf());
                        if want.len() > 1 {
                            assert(want[1] matches Some(c) ==> c.wf());
                        }
                    }
                }
            }
        }
        handed
    }
}

/// The expressions that the handles of a table stand for, by name.
pub open spec fn lifted(a: ArenaView, table: Map<Seq<char>, Expr>) -> Gathered {
    Map::new(|n: Seq<char>| table.contains_key(n), |n: Seq<char>| a.of(table[n]))
}

/// Whether every handle of a table is a handle of the arena.
pub open spec fn held_in(a: ArenaView, table: Map<Seq<char>, Expr>) -> bool {
    forall|n: Seq<char>| table.contains_key(n) ==> a.contains(#[trigger] table[n])
}

/// Whether the pairs of handles stand, position by position, for the given pairs of
/// expressions.
pub open spec fn pending_as(a: ArenaView, to_visit: Seq<(Expr, Expr)>, pending: Seq<(Tree, Tree)>) -> bool {
    &&& to_visit.len() == pending.len()
    &&& forall|i: int|
        0 <= i < to_visit.len() ==> {
            &&& a.contains((#[trigger] to_visit[i]).0)
            &&& a.contains(to_visit[i].1)
            &&& a.of(to_visit[i].0) == pending[i].0
            &&& a.of(to_visit[i].1) == pending[i].1
        }
}

impl Expr {
    /// What happens at the root term when the gradient `output` arrives at it, where the
    /// term accepts it: a variable adds it to the table under its name; any other term
    /// returns what it hands to each of its inputs. New terms are appended to the arena.
    pub fn try_accumulate_gradients(
        &self,
        arena: &mut Arena,
        output: Expr,
        gradients: &mut Gradients,
    ) -> (r: Option<Vec<Option<Expr>>>)
        requires
            old(arena)@.wf(),
            old(arena)@.contains(*self),
            old(arena)@.contains(output),
            old(gradients).wf(),
            held_in(old(arena)@, old(gradients)@),
        ensures
            final(arena)@.grown(old(arena)@),
            final(gradients).wf(),
            held_in(final(arena)@, final(gradients)@),
            r is Some <==> step(
                old(arena)@.of(*self),
                old(arena)@.of(output),
                lifted(old(arena)@, old(gradients)@),
            ) is Some,
            r matches Some(handed) ==> {
                let stepped = step(
                    old(arena)@.of(*self),
                    old(arena)@.of(output),
                    lifted(old(arena)@, old(gradients)@),
                )->0;
                &&& lifted(final(arena)@, final(gradients)@) == stepped.0
                &&& handed_as(final(arena)@, handed@, stepped.1)
            },
            r is None ==> *final(gradients) == *old(gradients),
    {
        let ghost before = arena@;
        let ghost t = before.of(*self);
        let ghost g = before.of(output);
        let ghost gathered = lifted(before, gradients@);
        proof {
            lemma_node(before, *self);
            lemma_node(before, output);
            lemma_extends_keeps(before, before);
        }
        let arrived: Expr = if arena.shape(*self).len() == 0 && arena.shape(output).len() > 0 {
            mapped(arena, Operation::Sum, output)
        } else {
            output
        };
        let ghost a1 = arena@;
        proof {
            lemma_node(a1, arrived);
            lemma_node(a1, *self);
            assert(a1.of(arrived) == arriving(t, g));
        }
        if !same(arena.shape(arrived), arena.shape(*self)) {
            return None;
        }
        let operation = arena.operation(*self).copy();
        match operation {
            Operation::Variable { name, .. } => {
                let total: Expr = match gradients.get(name.as_str()) {
                    Some(so_far) => elementwise(arena, Operation::Add, so_far, arrived),
                    None => arrived,
                };
                proof {
                    lemma_grown_trans(before, a1, arena@);
                }
                gradients.insert(name, total);
                proof {
                    let a = arena@;
                    let stepped = step(t, g, gathered)->0;
                    assert(lifted(a, gradients@) =~= stepped.0);
                    assert(held_in(a, gradients@));
                }
                Some(Vec::new())
            },
            _ => {
                let r = self.contribute(arena, arrived);
                proof {
                    lemma_grown_trans(before, a1, arena@);
                    assert(lifted(arena@, gradients@) =~= gathered);
                }
                r
            },
        }
    }

    /// What happens at the root term when the gradient `output` arrives at it.
    pub fn accumulate_gradients(
        &self,
        arena: &mut Arena,
        output: Expr,
        gradients: &mut Gradients,
    ) -> (handed: Vec<Option<Expr>>)
        requires
            old(arena)@.wf(),
            old(arena)@.contains(*self),
            old(arena)@.contains(output),
            old(gradients).wf(),
            held_in(old(arena)@, old(gradients)@),
            step(
                old(arena)@.of(*self),
                old(arena)@.of(output),
                lifted(old(arena)@, old(gradients)@),
            ) is Some,
        ensures
            final(arena)@.grown(old(arena)@),
            final(gradients).wf(),
            held_in(final(arena)@, final(gradients)@),
            ({
                let stepped = step(
                    old(arena)@.of(*self),
                    old(arena)@.of(output),
                    lifted(old(arena)@, old(gradients)@),
                )->0;
                &&& lifted(final(arena)@, final(gradients)@) == stepped.0
                &&& handed_as(final(arena)@, handed@, stepped.1)
            }),
    {
        match self.try_accumulate_gradients(arena, output, gradients) {
            Some(handed) => handed,
            None => unreached(),
        }
    }

    /// The gradients of the expression with respect to each variable that occurs in it, by
    /// name, where every term accepts the gradient that arrives at it. The traversal keeps
    /// the terms that are still to be visited on a list of its own, so its depth is not
    /// bounded by that of the call stack. New terms are appended to the arena.
    pub fn try_gradients(&self, arena: &mut Arena) -> (r: Option<Gradients>)
        requires
            old(arena)@.wf(),
            old(arena)@.contains(*self),
        ensures
            final(arena)@.grown(old(arena)@),
            r is Some <==> gradients(old(arena)@.of(*self)) is Some,
            r matches Some(table) ==> {
                &&& table.wf()
                &&& held_in(final(arena)@, table@)
                &&& Some(lifted(final(arena)@, table@)) == gradients(old(arena)@.of(*self))
            },
    {
        let ghost before = arena@;
        let ghost t = before.of(*self);
        proof {
            lemma_node(before, *self);
        }
        let mut table = Gradients::new();
        let mut to_visit: Vec<(Expr, Expr)> = Vec::new();
        let shape = arena.shape(*self).clone();
        let ones = held(arena, Tensor::ones(shape));
        to_visit.push((*self, ones));
        let ghost mut pending: Seq<(Tree, Tree)> = seq![(t, seed(t))];
        let ghost mut gathered: Gathered = Map::empty();
        proof {
            assert(lifted(arena@, table@) =~= gathered);
            assert(pending.drop_last() =~= Seq::<(Tree, Tree)>::empty());
            assert(drain(pending.drop_last(), gathered) == Some(gathered));
            assert(drain(pending, gathered) == gradients(t)) by {
                match backprop(t, seed(t), gathered) {
                    Some(next) => {
                        assert(drain(Seq::<(Tree, Tree)>::empty(), next) == Some(next));
                    },
                    None => {},
                }
            }
        }
        while to_visit.len() > 0
            invariant
                before == old(arena)@,
                t == before.of(*self),
                arena@.grown(before),
                table.wf(),
                held_in(arena@, table@),
                lifted(arena@, table@) == gathered,
                pending_as(arena@, to_visit@, pending),
                drain(pending, gathered) == gradients(t),
            decreases total(pending),
        {
            let ghost a0 = arena@;
            let ghost rest = pending.drop_last();
            let ghost top = pending.last();
            let next = to_visit.pop().unwrap();
            let node: Expr = next.0;
            let grad: Expr = next.1;
            proof {
                assert(a0.of(node) == top.0 && a0.of(grad) == top.1);
                assert(pending_as(a0, to_visit@, rest));
            }
            match node.try_accumulate_gradients(arena, grad, &mut table) {
                None => {
                    proof {
                        lemma_grown_trans(before, a0, arena@);
                    }
                    return None;
                },
                Some(handed) => {
                    let ghost a1 = arena@;
                    let ghost stepped = step(top.0, top.1, gathered)->0;
                    proof {
                        lemma_grown_trans(before, a0, a1);
                        lemma_node(a0, node);
                        gathered = stepped.0;
                        assert(pending_as(a1, to_visit@, rest));
                    }
                    let inputs = arena.inputs(node);
                    let n: usize = handed.len();
                    if n != inputs.len() {
                        // a term hands something or nothing to each of its inputs
                        proof {
                            assert(stepped.1.len() == top.0.inputs.len()) by {
                                if top.0.operation is Variable {
                                } else {
                                    assert(stepped.1 == contributions(top.0, arriving(top.0, top.1)));
                                }
                            }
                            assert(false);
                        }
                        return None;
                    }
                    let mut i: usize = 0;
                    proof {
                        pending = rest;
                        assert(rest + pushes(top.0, stepped.1, 0) =~= rest);
                    }
                    while i < n
                        invariant
                            a1 == arena@,
                            a1.wf(),
                            a1.contains(node),
                            a1.of(node) == top.0,
                            n == handed.len(),
                            n == inputs.len(),
                            n == top.0.inputs.len(),
                            ids(inputs@) == a1.terms[node.id as int].inputs,
                            handed_as(a1, handed@, stepped.1),
                            i <= n,
                            pending == rest + pushes(top.0, stepped.1, i as int),
                            pending_as(a1, to_visit@, pending),
                        decreases n - i,
                    {
                        proof {
                            lemma_node(a1, node);
                            assert(ids(inputs@)[i as int] == inputs[i as int].id);
                        }
                        match handed[i] {
                            Some(c) => {
                                to_visit.push((inputs[i], c));
                                proof {
                                    let pair = (top.0.inputs[i as int], a1.of(c));
                                    assert(rest + pushes(top.0, stepped.1, i + 1) =~= pending.push(
                                        pair,
                                    ));
                                    pending = pending.push(pair);
                                }
                            },
                            None => {
                                proof {
                                    assert(pushes(top.0, stepped.1, i + 1) == pushes(
                                        top.0,
                                        stepped.1,
                                        i as int,
                                    ));
                                }
                            },
                        }
                        i += 1;
                    }
                    proof {
                        lemma_drain_pushes(rest, top.0, stepped.1, n as int, gathered);
                        lemma_total_pushes(top.0, stepped.1, n as int);
                        lemma_total_join(rest, pushes(top.0, stepped.1, n as int));
                        assert(rest.push(top) =~= rest + seq![top]);
                        lemma_total_push(rest, top);
                    }
                },
            }
        }
        proof {
            assert(pending =~= Seq::<(Tree, Tree)>::empty());
        }
        Some(table)
    }

    /// The gradients of the expression with respect to each variable that occurs in it, by
    /// name. New terms are appended to the arena.
    pub fn gradients(&self, arena: &mut Arena) -> (table: Gradients)
        requires
            old(arena)@.wf(),
            old(arena)@.contains(*self),
            gradients(old(arena)@.of(*self)) is Some,
        ensures
            final(arena)@.grown(old(arena)@),
            table.wf(),
            held_in(final(arena)@, table@),
            Some(lifted(final(arena)@, table@)) == gradients(old(arena)@.of(*self)),
    {
        match self.try_gradients(arena) {
            Some(table) => table,
            None => unreached(),
        }
    }

    /// The gradient of the expression with respect to the variable named `v`, in simplified
    /// form, where the traversal succeeds and what it gathered has a simplified form: the
    /// scalar zero where `v` does not influence the expression. New terms are appended to
    /// the arena.
    pub fn try_gradient<K: Fn(&Operation, &Vec<Tensor>) -> Tensor>(
        &self,
        arena: &mut Arena,
        v: &str,
        kernel: &K,
    ) -> (r: Option<Expr>)
        requires
            old(arena)@.wf(),
            old(arena)@.contains(*self),
            kernel_ok(*kernel),
        ensures
            final(arena)@.grown(old(arena)@),
            r is Some <==> gradient(old(arena)@.of(*self), v@, old(arena)@.cells, *kernel) is Some,
            r matches Some(e) ==> final(arena)@.contains(e) && Some(final(arena)@.of(e))
                == gradient(old(arena)@.of(*self), v@, old(arena)@.cells, *kernel),
    {
        let ghost before = arena@;
        match self.try_gradients(arena) {
            Some(table) => {
                let ghost a1 = arena@;
                let found: Expr = match table.get(v) {
                    Some(e) => e,
                    None => held(arena, Tensor::scalar(ZERO)),
                };
                let ghost a2 = arena@;
                proof {
                    lemma_grown_trans(before, a1, a2);
                }
                let r = found.try_propagate_constants(arena, kernel);
                proof {
                    lemma_extends_keeps(a2, arena@);
                    lemma_grown_trans(before, a2, arena@);
                }
                r
            },
            None => None,
        }
    }

    /// The gradient of the expression with respect to the variable named `v`, in simplified
    /// form: the scalar zero where `v` does not influence the expression. New terms are
    /// appended to the arena.
    pub fn gradient<K: Fn(&Operation, &Vec<Tensor>) -> Tensor>(
        &self,
        arena: &mut Arena,
        v: &str,
        kernel: &K,
    ) -> (e: Expr)
        requires
            old(arena)@.wf(),
            old(arena)@.contains(*self),
            kernel_ok(*kernel),
            gradient(old(arena)@.of(*self), v@, old(arena)@.cells, *kernel) is Some,
        ensures
            final(arena)@.grown(old(arena)@),
            final(arena)@.contains(e),
            Some(final(arena)@.of(e)) == gradient(
                old(arena)@.of(*self),
                v@,
                old(arena)@.cells,
                *kernel,
            ),
    {
        match self.try_gradient(arena, v, kernel) {
            Some(e) => e,
            None => unreached(),
        }
    }
}

} // verus!

//! Construction of expressions.

use vstd::prelude::*;
use crate::algebra::arena::{ids, Arena, ArenaView, Expr};
use crate::algebra::operation::{Operation, OperationView, Padding};
use crate::algebra::tree::{lemma_tree, lemma_tree_extends, Tree};
use crate::shape::{fits, lemma_size_reverse, size};
use crate::tensor::Tensor;

verus! {

/// The shape that a term carries is the shape of an array that can be held.
pub proof fn lemma_term_fits(a: ArenaView, id: int)
    requires
        a.wf(),
        0 <= id < a.terms.len(),
    ensures
        fits(a.terms[id].shape),
{
    assert(a.term_wf(id));
}

/// A scalar can be held.
pub proof fn lemma_scalar_fits()
    ensures
        fits(Seq::<usize>::empty()),
        size(Seq::<usize>::empty()) == 1,
{
}

impl Expr {
    /// Appends a term with the given operation and inputs and returns the handle of the
    /// expression rooted at it.
    pub fn new(arena: &mut Arena, operation: Operation, inputs: Vec<Expr>) -> (e: Expr)
        requires
            old(arena)@.wf(),
            old(arena)@.admits(operation@, ids(inputs@)),
        ensures
            final(arena)@.wf(),
            final(arena)@.extends(old(arena)@),
            final(arena)@.cells == old(arena)@.cells,
            final(arena)@.terms.len() == old(arena)@.terms.len() + 1,
            e.id == old(arena)@.terms.len(),
            final(arena)@.tree(e.id as int) == (Tree {
                operation: operation@,
                inputs: old(arena)@.trees(ids(inputs@)),
            }),
            final(arena)@.keeps(old(arena)@),
    {
        let e = arena.push(operation, inputs);
        proof {
            let before = old(arena)@;
            let after = arena@;
            crate::algebra::tree::lemma_extends_keeps(before, after);
            lemma_tree(after, e.id as int);
            assert forall|j: int| 0 <= j < ids(inputs@).len() implies #[trigger] after.trees(
                ids(inputs@),
            )[j] == before.trees(ids(inputs@))[j] by {
                lemma_tree_extends(before, after, ids(inputs@)[j] as int);
            }
            assert(after.trees(ids(inputs@)) =~= before.trees(ids(inputs@)));
        }
        e
    }

    /// The index of the root term: an identifier that no other expression of the arena has.
    pub fn id(&self) -> (r: usize)
        ensures
            r == self.id,
    {
        self.id
    }

    /// The shape of the value of the expression.
    pub fn shape(&self, arena: &Arena) -> (r: Vec<usize>)
        requires
            arena@.wf(),
            arena@.contains(*self),
        ensures
            r@ == arena@.tree(self.id as int).shape(),
            fits(r@),
    {
        proof {
            lemma_tree(arena@, self.id as int);
            lemma_term_fits(arena@, self.id as int);
        }
        arena.shape(*self).clone()
    }

    /// The number of axes of the value of the expression.
    pub fn ndim(&self, arena: &Arena) -> (r: usize)
        requires
            arena@.wf(),
            arena@.contains(*self),
        ensures
            r == arena@.tree(self.id as int).rank(),
    {
        proof {
            lemma_tree(arena@, self.id as int);
        }
        arena.shape(*self).len()
    }

    /// The expressions that the root term is applied to, in order.
    pub fn inputs(&self, arena: &Arena) -> (r: Vec<Expr>)
        requires
            arena@.wf(),
            arena@.contains(*self),
        ensures
            arena@.trees(ids(r@)) == arena@.tree(self.id as int).inputs,
            forall|j: int| 0 <= j < r.len() ==> (#[trigger] r[j]).id < self.id,
    {
        proof {
            lemma_tree(arena@, self.id as int);
            assert(arena@.term_wf(self.id as int));
        }
        let r = arena.inputs(*self).clone();
        proof {
            assert forall|j: int| 0 <= j < r.len() implies (#[trigger] r[j]).id < self.id by {
                assert(ids(r@)[j] == r[j].id);
            }
        }
        r
    }
}

/// An expression with one input.
pub(crate) fn unary(arena: &mut Arena, operation: Operation, a: Expr) -> (e: Expr)
    requires
        old(arena)@.wf(),
        old(arena)@.admits(operation@, seq![a.id]),
    ensures
        final(arena)@.wf(),
        final(arena)@.extends(old(arena)@),
        final(arena)@.cells == old(arena)@.cells,
        final(arena)@.terms.len() == old(arena)@.terms.len() + 1,
        e.id == old(arena)@.terms.len(),
        final(arena)@.tree(e.id as int) == Tree::unary(operation@, old(arena)@.tree(a.id as int)),
{
    let inputs = vec![a];
    proof {
        assert(ids(inputs@) =~= seq![a.id]);
        assert(old(arena)@.trees(seq![a.id]) =~= seq![old(arena)@.tree(a.id as int)]);
    }
    Expr::new(arena, operation, inputs)
}

/// An expression with two inputs.
pub(crate) fn binary(arena: &mut Arena, operation: Operation, a: Expr, b: Expr) -> (e: Expr)
    requires
        old(arena)@.wf(),
        old(arena)@.admits(operation@, seq![a.id, b.id]),
    ensures
        final(arena)@.wf(),
        final(arena)@.extends(old(arena)@),
        final(arena)@.cells == old(arena)@.cells,
        final(arena)@.terms.len() == old(arena)@.terms.len() + 1,
        e.id == old(arena)@.terms.len(),
        final(arena)@.tree(e.id as int) == Tree::binary(
            operation@,
            old(arena)@.tree(a.id as int),
            old(arena)@.tree(b.id as int),
        ),
{
    let inputs = vec![a, b];
    proof {
        assert(ids(inputs@) =~= seq![a.id, b.id]);
        assert(old(arena)@.trees(seq![a.id, b.id]) =~= seq![
            old(arena)@.tree(a.id as int),
            old(arena)@.tree(b.id as int),
        ]);
    }
    Expr::new(arena, operation, inputs)
}

/// Whether the arena admits a term with an operation that keeps the shape of its one input.
pub proof fn lemma_admits_same(a: ArenaView, operation: OperationView, x: Expr)
    requires
        a.wf(),
        a.contains(x),
        operation is Exp || operation is Ln || operation is Square || operation is Sqrt
            || operation is Softmax || operation is Sum || operation is Transpose,
    ensures
        a.admits(operation, seq![x.id]),
{
    lemma_term_fits(a, x.id as int);
    let shapes = a.input_shapes(seq![x.id]);
    assert(shapes[0] == a.terms[x.id as int].shape);
    lemma_size_reverse(shapes[0]);
    lemma_scalar_fits();
}

/// Whether the arena admits a term with an elementwise operation on two inputs.
pub proof fn lemma_admits_elementwise(a: ArenaView, operation: OperationView, x: Expr, y: Expr)
    requires
        a.wf(),
        a.contains(x),
        a.contains(y),
        operation is Add || operation is Sub || operation is Mul || operation is Div
            || operation is Compare || operation is BiasAdd,
    ensures
        a.admits(operation, seq![x.id, y.id]),
{
    lemma_term_fits(a, x.id as int);
    lemma_term_fits(a, y.id as int);
    let shapes = a.input_shapes(seq![x.id, y.id]);
    assert(shapes[0] == a.terms[x.id as int].shape);
    assert(shapes[1] == a.terms[y.id as int].shape);
}

/// Whether the arena admits a selection.
pub proof fn lemma_admits_ternary(a: ArenaView, c: Expr, x: Expr, y: Expr)
    requires
        a.wf(),
        a.contains(c),
        a.contains(x),
        a.contains(y),
    ensures
        a.admits(OperationView::Ternary, seq![c.id, x.id, y.id]),
{
    lemma_term_fits(a, c.id as int);
    lemma_term_fits(a, x.id as int);
    lemma_term_fits(a, y.id as int);
    let shapes = a.input_shapes(seq![c.id, x.id, y.id]);
    assert(shapes[0] == a.terms[c.id as int].shape);
    assert(shapes[1] == a.terms[x.id as int].shape);
    assert(shapes[2] == a.terms[y.id as int].shape);
}

/// A constant expression holding `value`.
pub fn expr(arena: &mut Arena, value: Tensor) -> (e: Expr)
    requires
        old(arena)@.wf(),
        value@.wf(),
    ensures
        final(arena)@.wf(),
        final(arena)@.extends(old(arena)@),
        final(arena)@.cells == old(arena)@.cells,
        final(arena)@.terms.len() == old(arena)@.terms.len() + 1,
        e.id == old(arena)@.terms.len(),
        final(arena)@.tree(e.id as int) == Tree::leaf(OperationView::Constant { value: value@ }),
{
    let inputs: Vec<Expr> = Vec::new();
    let operation = Operation::Constant { value };
    proof {
        assert(ids(inputs@) =~= Seq::<usize>::empty());
        assert(old(arena)@.input_shapes(ids(inputs@)) =~= Seq::<Seq<usize>>::empty());
        assert(old(arena)@.trees(ids(inputs@)) =~= Seq::<Tree>::empty());
    }
    Expr::new(arena, operation, inputs)
}

/// A variable named `name` that reads the cell with index `cell`.
pub fn v(arena: &mut Arena, name: &str, cell: usize) -> (e: Expr)
    requires
        old(arena)@.wf(),
        cell < old(arena)@.cells.len(),
    ensures
        final(arena)@.wf(),
        final(arena)@.extends(old(arena)@),
        final(arena)@.cells == old(arena)@.cells,
        final(arena)@.terms.len() == old(arena)@.terms.len() + 1,
        e.id == old(arena)@.terms.len(),
        final(arena)@.tree(e.id as int) == Tree::leaf(
            OperationView::Variable {
                name: name@,
                cell,
                shape: old(arena)@.cells[cell as int].shape,
            },
        ),
{
    let inputs: Vec<Expr> = Vec::new();
    let shape = arena.cell(cell).shape();
    let operation = Operation::Variable { name: name.to_owned(), cell, shape };
    proof {
        assert(old(arena)@.cells[cell as int].wf());
        assert(ids(inputs@) =~= Seq::<usize>::empty());
        assert(old(arena)@.input_shapes(ids(inputs@)) =~= Seq::<Seq<usize>>::empty());
        assert(old(arena)@.trees(ids(inputs@)) =~= Seq::<Tree>::empty());
    }
    Expr::new(arena, operation, inputs)
}

/// A placeholder of the given shape that has no value: evaluating an expression in which
/// it occurs does not return. `reason` says why.
pub fn unevaluable(arena: &mut Arena, shape: Vec<usize>, reason: &str) -> (e: Expr)
    requires
        old(arena)@.wf(),
        fits(shape@),
    ensures
        final(arena)@.wf(),
        final(arena)@.extends(old(arena)@),
        final(arena)@.cells == old(arena)@.cells,
        final(arena)@.terms.len() == old(arena)@.terms.len() + 1,
        e.id == old(arena)@.terms.len(),
        final(arena)@.tree(e.id as int) == Tree::leaf(
            OperationView::Unevaluable { reason: reason@, shape: shape@ },
        ),
{
    let inputs: Vec<Expr> = Vec::new();
    let operation = Operation::Unevaluable { reason: reason.to_owned(), shape };
    proof {
        assert(ids(inputs@) =~= Seq::<usize>::empty());
        assert(old(arena)@.input_shapes(ids(inputs@)) =~= Seq::<Seq<usize>>::empty());
        assert(old(arena)@.trees(ids(inputs@)) =~= Seq::<Tree>::empty());
    }
    Expr::new(arena, operation, inputs)
}

impl Expr {
    /// The elementwise sum of `self` and `rhs`. Where the shapes differ, one of the two is a
    /// scalar, which is added to every element of the other.
    pub fn add(self, arena: &mut Arena, rhs: Expr) -> (e: Expr)
        requires
            old(arena)@.wf(),
            old(arena)@.contains(self),
            old(arena)@.contains(rhs),
        ensures
            final(arena)@.wf(),
            final(arena)@.extends(old(arena)@),
            final(arena)@.cells == old(arena)@.cells,
            final(arena)@.terms.len() == old(arena)@.terms.len() + 1,
            e.id == old(arena)@.terms.len(),
            final(arena)@.of(e) == Tree::binary(
                OperationView::Add,
                old(arena)@.of(self),
                old(arena)@.of(rhs),
            ),
    {
        proof {
            lemma_admits_elementwise(arena@, OperationView::Add, self, rhs);
        }
        binary(arena, Operation::Add, self, rhs)
    }

    /// The elementwise difference of `self` and `rhs`.
    pub fn sub(self, arena: &mut Arena, rhs: Expr) -> (e: Expr)
        requires
            old(arena)@.wf(),
            old(arena)@.contains(self),
            old(arena)@.contains(rhs),
        ensures
            final(arena)@.wf(),
            final(arena)@.extends(old(arena)@),
            final(arena)@.cells == old(arena)@.cells,
            final(arena)@.terms.len() == old(arena)@.terms.len() + 1,
            e.id == old(arena)@.terms.len(),
            final(arena)@.of(e) == Tree::binary(
                OperationView::Sub,
                old(arena)@.of(self),
                old(arena)@.of(rhs),
            ),
    {
        proof {
            lemma_admits_elementwise(arena@, OperationView::Sub, self, rhs);
        }
        binary(arena, Operation::Sub, self, rhs)
    }

    /// The elementwise product of `self` and `rhs`.
    pub fn mul(self, arena: &mut Arena, rhs: Expr) -> (e: Expr)
        requires
            old(arena)@.wf(),
            old(arena)@.contains(self),
            old(arena)@.contains(rhs),
        ensures
            final(arena)@.wf(),
            final(arena)@.extends(old(arena)@),
            final(arena)@.cells == old(arena)@.cells,
            final(arena)@.terms.len() == old(arena)@.terms.len() + 1,
            e.id == old(arena)@.terms.len(),
            final(arena)@.of(e) == Tree::binary(
                OperationView::Mul,
                old(arena)@.of(self),
                old(arena)@.of(rhs),
            ),
    {
        proof {
            lemma_admits_elementwise(arena@, OperationView::Mul, self, rhs);
        }
        binary(arena, Operation::Mul, self, rhs)
    }

    /// The elementwise quotient of `self` and `rhs`.
    pub fn div(self, arena: &mut Arena, rhs: Expr) -> (e: Expr)
        requires
            old(arena)@.wf(),
            old(arena)@.contains(self),
            old(arena)@.contains(rhs),
        ensures
            final(arena)@.wf(),
            final(arena)@.extends(old(arena)@),
            final(arena)@.cells == old(arena)@.cells,
            final(arena)@.terms.len() == old(arena)@.terms.len() + 1,
            e.id == old(arena)@.terms.len(),
            final(arena)@.of(e) == Tree::binary(
                OperationView::Div,
                old(arena)@.of(self),
                old(arena)@.of(rhs),
            ),
    {
        proof {
            lemma_admits_elementwise(arena@, OperationView::Div, self, rhs);
        }
        binary(arena, Operation::Div, self, rhs)
    }

    /// The exponentials of the elements divided by the sum of all of them.
    pub fn softmax(&self, arena: &mut Arena) -> (e: Expr)
        requires
            old(arena)@.wf(),
            old(arena)@.contains(*self),
        ensures
            final(arena)@.wf(),
            final(arena)@.extends(old(arena)@),
            final(arena)@.cells == old(arena)@.cells,
            final(arena)@.terms.len() == old(arena)@.terms.len() + 1,
            e.id == old(arena)@.terms.len(),
            final(arena)@.of(e) == Tree::unary(OperationView::Softmax, old(arena)@.of(*self)),
    {
        proof {
            lemma_admits_same(arena@, OperationView::Softmax, *self);
        }
        unary(arena, Operation::Softmax, *self)
    }

    /// The elementwise square.
    pub fn square(&self, arena: &mut Arena) -> (e: Expr)
        requires
            old(arena)@.wf(),
            old(arena)@.contains(*self),
        ensures
            final(arena)@.wf(),
            final(arena)@.extends(old(arena)@),
            final(arena)@.cells == old(arena)@.cells,
            final(arena)@.terms.len() == old(arena)@.terms.len() + 1,
            e.id == old(arena)@.terms.len(),
            final(arena)@.of(e) == Tree::unary(OperationView::Square, old(arena)@.of(*self)),
    {
        proof {
            lemma_admits_same(arena@, OperationView::Square, *self);
        }
        unary(arena, Operation::Square, *self)
    }

    /// The elementwise square root.
    pub fn sqrt(&self, arena: &mut Arena) -> (e: Expr)
        requires
            old(arena)@.wf(),
            old(arena)@.contains(*self),
        ensures
            final(arena)@.wf(),
            final(arena)@.extends(old(arena)@),
            final(arena)@.cells == old(arena)@.cells,
            final(arena)@.terms.len() == old(arena)@.terms.len() + 1,
            e.id == old(arena)@.terms.len(),
            final(arena)@.of(e) == Tree::unary(OperationView::Sqrt, old(arena)@.of(*self)),
    {
        proof {
            lemma_admits_same(arena@, OperationView::Sqrt, *self);
        }
        unary(arena, Operation::Sqrt, *self)
    }

    /// The elementwise exponential.
    pub fn exp(&self, arena: &mut Arena) -> (e: Expr)
        requires
            old(arena)@.wf(),
            old(arena)@.contains(*self),
        ensures
            final(arena)@.wf(),
            final(arena)@.extends(old(arena)@),
            final(arena)@.cells == old(arena)@.cells,
            final(arena)@.terms.len() == old(arena)@.terms.len() + 1,
            e.id == old(arena)@.terms.len(),
            final(arena)@.of(e) == Tree::unary(OperationView::Exp, old(arena)@.of(*self)),
    {
        proof {
            lemma_admits_same(arena@, OperationView::Exp, *self);
        }
        unary(arena, Operation::Exp, *self)
    }

    /// The elementwise natural logarithm.
    pub fn ln(&self, arena: &mut Arena) -> (e: Expr)
        requires
            old(arena)@.wf(),
            old(arena)@.contains(*self),
        ensures
            final(arena)@.wf(),
            final(arena)@.extends(old(arena)@),
            final(arena)@.cells == old(arena)@.cells,
            final(arena)@.terms.len() == old(arena)@.terms.len() + 1,
            e.id == old(arena)@.terms.len(),
            final(arena)@.of(e) == Tree::unary(OperationView::Ln, old(arena)@.of(*self)),
    {
        proof {
            lemma_admits_same(arena@, OperationView::Ln, *self);
        }
        unary(arena, Operation::Ln, *self)
    }

    /// The sum of all elements, a scalar.
    pub fn sum(&self, arena: &mut Arena) -> (e: Expr)
        requires
            old(arena)@.wf(),
            old(arena)@.contains(*self),
        ensures
            final(arena)@.wf(),
            final(arena)@.extends(old(arena)@),
            final(arena)@.cells == old(arena)@.cells,
            final(arena)@.terms.len() == old(arena)@.terms.len() + 1,
            e.id == old(arena)@.terms.len(),
            final(arena)@.of(e) == Tree::unary(OperationView::Sum, old(arena)@.of(*self)),
    {
        proof {
            lemma_admits_same(arena@, OperationView::Sum, *self);
        }
        unary(arena, Operation::Sum, *self)
    }

    /// The same elements with the axes in opposite order.
    pub fn transpose(&self, arena: &mut Arena) -> (e: Expr)
        requires
            old(arena)@.wf(),
            old(arena)@.contains(*self),
        ensures
            final(arena)@.wf(),
            final(arena)@.extends(old(arena)@),
            final(arena)@.cells == old(arena)@.cells,
            final(arena)@.terms.len() == old(arena)@.terms.len() + 1,
            e.id == old(arena)@.terms.len(),
            final(arena)@.of(e) == Tree::unary(OperationView::Transpose, old(arena)@.of(*self)),
    {
        proof {
            lemma_admits_same(arena@, OperationView::Transpose, *self);
        }
        unary(arena, Operation::Transpose, *self)
    }

    /// The same elements under the shape `shape`.
    pub fn reshape(&self, arena: &mut Arena, shape: Vec<usize>) -> (e: Expr)
        requires
            old(arena)@.wf(),
            old(arena)@.contains(*self),
            fits(shape@),
        ensures
            final(arena)@.wf(),
            final(arena)@.extends(old(arena)@),
            final(arena)@.cells == old(arena)@.cells,
            final(arena)@.terms.len() == old(arena)@.terms.len() + 1,
            e.id == old(arena)@.terms.len(),
            final(arena)@.of(e) == Tree::unary(
                OperationView::Reshape { shape: shape@ },
                old(arena)@.of(*self),
            ),
    {
        unary(arena, Operation::Reshape { shape }, *self)
    }
}

/// The selection `condition ? when_true : when_false`. A scalar condition selects one of
/// the two operands whole; any other condition blends them element by element.
pub fn ternary(arena: &mut Arena, condition: Expr, when_true: Expr, when_false: Expr) -> (e: Expr)
    requires
        old(arena)@.wf(),
        old(arena)@.contains(condition),
        old(arena)@.contains(when_true),
        old(arena)@.contains(when_false),
    ensures
        final(arena)@.wf(),
        final(arena)@.extends(old(arena)@),
        final(arena)@.cells == old(arena)@.cells,
        final(arena)@.terms.len() == old(arena)@.terms.len() + 1,
        e.id == old(arena)@.terms.len(),
        final(arena)@.of(e) == Tree::ternary(
            OperationView::Ternary,
            old(arena)@.of(condition),
            old(arena)@.of(when_true),
            old(arena)@.of(when_false),
        ),
{
    let inputs = vec![condition, when_true, when_false];
    proof {
        lemma_admits_ternary(arena@, condition, when_true, when_false);
        assert(ids(inputs@) =~= seq![condition.id, when_true.id, when_false.id]);
        assert(old(arena)@.trees(seq![condition.id, when_true.id, when_false.id]) =~= seq![
            old(arena)@.of(condition),
            old(arena)@.of(when_true),
            old(arena)@.of(when_false),
        ]);
    }
    Expr::new(arena, Operation::Ternary, inputs)
}

/// The convolution of `input`, of shape `(height, width, channels)`, with `kernel`, of
/// shape `(kernel height, kernel width, channels, filters)`.
pub fn conv2d(arena: &mut Arena, input: Expr, kernel: Expr, stride: usize, padding: Padding) -> (e:
    Expr)
    requires
        old(arena)@.wf(),
        old(arena)@.admits(OperationView::Conv2D { stride, padding }, seq![input.id, kernel.id]),
    ensures
        final(arena)@.wf(),
        final(arena)@.extends(old(arena)@),
        final(arena)@.cells == old(arena)@.cells,
        final(arena)@.terms.len() == old(arena)@.terms.len() + 1,
        e.id == old(arena)@.terms.len(),
        final(arena)@.of(e) == Tree::binary(
            OperationView::Conv2D { stride, padding },
            old(arena)@.of(input),
            old(arena)@.of(kernel),
        ),
{
    binary(arena, Operation::Conv2D { stride, padding }, input, kernel)
}

/// The matrix product of the matrices `a` and `b`.
pub fn matmul(arena: &mut Arena, a: Expr, b: Expr) -> (e: Expr)
    requires
        old(arena)@.wf(),
        old(arena)@.admits(OperationView::MatMul, seq![a.id, b.id]),
    ensures
        final(arena)@.wf(),
        final(arena)@.extends(old(arena)@),
        final(arena)@.cells == old(arena)@.cells,
        final(arena)@.terms.len() == old(arena)@.terms.len() + 1,
        e.id == old(arena)@.terms.len(),
        final(arena)@.of(e) == Tree::binary(
            OperationView::MatMul,
            old(arena)@.of(a),
            old(arena)@.of(b),
        ),
{
    binary(arena, Operation::MatMul, a, b)
}

/// The product of the matrix `a` and the vector `b`.
pub fn matvecmul(arena: &mut Arena, a: Expr, b: Expr) -> (e: Expr)
    requires
        old(arena)@.wf(),
        old(arena)@.admits(OperationView::MatVecMul, seq![a.id, b.id]),
    ensures
        final(arena)@.wf(),
        final(arena)@.extends(old(arena)@),
        final(arena)@.cells == old(arena)@.cells,
        final(arena)@.terms.len() == old(arena)@.terms.len() + 1,
        e.id == old(arena)@.terms.len(),
        final(arena)@.of(e) == Tree::binary(
            OperationView::MatVecMul,
            old(arena)@.of(a),
            old(arena)@.of(b),
        ),
{
    binary(arena, Operation::MatVecMul, a, b)
}

/// The sum of `value` and the vector `bias`, which is repeated along every axis of `value`
/// but the last.
pub fn bias_add(arena: &mut Arena, value: Expr, bias: Expr) -> (e: Expr)
    requires
        old(arena)@.wf(),
        old(arena)@.contains(value),
        old(arena)@.contains(bias),
    ensures
        final(arena)@.wf(),
        final(arena)@.extends(old(arena)@),
        final(arena)@.cells == old(arena)@.cells,
        final(arena)@.terms.len() == old(arena)@.terms.len() + 1,
        e.id == old(arena)@.terms.len(),
        final(arena)@.of(e) == Tree::binary(
            OperationView::BiasAdd,
            old(arena)@.of(value),
            old(arena)@.of(bias),
        ),
{
    proof {
        lemma_admits_elementwise(arena@, OperationView::BiasAdd, value, bias);
    }
    binary(arena, Operation::BiasAdd, value, bias)
}

/// `a` repeated along the axes that it lacks or that have length one, up to `shape`.
pub fn broadcast_to(arena: &mut Arena, a: Expr, shape: Vec<usize>) -> (e: Expr)
    requires
        old(arena)@.wf(),
        old(arena)@.contains(a),
        fits(shape@),
    ensures
        final(arena)@.wf(),
        final(arena)@.extends(old(arena)@),
        final(arena)@.cells == old(arena)@.cells,
        final(arena)@.terms.len() == old(arena)@.terms.len() + 1,
        e.id == old(arena)@.terms.len(),
        final(arena)@.of(e) == Tree::unary(
            OperationView::BroadcastTo { shape: shape@ },
            old(arena)@.of(a),
        ),
{
    unary(arena, Operation::BroadcastTo { shape }, a)
}

/// The sums of `a` over the listed axes; each of them keeps length one.
pub fn reduce_sum(arena: &mut Arena, a: Expr, axes: Vec<usize>) -> (e: Expr)
    requires
        old(arena)@.wf(),
        old(arena)@.admits(OperationView::ReduceSum { axes: axes@ }, seq![a.id]),
    ensures
        final(arena)@.wf(),
        final(arena)@.extends(old(arena)@),
        final(arena)@.cells == old(arena)@.cells,
        final(arena)@.terms.len() == old(arena)@.terms.len() + 1,
        e.id == old(arena)@.terms.len(),
        final(arena)@.of(e) == Tree::unary(
            OperationView::ReduceSum { axes: axes@ },
            old(arena)@.of(a),
        ),
{
    unary(arena, Operation::ReduceSum { axes }, a)
}

/// The exponentials of the elements of `a` divided by the sum of all of them.
pub fn softmax(arena: &mut Arena, a: Expr) -> (e: Expr)
    requires
        old(arena)@.wf(),
        old(arena)@.contains(a),
    ensures
        final(arena)@.wf(),
        final(arena)@.extends(old(arena)@),
        final(arena)@.cells == old(arena)@.cells,
        final(arena)@.terms.len() == old(arena)@.terms.len() + 1,
        e.id == old(arena)@.terms.len(),
        final(arena)@.of(e) == Tree::unary(OperationView::Softmax, old(arena)@.of(a)),
{
    a.softmax(arena)
}

/// An expression made by an elementwise operation on two inputs.
pub(crate) fn elementwise(arena: &mut Arena, operation: Operation, a: Expr, b: Expr) -> (e: Expr)
    requires
        old(arena)@.wf(),
        old(arena)@.contains(a),
        old(arena)@.contains(b),
        operation@ is Add || operation@ is Sub || operation@ is Mul || operation@ is Div,
    ensures
        final(arena)@.wf(),
        final(arena)@.extends(old(arena)@),
        final(arena)@.keeps(old(arena)@),
        final(arena)@.cells == old(arena)@.cells,
        final(arena)@.contains(e),
        final(arena)@.of(e) == Tree::binary(operation@, old(arena)@.of(a), old(arena)@.of(b)),
{
    proof {
        lemma_admits_elementwise(arena@, operation@, a, b);
    }
    let e = binary(arena, operation, a, b);
    proof {
        crate::algebra::tree::lemma_extends_keeps(old(arena)@, arena@);
    }
    e
}

/// An expression made by an operation on one input that every input admits.
pub(crate) fn mapped(arena: &mut Arena, operation: Operation, a: Expr) -> (e: Expr)
    requires
        old(arena)@.wf(),
        old(arena)@.contains(a),
        operation@ is Exp || operation@ is Ln || operation@ is Square || operation@ is Sqrt
            || operation@ is Softmax || operation@ is Sum || operation@ is Transpose,
    ensures
        final(arena)@.wf(),
        final(arena)@.extends(old(arena)@),
        final(arena)@.keeps(old(arena)@),
        final(arena)@.cells == old(arena)@.cells,
        final(arena)@.contains(e),
        final(arena)@.of(e) == Tree::unary(operation@, old(arena)@.of(a)),
{
    proof {
        lemma_admits_same(arena@, operation@, a);
    }
    let e = unary(arena, operation, a);
    proof {
        crate::algebra::tree::lemma_extends_keeps(old(arena)@, arena@);
    }
    e
}

/// The constant expression holding `value`.
pub(crate) fn held(arena: &mut Arena, value: Tensor) -> (e: Expr)
    requires
        old(arena)@.wf(),
        value@.wf(),
    ensures
        final(arena)@.wf(),
        final(arena)@.extends(old(arena)@),
        final(arena)@.keeps(old(arena)@),
        final(arena)@.cells == old(arena)@.cells,
        final(arena)@.contains(e),
        final(arena)@.of(e) == Tree::leaf(OperationView::Constant { value: value@ }),
{
    let e = expr(arena, value);
    proof {
        crate::algebra::tree::lemma_extends_keeps(old(arena)@, arena@);
    }
    e
}

/// An expression made by `operation` on the given inputs, where inference gives it a shape.
pub(crate) fn try_node(arena: &mut Arena, operation: Operation, inputs: Vec<Expr>) -> (r: Option<
    Expr,
>)
    requires
        old(arena)@.wf(),
        forall|j: int| 0 <= j < inputs.len() ==> old(arena)@.contains(#[trigger] inputs[j]),
        !(operation@ is Variable),
    ensures
        final(arena)@.wf(),
        final(arena)@.extends(old(arena)@),
        final(arena)@.keeps(old(arena)@),
        final(arena)@.cells == old(arena)@.cells,
        r is Some <==> (Tree {
            operation: operation@,
            inputs: old(arena)@.trees(ids(inputs@)),
        }).wf(),
        r matches Some(e) ==> final(arena)@.contains(e) && final(arena)@.of(e) == (Tree {
            operation: operation@,
            inputs: old(arena)@.trees(ids(inputs@)),
        }),
{
    let ghost before = arena@;
    let ghost built = Tree { operation: operation@, inputs: before.trees(ids(inputs@)) };
    proof {
        assert forall|j: int| 0 <= j < ids(inputs@).len() implies ids(inputs@)[j]
            < before.terms.len() by {
            assert(before.contains(inputs[j]));
        }
        assert(built.input_shapes() =~= before.input_shapes(ids(inputs@))) by {
            assert forall|j: int| 0 <= j < inputs.len() implies built.input_shapes()[j]
                == before.input_shapes(ids(inputs@))[j] by {
                lemma_tree(before, ids(inputs@)[j] as int);
            }
        }
        assert forall|j: int| 0 <= j < built.inputs.len() implies (#[trigger] built.inputs[j]).wf() by {
            lemma_tree(before, ids(inputs@)[j] as int);
        }
    }
    let r = arena.try_push(operation, inputs);
    proof {
        crate::algebra::tree::lemma_extends_keeps(before, arena@);
        if r is Some {
            let e = r->0;
            lemma_tree(arena@, e.id as int);
            assert forall|j: int| 0 <= j < ids(inputs@).len() implies #[trigger] arena@.trees(
                ids(inputs@),
            )[j] == before.trees(ids(inputs@))[j] by {
                lemma_tree_extends(before, arena@, ids(inputs@)[j] as int);
            }
            assert(arena@.trees(ids(inputs@)) =~= before.trees(ids(inputs@)));
        }
    }
    r
}

/// An expression made by `operation` on one input, where inference gives it a shape.
pub(crate) fn try_unary(arena: &mut Arena, operation: Operation, a: Expr) -> (r: Option<Expr>)
    requires
        old(arena)@.wf(),
        old(arena)@.contains(a),
        !(operation@ is Variable),
    ensures
        final(arena)@.wf(),
        final(arena)@.extends(old(arena)@),
        final(arena)@.keeps(old(arena)@),
        final(arena)@.cells == old(arena)@.cells,
        r is Some <==> Tree::unary(operation@, old(arena)@.of(a)).wf(),
        r matches Some(e) ==> final(arena)@.contains(e) && final(arena)@.of(e) == Tree::unary(
            operation@,
            old(arena)@.of(a),
        ),
{
    let inputs = vec![a];
    proof {
        assert(ids(inputs@) =~= seq![a.id]);
        assert(old(arena)@.trees(seq![a.id]) =~= seq![old(arena)@.of(a)]);
    }
    try_node(arena, operation, inputs)
}

/// An expression made by `operation` on two inputs, where inference gives it a shape.
pub(crate) fn try_binary(arena: &mut Arena, operation: Operation, a: Expr, b: Expr) -> (r: Option<
    Expr,
>)
    requires
        old(arena)@.wf(),
        old(arena)@.contains(a),
        old(arena)@.contains(b),
        !(operation@ is Variable),
    ensures
        final(arena)@.wf(),
        final(arena)@.extends(old(arena)@),
        final(arena)@.keeps(old(arena)@),
        final(arena)@.cells == old(arena)@.cells,
        r is Some <==> Tree::binary(operation@, old(arena)@.of(a), old(arena)@.of(b)).wf(),
        r matches Some(e) ==> final(arena)@.contains(e) && final(arena)@.of(e) == Tree::binary(
            operation@,
            old(arena)@.of(a),
            old(arena)@.of(b),
        ),
{
    let inputs = vec![a, b];
    proof {
        assert(ids(inputs@) =~= seq![a.id, b.id]);
        assert(old(arena)@.trees(seq![a.id, b.id]) =~= seq![
            old(arena)@.of(a),
            old(arena)@.of(b),
        ]);
    }
    try_node(arena, operation, inputs)
}

} // verus!

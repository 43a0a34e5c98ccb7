//! Expressions as trees: the mathematical reading of a handle, free of indices, over which
//! the meaning of every function of the algebra is stated.

use vstd::prelude::*;
use crate::algebra::arena::{ArenaView, Expr};
use crate::algebra::operation::{infer, OperationView};

verus! {

/// An expression: an operation applied to expressions.
pub struct Tree {
    pub operation: OperationView,
    pub inputs: Seq<Tree>,
}

impl Tree {
    /// A tree without inputs.
    pub open spec fn leaf(operation: OperationView) -> Tree {
        Tree { operation, inputs: Seq::empty() }
    }

    /// A tree with one input.
    pub open spec fn unary(operation: OperationView, a: Tree) -> Tree {
        Tree { operation, inputs: seq![a] }
    }

    /// A tree with two inputs.
    pub open spec fn binary(operation: OperationView, a: Tree, b: Tree) -> Tree {
        Tree { operation, inputs: seq![a, b] }
    }

    /// A tree with three inputs.
    pub open spec fn ternary(operation: OperationView, a: Tree, b: Tree, c: Tree) -> Tree {
        Tree { operation, inputs: seq![a, b, c] }
    }

    /// The shapes of the inputs, in order.
    pub open spec fn input_shapes(self) -> Seq<Seq<usize>>
        decreases self, 0nat,
    {
        Seq::new(
            self.inputs.len(),
            |j: int|
                if 0 <= j < self.inputs.len() {
                    self.inputs[j].shape()
                } else {
                    Seq::empty()
                },
        )
    }

    /// The shape of the value of the expression, by shape inference from the leaves up.
    pub open spec fn shape(self) -> Seq<usize>
        decreases self, 1nat,
    {
        match infer(self.operation, self.input_shapes()) {
            Some(shape) => shape,
            None => Seq::empty(),
        }
    }

    /// Shape inference succeeds at every node.
    pub open spec fn wf(self) -> bool
        decreases self, 1nat,
    {
        &&& infer(self.operation, self.input_shapes()) is Some
        &&& forall|j: int| 0 <= j < self.inputs.len() ==> (#[trigger] self.inputs[j]).wf()
    }

    /// The rank of the value of the expression.
    pub open spec fn rank(self) -> nat {
        self.shape().len()
    }

    /// No placeholder without a value occurs in the expression.
    pub open spec fn evaluable(self) -> bool
        decreases self,
    {
        &&& !(self.operation is Unevaluable)
        &&& forall|j: int| 0 <= j < self.inputs.len() ==> (#[trigger] self.inputs[j]).evaluable()
    }

    /// Every variable of the expression reads a cell that exists and holds a well-formed
    /// array of the variable's shape.
    pub open spec fn bound(self, cells: Seq<crate::tensor::TensorView>) -> bool
        decreases self,
    {
        &&& self.operation matches OperationView::Variable { cell, shape, .. } ==> cell
            < cells.len() && cells[cell as int].wf() && cells[cell as int].shape == shape
        &&& forall|j: int| 0 <= j < self.inputs.len() ==> (#[trigger] self.inputs[j]).bound(cells)
    }

    /// No variable occurs in the expression.
    pub open spec fn variable_free(self) -> bool
        decreases self,
    {
        &&& !(self.operation is Variable)
        &&& forall|j: int|
            0 <= j < self.inputs.len() ==> (#[trigger] self.inputs[j]).variable_free()
    }

    /// The number of nodes of the tree, a shared sub-expression counted once for each
    /// place where it occurs.
    pub open spec fn count(self) -> nat
        decreases self, 1nat,
    {
        1 + Tree::count_all(self.inputs)
    }

    /// The number of nodes of a list of trees.
    pub open spec fn count_all(trees: Seq<Tree>) -> nat
        decreases trees, 0nat,
    {
        if trees.len() == 0 {
            0
        } else {
            Tree::count_all(trees.drop_last()) + trees.last().count()
        }
    }
}

impl ArenaView {
    /// The expression rooted at the term with index `id`.
    pub open spec fn tree(self, id: int) -> Tree
        decreases id,
    {
        if 0 <= id < self.terms.len() {
            Tree {
                operation: self.terms[id].operation,
                inputs: Seq::new(
                    self.terms[id].inputs.len(),
                    |j: int|
                        {
                            let c = self.terms[id].inputs[j];
                            if 0 <= j < self.terms[id].inputs.len() && c < id {
                                self.tree(c as int)
                            } else {
                                arbitrary()
                            }
                        },
                ),
            }
        } else {
            arbitrary()
        }
    }

    /// The expression that the handle `e` stands for.
    pub open spec fn of(self, e: Expr) -> Tree {
        self.tree(e.id as int)
    }

    /// Whether every handle of `before` is a handle of `self` and stands for the same
    /// expression there.
    pub open spec fn keeps(self, before: ArenaView) -> bool {
        forall|x: Expr|
            before.contains(x) ==> self.contains(x) && #[trigger] self.of(x) == before.of(x)
    }

    /// Whether `self` came from `before` by appending terms: it is well formed, holds the
    /// terms of `before` where they were and the same cells, and every handle of `before`
    /// stands for the same expression in it.
    pub open spec fn grown(self, before: ArenaView) -> bool {
        &&& self.wf()
        &&& self.extends(before)
        &&& self.keeps(before)
        &&& self.cells == before.cells
    }

    /// The trees of the terms with the given indices.
    pub open spec fn trees(self, inputs: Seq<usize>) -> Seq<Tree> {
        Seq::new(inputs.len(), |j: int| self.tree(inputs[j] as int))
    }
}

/// In a well-formed arena the tree of a term has the term's operation, its inputs are the
/// trees of the term's inputs, and inference gives it the shape that the term carries.
pub proof fn lemma_tree(a: ArenaView, id: int)
    requires
        a.wf(),
        0 <= id < a.terms.len(),
    ensures
        a.tree(id).operation == a.terms[id].operation,
        a.tree(id).inputs == a.trees(a.terms[id].inputs),
        a.tree(id).input_shapes() == a.input_shapes(a.terms[id].inputs),
        a.tree(id).shape() == a.terms[id].shape,
        a.tree(id).wf(),
    decreases id,
{
    let t = a.terms[id];
    assert(a.term_wf(id));
    assert(a.tree(id).inputs =~= a.trees(t.inputs));
    assert forall|j: int| 0 <= j < t.inputs.len() implies a.tree(id).inputs[j].shape()
        == a.terms[t.inputs[j] as int].shape && (#[trigger] a.tree(id).inputs[j]).wf() by {
        lemma_tree(a, t.inputs[j] as int);
    }
    assert(a.tree(id).input_shapes() =~= a.input_shapes(t.inputs));
}

/// What a well-formed arena says of the expression behind a handle: the root has the
/// term's operation and as many inputs as the operation takes, each input is the expression
/// behind an earlier term, and inference gives the expression the shape that the term
/// carries.
pub proof fn lemma_node(a: ArenaView, e: Expr)
    requires
        a.wf(),
        a.contains(e),
    ensures
        a.of(e).operation == a.terms[e.id as int].operation,
        a.of(e).inputs.len() == a.terms[e.id as int].inputs.len(),
        a.of(e).inputs.len() == a.of(e).operation.arity(),
        a.of(e).inputs.len() <= 3,
        forall|j: int|
            0 <= j < a.of(e).inputs.len() ==> a.terms[e.id as int].inputs[j] < e.id
                && #[trigger] a.of(e).inputs[j] == a.tree(a.terms[e.id as int].inputs[j] as int),
        a.of(e).shape() == a.terms[e.id as int].shape,
        a.of(e).input_shapes() == a.input_shapes(a.terms[e.id as int].inputs),
        a.of(e).wf(),
        crate::shape::fits(a.of(e).shape()),
{
    lemma_tree(a, e.id as int);
    assert(a.term_wf(e.id as int));
}

/// In a well-formed arena every variable of an expression is bound.
pub proof fn lemma_bound(a: ArenaView, e: Expr)
    requires
        a.wf(),
        a.contains(e),
    ensures
        a.of(e).bound(a.cells),
    decreases e.id,
{
    lemma_node(a, e);
    assert(a.term_wf(e.id as int));
    assert forall|j: int| 0 <= j < a.of(e).inputs.len() implies (#[trigger] a.of(e).inputs[j]).bound(
        a.cells,
    ) by {
        lemma_bound(a, Expr { id: a.terms[e.id as int].inputs[j] });
    }
}

/// An expression without variables is bound whatever the cells hold.
pub proof fn lemma_variable_free_bound(t: Tree, cells: Seq<crate::tensor::TensorView>)
    requires
        t.variable_free(),
    ensures
        t.bound(cells),
    decreases t,
{
    assert forall|j: int| 0 <= j < t.inputs.len() implies (#[trigger] t.inputs[j]).bound(cells) by {
        lemma_variable_free_bound(t.inputs[j], cells);
    }
}

/// Appending terms to an arena changes no tree of an earlier term.
pub proof fn lemma_tree_extends(before: ArenaView, after: ArenaView, id: int)
    requires
        after.extends(before),
        0 <= id < before.terms.len(),
    ensures
        after.tree(id) == before.tree(id),
    decreases id,
{
    let t = before.terms[id];
    assert(after.terms[id] == t);
    assert forall|j: int| 0 <= j < t.inputs.len() implies #[trigger] after.tree(id).inputs[j]
        == before.tree(id).inputs[j] by {
        let c = t.inputs[j];
        if c < id {
            lemma_tree_extends(before, after, c as int);
        }
    }
    assert(after.tree(id).inputs =~= before.tree(id).inputs);
}

/// Appending terms to an arena changes no expression that a handle stood for.
pub proof fn lemma_of_extends(before: ArenaView, after: ArenaView, e: Expr)
    requires
        after.extends(before),
        before.contains(e),
    ensures
        after.of(e) == before.of(e),
        after.contains(e),
{
    lemma_tree_extends(before, after, e.id as int);
}

/// An arena that extends another keeps its handles.
pub proof fn lemma_extends_keeps(before: ArenaView, after: ArenaView)
    requires
        after.extends(before),
    ensures
        after.keeps(before),
{
    assert forall|x: Expr| before.contains(x) implies after.contains(x) && #[trigger] after.of(x)
        == before.of(x) by {
        lemma_of_extends(before, after, x);
    }
}

/// Growth of arenas is transitive.
pub proof fn lemma_grown_trans(a: ArenaView, b: ArenaView, c: ArenaView)
    requires
        b.grown(a),
        c.grown(b),
    ensures
        c.grown(a),
{
    lemma_extends_keeps(a, c);
}

/// Extension of arenas is transitive.
pub proof fn lemma_extends_trans(a: ArenaView, b: ArenaView, c: ArenaView)
    requires
        b.extends(a),
        c.extends(b),
    ensures
        c.extends(a),
{
}

/// The sum of a scalar and an array has the shape of the array, on whichever side the
/// scalar stands.
pub proof fn lemma_add_scalar_shape(c: Tree, x: Tree)
    requires
        c.wf(),
        x.wf(),
        c.rank() == 0,
    ensures
        Tree::binary(OperationView::Add, c, x).shape() == x.shape(),
        Tree::binary(OperationView::Add, x, c).shape() == x.shape(),
        Tree::binary(OperationView::Add, c, x).wf(),
        Tree::binary(OperationView::Add, x, c).wf(),
{
    let left = Tree::binary(OperationView::Add, c, x);
    let right = Tree::binary(OperationView::Add, x, c);
    assert(left.input_shapes() =~= seq![c.shape(), x.shape()]);
    assert(right.input_shapes() =~= seq![x.shape(), c.shape()]);
    assert(c.shape() =~= Seq::<usize>::empty());
    assert(crate::shape::fits(x.shape()));
    if x.shape().len() == 0 {
        assert(x.shape() =~= c.shape());
    }
    assert forall|j: int| 0 <= j < left.inputs.len() implies (#[trigger] left.inputs[j]).wf() by {
    }
    assert forall|j: int| 0 <= j < right.inputs.len() implies (#[trigger] right.inputs[j]).wf() by {
    }
}

} // verus!

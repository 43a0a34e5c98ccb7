//! The arena that owns the terms of all expressions and the cells of all variables.

use vstd::prelude::*;
use crate::algebra::operation::{infer, Operation, OperationView};
use crate::algebra::variable::VariableValue;
use crate::tensor::{Tensor, TensorView};

verus! {

/// Handle of an expression: the index of its root term in the arena that made it. A term
/// never changes, so the handle can be copied freely and stands for the same expression as
/// long as the arena lives.
#[derive(Clone, Copy, Debug, PartialEq, Eq, Structural)]
pub struct Expr {
    pub id: usize,
}

/// One node of an expression: an operation, the expressions it is applied to, and the
/// shape of its result.
pub struct Term {
    operation: Operation,
    inputs: Vec<Expr>,
    shape: Vec<usize>,
}

/// A term as mathematical values; inputs are given by their indices.
pub struct TermView {
    pub operation: OperationView,
    pub inputs: Seq<usize>,
    pub shape: Seq<usize>,
}

impl View for Term {
    type V = TermView;

    closed spec fn view(&self) -> TermView {
        TermView {
            operation: self.operation@,
            inputs: Seq::new(self.inputs.len() as nat, |j: int| self.inputs[j].id),
            shape: self.shape@,
        }
    }
}

/// The indices of a list of handles.
pub open spec fn ids(inputs: Seq<Expr>) -> Seq<usize> {
    Seq::new(inputs.len(), |j: int| inputs[j].id)
}

/// Owner of terms and cells. Terms are only ever appended, and each refers to earlier
/// terms only, so the terms reachable from a handle form a directed acyclic graph.
pub struct Arena {
    terms: Vec<Term>,
    cells: Vec<VariableValue>,
}

/// An arena as mathematical values.
pub struct ArenaView {
    pub terms: Seq<TermView>,
    pub cells: Seq<TensorView>,
}

impl ArenaView {
    /// The shapes of the terms with the given indices.
    pub open spec fn input_shapes(self, inputs: Seq<usize>) -> Seq<Seq<usize>> {
        Seq::new(inputs.len(), |j: int| self.terms[inputs[j] as int].shape)
    }

    /// Whether a variable's cell exists and holds an array of the variable's shape.
    pub open spec fn bound(self, operation: OperationView) -> bool {
        operation matches OperationView::Variable { cell, shape, .. } ==> cell < self.cells.len()
            && self.cells[cell as int].shape == shape
    }

    /// Whether a term with this operation and these inputs can be appended: the inputs
    /// exist, shape inference gives the term a shape, and a variable is bound to a cell
    /// of its shape.
    pub open spec fn admits(self, operation: OperationView, inputs: Seq<usize>) -> bool {
        &&& forall|j: int| 0 <= j < inputs.len() ==> inputs[j] < self.terms.len()
        &&& infer(operation, self.input_shapes(inputs)) is Some
        &&& self.bound(operation)
    }

    /// The term at index `i` refers to earlier terms only and carries the shape that
    /// inference gives it.
    pub open spec fn term_wf(self, i: int) -> bool {
        let t = self.terms[i];
        &&& forall|j: int| 0 <= j < t.inputs.len() ==> t.inputs[j] < i
        &&& infer(t.operation, self.input_shapes(t.inputs)) == Some(t.shape)
        &&& self.bound(t.operation)
    }

    /// The invariant of an arena.
    pub open spec fn wf(self) -> bool {
        &&& forall|i: int| 0 <= i < self.terms.len() ==> self.term_wf(i)
        &&& forall|c: int| 0 <= c < self.cells.len() ==> (#[trigger] self.cells[c]).wf()
    }

    /// Whether `self` holds every term of `before` at the same index, and the same cells
    /// followed by any number of new ones.
    pub open spec fn extends(self, before: ArenaView) -> bool {
        &&& before.terms.len() <= self.terms.len()
        &&& forall|i: int| 0 <= i < before.terms.len() ==> self.terms[i] == before.terms[i]
        &&& before.cells.len() <= self.cells.len()
        &&& forall|c: int| 0 <= c < before.cells.len() ==> self.cells[c] == before.cells[c]
    }

    /// Whether `e` is a handle of this arena.
    pub open spec fn contains(self, e: Expr) -> bool {
        e.id < self.terms.len()
    }
}

impl View for Arena {
    type V = ArenaView;

    closed spec fn view(&self) -> ArenaView {
        ArenaView {
            terms: Seq::new(self.terms.len() as nat, |i: int| self.terms[i]@),
            cells: Seq::new(self.cells.len() as nat, |c: int| self.cells[c]@),
        }
    }
}

impl Arena {
    /// An arena without terms or cells.
    pub fn new() -> (r: Arena)
        ensures
            r@.wf(),
            r@.terms.len() == 0,
            r@.cells.len() == 0,
    {
        Arena { terms: Vec::new(), cells: Vec::new() }
    }

    /// The number of terms.
    pub fn len(&self) -> (r: usize)
        ensures
            r == self@.terms.len(),
    {
        self.terms.len()
    }

    /// Whether `e` is a handle of this arena.
    pub fn contains(&self, e: Expr) -> (r: bool)
        ensures
            r == self@.contains(e),
    {
        e.id < self.terms.len()
    }

    /// The operation of the root term of `e`.
    pub fn operation(&self, e: Expr) -> (r: &Operation)
        requires
            self@.contains(e),
        ensures
            r@ == self@.terms[e.id as int].operation,
    {
        &self.terms[e.id].operation
    }

    /// The expressions that the root term of `e` is applied to, in order.
    pub fn inputs(&self, e: Expr) -> (r: &Vec<Expr>)
        requires
            self@.contains(e),
        ensures
            ids(r@) == self@.terms[e.id as int].inputs,
    {
        let r = &self.terms[e.id].inputs;
        assert(ids(r@) =~= self@.terms[e.id as int].inputs);
        r
    }

    /// The shape of the value of `e`.
    pub fn shape(&self, e: Expr) -> (r: &Vec<usize>)
        requires
            self@.contains(e),
        ensures
            r@ == self@.terms[e.id as int].shape,
    {
        &self.terms[e.id].shape
    }

    /// The number of cells.
    pub fn cell_count(&self) -> (r: usize)
        ensures
            r == self@.cells.len(),
    {
        self.cells.len()
    }

    /// Adds a cell holding `value` and returns its index.
    pub fn add_cell(&mut self, value: VariableValue) -> (cell: usize)
        requires
            old(self)@.wf(),
            value@.wf(),
        ensures
            final(self)@.wf(),
            final(self)@.terms == old(self)@.terms,
            final(self)@.cells == old(self)@.cells.push(value@),
            cell == old(self)@.cells.len(),
    {
        let cell: usize = self.cells.len();
        self.cells.push(value);
        proof {
            assert(self@.terms =~= old(self)@.terms);
            assert(self@.cells =~= old(self)@.cells.push(value@));
            assert forall|i: int| 0 <= i < self@.terms.len() implies self@.term_wf(i) by {
                assert(old(self)@.term_wf(i));
                assert(self@.input_shapes(self@.terms[i].inputs) =~= old(self)@.input_shapes(
                    old(self)@.terms[i].inputs,
                ));
            }
        }
        cell
    }

    /// The cell with index `cell`.
    pub fn cell(&self, cell: usize) -> (r: &VariableValue)
        requires
            cell < self@.cells.len(),
        ensures
            r@ == self@.cells[cell as int],
    {
        &self.cells[cell]
    }

    /// Replaces the array held by a cell. Every term's shape is fixed when the term is
    /// made, so the new array has the shape of the one it replaces.
    pub fn set(&mut self, cell: usize, value: Tensor)
        requires
            old(self)@.wf(),
            cell < old(self)@.cells.len(),
            value@.wf(),
            value@.shape == old(self)@.cells[cell as int].shape,
        ensures
            final(self)@.wf(),
            final(self)@.terms == old(self)@.terms,
            final(self)@.cells == old(self)@.cells.update(cell as int, value@),
    {
        self.cells[cell] = VariableValue::new(value);
        proof {
            assert(self@.terms =~= old(self)@.terms);
            assert(self@.cells =~= old(self)@.cells.update(cell as int, value@));
            assert forall|i: int| 0 <= i < self@.terms.len() implies self@.term_wf(i) by {
                assert(old(self)@.term_wf(i));
                assert(self@.input_shapes(self@.terms[i].inputs) =~= old(self)@.input_shapes(
                    old(self)@.terms[i].inputs,
                ));
            }
        }
    }

    /// The shape that inference gives a term with this operation and these inputs.
    pub fn infer_shape(&self, operation: &Operation, inputs: &Vec<Expr>) -> (r: Option<Vec<usize>>)
        requires
            forall|j: int| 0 <= j < inputs.len() ==> self@.contains(#[trigger] inputs[j]),
        ensures
            r is Some <==> infer(operation@, self@.input_shapes(ids(inputs@))) is Some,
            r is Some ==> infer(operation@, self@.input_shapes(ids(inputs@))) == Some(r->0@),
    {
        let n: usize = inputs.len();
        let mut shapes: Vec<Vec<usize>> = Vec::new();
        let mut j: usize = 0;
        while j < n
            invariant
                n == inputs.len(),
                j <= n,
                shapes.len() == j,
                forall|p: int| 0 <= p < inputs.len() ==> self@.contains(#[trigger] inputs[p]),
                forall|p: int|
                    0 <= p < j ==> (#[trigger] shapes[p])@ == self@.terms[inputs[p].id as int].shape,
            decreases n - j,
        {
            shapes.push(self.shape(inputs[j]).clone());
            j += 1;
        }
        proof {
            assert(crate::algebra::operation::shape_views(shapes@) =~= self@.input_shapes(
                ids(inputs@),
            ));
        }
        crate::algebra::operation::infer_shape(operation, &shapes)
    }

    /// Appends a term and returns the handle of the expression rooted at it, if the arena
    /// admits the term; else leaves the arena as it is.
    pub fn try_push(&mut self, operation: Operation, inputs: Vec<Expr>) -> (r: Option<Expr>)
        requires
            old(self)@.wf(),
        ensures
            final(self)@.wf(),
            final(self)@.extends(old(self)@),
            final(self)@.cells == old(self)@.cells,
            r is Some <==> old(self)@.admits(operation@, ids(inputs@)),
            r matches Some(e) ==> {
                &&& e.id == old(self)@.terms.len()
                &&& final(self)@.terms.len() == old(self)@.terms.len() + 1
                &&& final(self)@.terms[e.id as int].operation == operation@
                &&& final(self)@.terms[e.id as int].inputs == ids(inputs@)
                &&& infer(operation@, old(self)@.input_shapes(ids(inputs@))) == Some(
                    final(self)@.terms[e.id as int].shape,
                )
            },
            r is None ==> final(self)@ == old(self)@,
    {
        let n: usize = inputs.len();
        let mut j: usize = 0;
        while j < n
            invariant
                n == inputs.len(),
                j <= n,
                *self == *old(self),
                self@.wf(),
                forall|p: int| 0 <= p < j ==> self@.contains(#[trigger] inputs[p]),
            decreases n - j,
        {
            if !self.contains(inputs[j]) {
                assert(ids(inputs@)[j as int] == inputs[j as int].id);
                return None;
            }
            j += 1;
        }
        assert forall|p: int| 0 <= p < ids(inputs@).len() implies ids(inputs@)[p]
            < self@.terms.len() by {
            assert(self@.contains(inputs[p]));
        }
        let bound: bool = match &operation {
            Operation::Variable { cell, shape, .. } => *cell < self.cells.len()
                && crate::shape::same(&self.cells[*cell].shape(), shape),
            _ => true,
        };
        if !bound {
            return None;
        }
        match self.infer_shape(&operation, &inputs) {
            Some(shape) => {
                let id: usize = self.terms.len();
                let ghost before = self@;
                self.terms.push(Term { operation, inputs, shape });
                proof {
                    let after = self@;
                    assert(after.cells =~= before.cells);
                    assert(after.terms[id as int].inputs =~= ids(inputs@));
                    assert forall|i: int| 0 <= i < after.terms.len() implies after.term_wf(i) by {
                        if i < id {
                            assert(before.term_wf(i));
                            assert(after.terms[i] == before.terms[i]);
                        }
                        assert(after.input_shapes(after.terms[i].inputs) =~= before.input_shapes(
                            after.terms[i].inputs,
                        ));
                    }
                }
                Some(Expr { id })
            },
            None => None,
        }
    }

    /// Appends a term and returns the handle of the expression rooted at it.
    pub fn push(&mut self, operation: Operation, inputs: Vec<Expr>) -> (e: Expr)
        requires
            old(self)@.wf(),
            old(self)@.admits(operation@, ids(inputs@)),
        ensures
            final(self)@.wf(),
            final(self)@.extends(old(self)@),
            final(self)@.cells == old(self)@.cells,
            e.id == old(self)@.terms.len(),
            final(self)@.terms.len() == old(self)@.terms.len() + 1,
            final(self)@.terms[e.id as int].operation == operation@,
            final(self)@.terms[e.id as int].inputs == ids(inputs@),
            infer(operation@, old(self)@.input_shapes(ids(inputs@))) == Some(
                final(self)@.terms[e.id as int].shape,
            ),
    {
        match self.try_push(operation, inputs) {
            Some(e) => e,
            None => unreached(),
        }
    }
}

} // verus!

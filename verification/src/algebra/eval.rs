//! Evaluation of an expression through the kernel.

use vstd::prelude::*;
use crate::algebra::arena::{Arena, Expr};
use crate::algebra::apply::{applied, apply, lemma_settled_has_value, settled};
use crate::algebra::kernel::{kernel_ok, value, valued, values};
use crate::algebra::operation::{Operation, OperationView};
use crate::algebra::tree::lemma_tree;
use crate::tensor::{shapes, views, Tensor, TensorView};

verus! {

/// The value of a term with the given operation from the values of its inputs, `shape`
/// being the shape of the term: a constant is its literal, a variable is what its cell
/// holds, and any other term is what its operation makes of the inputs.
pub open spec fn term_value<K: Fn(&Operation, &Vec<Tensor>) -> Tensor>(
    operation: OperationView,
    inputs: Seq<TensorView>,
    cells: Seq<TensorView>,
    k: K,
    shape: Seq<usize>,
) -> TensorView {
    match operation {
        OperationView::Constant { value } => value,
        OperationView::Variable { cell, .. } => cells[cell as int],
        _ => applied(k, operation, inputs, shape),
    }
}

impl Expr {
    /// The value of the root term from the values of its inputs, which are given in the
    /// order of the inputs and have their shapes. When the call returns, the term had a
    /// value: it is no placeholder.
    pub fn eval_inputs<K: Fn(&Operation, &Vec<Tensor>) -> Tensor>(
        &self,
        arena: &Arena,
        inputs: &Vec<Tensor>,
        kernel: &K,
    ) -> (r: Tensor)
        requires
            arena@.wf(),
            arena@.contains(*self),
            kernel_ok(*kernel),
            forall|j: int| 0 <= j < inputs.len() ==> (#[trigger] inputs[j])@.wf(),
            shapes(views(inputs@)) == arena@.input_shapes(arena@.terms[self.id as int].inputs),
        ensures
            r@ == term_value(
                arena@.terms[self.id as int].operation,
                views(inputs@),
                arena@.cells,
                *kernel,
                arena@.terms[self.id as int].shape,
            ),
            r@.wf(),
            r@.shape == arena@.terms[self.id as int].shape,
            !arena@.terms[self.id as int].operation.is_leaf() ==> settled(
                *kernel,
                arena@.terms[self.id as int].operation,
                views(inputs@),
                arena@.terms[self.id as int].shape,
            ),
            !(arena@.terms[self.id as int].operation is Unevaluable),
    {
        proof {
            assert(arena@.term_wf(self.id as int));
        }
        let operation = arena.operation(*self);
        match operation {
            Operation::Constant { value } => value.copy(),
            Operation::Variable { cell, .. } => arena.cell(*cell).get(),
            _ => {
                let r = apply(operation, inputs, arena.shape(*self), kernel);
                proof {
                    lemma_settled_has_value(
                        *kernel,
                        operation@,
                        views(inputs@),
                        arena@.terms[self.id as int].shape,
                    );
                }
                r
            },
        }
    }

    /// The value of the expression: the values of the inputs of its root term are computed
    /// first, in order, and the value of the root term is made of them. A sub-expression
    /// that occurs in several places is computed once for each. When the call returns,
    /// every term had a value, so no placeholder occurs in the expression.
    pub fn eval<K: Fn(&Operation, &Vec<Tensor>) -> Tensor>(&self, arena: &Arena, kernel: &K) -> (r:
        Tensor)
        requires
            arena@.wf(),
            arena@.contains(*self),
            kernel_ok(*kernel),
        ensures
            r@ == value(arena@.tree(self.id as int), arena@.cells, *kernel),
            r@.wf(),
            r@.shape == arena@.terms[self.id as int].shape,
            arena@.tree(self.id as int).evaluable(),
            valued(arena@.tree(self.id as int), arena@.cells, *kernel),
        decreases self.id,
    {
        proof {
            lemma_tree(arena@, self.id as int);
            assert(arena@.term_wf(self.id as int));
        }
        let ghost t = arena@.tree(self.id as int);
        let inputs = arena.inputs(*self);
        let n: usize = inputs.len();
        let mut computed: Vec<Tensor> = Vec::new();
        let mut j: usize = 0;
        while j < n
            invariant
                arena@.wf(),
                arena@.contains(*self),
                kernel_ok(*kernel),
                n == inputs.len(),
                crate::algebra::arena::ids(inputs@) == arena@.terms[self.id as int].inputs,
                t == arena@.tree(self.id as int),
                t.inputs == arena@.trees(arena@.terms[self.id as int].inputs),
                arena@.term_wf(self.id as int),
                j <= n,
                computed.len() == j,
                forall|p: int|
                    0 <= p < j ==> {
                        &&& (#[trigger] computed[p])@ == value(t.inputs[p], arena@.cells, *kernel)
                        &&& computed[p]@.wf()
                        &&& computed[p]@.shape == arena@.terms[inputs[p].id as int].shape
                        &&& t.inputs[p].evaluable()
                        &&& valued(t.inputs[p], arena@.cells, *kernel)
                    },
            decreases n - j,
        {
            let input: Expr = inputs[j];
            assert(crate::algebra::arena::ids(inputs@)[j as int] == input.id);
            let v = input.eval(arena, kernel);
            computed.push(v);
            j += 1;
        }
        proof {
            assert(views(computed@) =~= values(t.inputs, arena@.cells, *kernel));
            assert(shapes(views(computed@)) =~= arena@.input_shapes(
                arena@.terms[self.id as int].inputs,
            )) by {
                assert forall|p: int| 0 <= p < n implies shapes(views(computed@))[p]
                    == arena@.input_shapes(arena@.terms[self.id as int].inputs)[p] by {
                    assert(crate::algebra::arena::ids(inputs@)[p] == inputs[p].id);
                }
            }
        }
        self.eval_inputs(arena, &computed, kernel)
    }
}

} // verus!

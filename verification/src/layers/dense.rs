//! The fully connected layer.

use vstd::prelude::*;
use crate::algebra::arena::{Arena, ArenaView, Expr};
use crate::algebra::operation::OperationView;
use crate::algebra::tree::{lemma_extends_keeps, Tree};
use crate::initializers::Initializer;
use crate::algebra::gradient::variable;
use crate::layers::plan::Plan;
use crate::layers::{
    lemma_run_performs, lemma_set_up_trans, moves, perform, qualified, set_up, Activation,
    Instance, LayerVariable, LayerVariablesBuilder, Move, Step,
};
use crate::shape::{checked_size, fits, size};
use crate::tensor::{Tensor, TensorView, ZERO};

verus! {

/// Takes a vector, or any array read as one, and gives a vector of `output_size`
/// elements: an activation of the product of a matrix of weights and the input, plus a
/// vector of biases.
#[derive(Debug)]
pub struct Dense {
    pub activation: Activation,
    pub kernel_initializer: Initializer,
    pub output_size: usize,
}

/// A fully connected layer that was set up.
#[derive(Debug)]
pub struct DenseInstance {
    pub activation: Activation,
    pub biases: Expr,
    pub weights: Expr,
    pub variables: Vec<LayerVariable>,
}

/// The shape of the weights of a fully connected layer: a line for each output, a column
/// for each element of the input.
pub open spec fn weights_shape(output_size: usize, input_shape: Seq<usize>) -> Seq<usize> {
    seq![output_size, size(input_shape) as usize]
}

impl Dense {
    /// What setting the layer up under the name `namespace` for inputs of the given shape
    /// comes to, where it can be set up, the first new cell being `first`: a machine word
    /// holds the number of elements of an input, and the weights can be given their first
    /// value. The biases, zeros, become the variable `b` and the weights the variable `w`;
    /// the steps are the product of the weights and the input, the sum with the biases, and
    /// the activation.
    pub open spec fn plan(&self, namespace: Seq<char>, input_shape: Seq<usize>, first: int) -> Option<
        Plan,
    > {
        let shape = weights_shape(self.output_size, input_shape);
        match self.kernel_initializer.of(shape) {
            Some(weights) => if fits(input_shape) {
                Some(
                    Plan {
                        moves: seq![
                            Move::MatVecMul {
                                weights: variable(
                                    qualified(namespace, "w"@),
                                    (first + 1) as usize,
                                    shape,
                                ),
                            },
                            Move::Add {
                                term: variable(
                                    qualified(namespace, "b"@),
                                    first as usize,
                                    seq![self.output_size],
                                ),
                            },
                            Move::Activate { activation: self.activation },
                        ],
                        cells: seq![TensorView::filled(seq![self.output_size], ZERO), weights],
                        names: seq![qualified(namespace, "b"@), qualified(namespace, "w"@)],
                    },
                )
            } else {
                None
            },
            None => None,
        }
    }

    /// Sets the layer up for inputs of the given shape, where the weights can be given
    /// their first value: the biases, zeros, become the variable `b` of the layer, and the
    /// weights its variable `w`, each in a new cell of the arena. Where they cannot, the
    /// arena is left as it is.
    pub fn init(&self, arena: &mut Arena, namespace: &str, input_shape: &Vec<usize>) -> (r: Option<
        DenseInstance,
    >)
        requires
            old(arena)@.wf(),
        ensures
            set_up(old(arena)@, final(arena)@),
            r is Some <==> fits(input_shape@) && self.kernel_initializer.of(
                weights_shape(self.output_size, input_shape@),
            ) is Some,
            r is None ==> final(arena)@ == old(arena)@,
            r matches Some(d) ==> {
                let first = old(arena)@.cells.len() as int;
                &&& d.activation == self.activation
                &&& final(arena)@.contains(d.biases)
                &&& final(arena)@.contains(d.weights)
                &&& final(arena)@.cells.len() == first + 2
                &&& final(arena)@.cells[first] == TensorView::filled(
                    seq![self.output_size],
                    ZERO,
                )
                &&& Some(final(arena)@.cells[first + 1]) == self.kernel_initializer.of(
                    weights_shape(self.output_size, input_shape@),
                )
                &&& final(arena)@.of(d.biases) == Tree::leaf(
                    OperationView::Variable {
                        name: qualified(namespace@, "b"@),
                        cell: first as usize,
                        shape: seq![self.output_size],
                    },
                )
                &&& final(arena)@.of(d.weights) == Tree::leaf(
                    OperationView::Variable {
                        name: qualified(namespace@, "w"@),
                        cell: (first + 1) as usize,
                        shape: weights_shape(self.output_size, input_shape@),
                    },
                )
                &&& d.variables@.len() == 2
                &&& d.variables@[0].name@ == qualified(namespace@, "b"@)
                &&& d.variables@[0].value == first
                &&& d.variables@[1].name@ == qualified(namespace@, "w"@)
                &&& d.variables@[1].value == first + 1
            },
    {
        let ghost before = arena@;
        proof {
            lemma_extends_keeps(before, before);
        }
        let columns: usize = match checked_size(input_shape) {
            Some(columns) => columns,
            None => {
                return None;
            },
        };
        let mut shape: Vec<usize> = Vec::new();
        shape.push(self.output_size);
        shape.push(columns);
        assert(shape@ =~= weights_shape(self.output_size, input_shape@));
        let first_weights: Tensor = match self.kernel_initializer.make(&shape) {
            Some(t) => t,
            None => {
                return None;
            },
        };
        let mut bias_shape: Vec<usize> = Vec::new();
        bias_shape.push(self.output_size);
        proof {
            assert(bias_shape@ =~= seq![self.output_size]);
            assert(size(bias_shape@) == self.output_size) by {
                assert(bias_shape@.drop_last() =~= Seq::<usize>::empty());
                assert(size(Seq::<usize>::empty()) == 1);
                assert(1 * (self.output_size as nat) == self.output_size);
            }
        }
        let mut builder = LayerVariablesBuilder::new(namespace);
        let biases = builder.append(arena, "b", Tensor::zeros(bias_shape));
        let ghost middle = arena@;
        let weights = builder.append(arena, "w", first_weights);
        proof {
            lemma_set_up_trans(before, middle, arena@);
        }
        Some(
            DenseInstance {
                activation: self.activation,
                biases,
                weights,
                variables: builder.variables,
            },
        )
    }
}

impl DenseInstance {
    /// The steps of the layer: the product of the weights and the input, plus the biases,
    /// through the activation.
    pub fn instance(&self) -> (r: Instance)
        ensures
            r.steps@ == seq![
                Step::MatVecMul { weights: self.weights },
                Step::Add { term: self.biases },
                Step::Activate { activation: self.activation },
            ],
            r.variables@.len() == self.variables@.len(),
            forall|j: int|
                0 <= j < r.variables@.len() ==> (#[trigger] r.variables@[j]).name@
                    == self.variables@[j].name@ && r.variables@[j].value
                    == self.variables@[j].value,
            forall|a: ArenaView| a.contains(self.weights) && a.contains(self.biases) ==> r.within(a),
    {
        let mut steps: Vec<Step> = Vec::new();
        steps.push(Step::MatVecMul { weights: self.weights });
        steps.push(Step::Add { term: self.biases });
        steps.push(Step::Activate { activation: self.activation });
        assert(steps@ =~= seq![
            Step::MatVecMul { weights: self.weights },
            Step::Add { term: self.biases },
            Step::Activate { activation: self.activation },
        ]);
        Instance { steps, variables: crate::layers::copy_variables(&self.variables) }
    }

    /// The expression of the output of the layer for the input `x`, where it can be
    /// formed: the activation of the product of the weights and `x` plus the biases.
    pub open spec fn output(&self, a: ArenaView, x: Tree) -> Option<Tree> {
        let steps = seq![
            Move::MatVecMul { weights: a.of(self.weights) },
            Move::Add { term: a.of(self.biases) },
            Move::Activate { activation: self.activation },
        ];
        match perform(steps, 3, x) {
            Some((t, saved)) => Some(t),
            None => None,
        }
    }

    /// The expression of the output of the layer for the input `input`, where it can be
    /// formed; its terms are appended to the arena.
    pub fn try_expression(&self, arena: &mut Arena, input: Expr) -> (r: Option<Expr>)
        requires
            old(arena)@.wf(),
            old(arena)@.contains(input),
            old(arena)@.contains(self.weights),
            old(arena)@.contains(self.biases),
        ensures
            final(arena)@.grown(old(arena)@),
            r is Some <==> self.output(old(arena)@, old(arena)@.of(input)) is Some,
            r matches Some(e) ==> final(arena)@.contains(e) && Some(final(arena)@.of(e))
                == self.output(old(arena)@, old(arena)@.of(input)),
    {
        let made = self.instance();
        proof {
            let steps = seq![
                Move::MatVecMul { weights: arena@.of(self.weights) },
                Move::Add { term: arena@.of(self.biases) },
                Move::Activate { activation: self.activation },
            ];
            assert(moves(arena@, made.steps@) =~= steps);
            lemma_run_performs(arena@, made.steps@, 3, arena@.of(input));
        }
        made.try_expression(arena, input)
    }

    /// The variables of the layer.
    pub fn variables(&self) -> (r: &Vec<LayerVariable>)
        ensures
            r == &self.variables,
    {
        &self.variables
    }
}

} // verus!

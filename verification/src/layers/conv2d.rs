//! The convolutional layer.

use vstd::prelude::*;
use crate::algebra::arena::{Arena, Expr};
use crate::algebra::operation::Padding;
use crate::algebra::tree::lemma_extends_keeps;
use crate::initializers::Initializer;
use crate::algebra::gradient::variable;
use crate::layers::plan::{follows, Plan};
use crate::layers::{
    lemma_set_up_trans, moves, qualified, set_up, Activation, Instance, LayerVariablesBuilder,
    Move, Step,
};
use crate::tensor::Tensor;

verus! {

/// Takes an image of shape `(height, width, channels)` and gives its convolution with a
/// kernel of `filters` filters, plus a bias for each filter where biases are used, through
/// an activation.
#[derive(Debug)]
pub struct Conv2D {
    pub activation: Activation,
    pub bias_initializer: Initializer,
    pub kernel_initializer: Initializer,
    pub filters: usize,
    pub kernel_height: usize,
    pub kernel_width: usize,
    pub padding: Padding,
    pub stride: usize,
    pub use_bias: bool,
}

/// The shape of the kernel of a convolutional layer for inputs of the given shape.
pub open spec fn kernel_shape(layer: Conv2D, input_shape: Seq<usize>) -> Seq<usize> {
    seq![layer.kernel_height, layer.kernel_width, input_shape[2], layer.filters]
}

impl Conv2D {
    /// What setting the layer up under the name `namespace` for inputs of the given shape
    /// comes to, where it can be set up, the first new cell being `first`: the inputs have
    /// three axes at least, and the biases, where they are used, and the kernel can be
    /// given their first values. The biases become the variable `b` and the kernel the
    /// variable `w`; the steps are the convolution with the kernel, the sum with the biases
    /// repeated over the image, and the activation.
    pub open spec fn plan(&self, namespace: Seq<char>, input_shape: Seq<usize>, first: int) -> Option<
        Plan,
    > {
        if input_shape.len() < 3 {
            None
        } else {
            match self.kernel_initializer.of(kernel_shape(*self, input_shape)) {
                Some(kernel) => if !self.use_bias {
                    Some(
                        Plan {
                            moves: seq![
                                Move::Conv2D {
                                    kernel: variable(
                                        qualified(namespace, "w"@),
                                        first as usize,
                                        kernel.shape,
                                    ),
                                    stride: self.stride,
                                    padding: self.padding,
                                },
                                Move::Activate { activation: self.activation },
                            ],
                            cells: seq![kernel],
                            names: seq![qualified(namespace, "w"@)],
                        },
                    )
                } else {
                    match self.bias_initializer.of(seq![self.filters]) {
                        Some(biases) => Some(
                            Plan {
                                moves: seq![
                                    Move::Conv2D {
                                        kernel: variable(
                                            qualified(namespace, "w"@),
                                            (first + 1) as usize,
                                            kernel.shape,
                                        ),
                                        stride: self.stride,
                                        padding: self.padding,
                                    },
                                    Move::AddBroadcast {
                                        term: variable(
                                            qualified(namespace, "b"@),
                                            first as usize,
                                            biases.shape,
                                        ),
                                    },
                                    Move::Activate { activation: self.activation },
                                ],
                                cells: seq![biases, kernel],
                                names: seq![qualified(namespace, "b"@), qualified(namespace, "w"@)],
                            },
                        ),
                        None => None,
                    }
                },
                None => None,
            }
        }
    }

    /// Sets the layer up for inputs of the given shape, where that can be done: each
    /// variable gets a new cell of the arena with its first value. Where the layer cannot
    /// be set up, the arena is left as it is.
    pub fn init(&self, arena: &mut Arena, namespace: &str, input_shape: &Vec<usize>) -> (r: Option<
        Instance,
    >)
        requires
            old(arena)@.wf(),
        ensures
            set_up(old(arena)@, final(arena)@),
            r is Some <==> self.plan(namespace@, input_shape@, old(arena)@.cells.len() as int)
                is Some,
            r is None ==> final(arena)@ == old(arena)@,
            r matches Some(i) ==> follows(
                i,
                final(arena)@,
                self.plan(namespace@, input_shape@, old(arena)@.cells.len() as int)->0,
                old(arena)@.cells.len() as int,
            ),
    {
        let ghost before = arena@;
        proof {
            lemma_extends_keeps(before, before);
        }
        if input_shape.len() < 3 {
            return None;
        }
        let mut shape: Vec<usize> = Vec::new();
        shape.push(self.kernel_height);
        shape.push(self.kernel_width);
        shape.push(input_shape[2]);
        shape.push(self.filters);
        assert(shape@ =~= kernel_shape(*self, input_shape@));
        let first_kernel: Tensor = match self.kernel_initializer.make(&shape) {
            Some(t) => t,
            None => {
                return None;
            },
        };
        let mut bias_shape: Vec<usize> = Vec::new();
        bias_shape.push(self.filters);
        assert(bias_shape@ =~= seq![self.filters]);
        let mut builder = LayerVariablesBuilder::new(namespace);
        let mut steps: Vec<Step> = Vec::new();
        if self.use_bias {
            let first_biases: Tensor = match self.bias_initializer.make(&bias_shape) {
                Some(t) => t,
                None => {
                    return None;
                },
            };
            let biases: Expr = builder.append(arena, "b", first_biases);
            let ghost middle = arena@;
            let kernel: Expr = builder.append(arena, "w", first_kernel);
            proof {
                lemma_set_up_trans(before, middle, arena@);
            }
            steps.push(Step::Conv2D { kernel, stride: self.stride, padding: self.padding });
            steps.push(Step::AddBroadcast { term: biases });
        } else {
            let kernel: Expr = builder.append(arena, "w", first_kernel);
            steps.push(Step::Conv2D { kernel, stride: self.stride, padding: self.padding });
        }
        steps.push(Step::Activate { activation: self.activation });
        let made = Instance { steps, variables: builder.variables };
        proof {
            let first = before.cells.len() as int;
            let plan = self.plan(namespace@, input_shape@, first)->0;
            assert(moves(arena@, made.steps@) =~= plan.moves);
        }
        Some(made)
    }
}

} // verus!

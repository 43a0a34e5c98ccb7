//! Batch normalization at inference.

use vstd::prelude::*;
use crate::algebra::arena::{Arena, Expr};
use crate::algebra::tree::lemma_extends_keeps;
use crate::initializers::Initializer;
use crate::algebra::gradient::variable;
use crate::layers::plan::{follows, Plan};
use crate::layers::{
    lemma_set_up_trans, moves, qualified, set_up, Instance, LayerVariablesBuilder, Move, Step,
};
use crate::tensor::Tensor;

verus! {

/// Scales and shifts its input by the statistics of a batch normalization, channel by
/// channel along the last axis. The statistics are not updated: the layer is for
/// inference. `epsilon` is the bit pattern of a single-precision number.
#[derive(Debug)]
pub struct BatchNormalization {
    pub epsilon: u32,
    pub beta_initializer: Initializer,
    pub gamma_initializer: Initializer,
    pub moving_mean_initializer: Initializer,
    pub moving_variance_initializer: Initializer,
}

impl BatchNormalization {
    /// What setting the layer up under the name `namespace` for inputs of the given shape
    /// comes to, where it can be set up, the first new cell being `first`: the inputs have
    /// an axis, and the four statistics can be given their first values, each a vector
    /// with an element for each channel. They become the variables `beta`, `gamma`,
    /// `moving_mean` and `moving_variance`, in this order; the one step is the
    /// normalization by them.
    pub open spec fn plan(&self, namespace: Seq<char>, input_shape: Seq<usize>, first: int) -> Option<
        Plan,
    > {
        if input_shape.len() < 1 {
            None
        } else {
            let depth = seq![input_shape.last()];
            match (
                self.beta_initializer.of(depth),
                self.gamma_initializer.of(depth),
                self.moving_mean_initializer.of(depth),
                self.moving_variance_initializer.of(depth),
            ) {
                (Some(beta), Some(gamma), Some(mean), Some(variance)) => Some(
                    Plan {
                        moves: seq![
                            Move::Normalize {
                                beta: variable(
                                    qualified(namespace, "beta"@),
                                    first as usize,
                                    beta.shape,
                                ),
                                gamma: variable(
                                    qualified(namespace, "gamma"@),
                                    (first + 1) as usize,
                                    gamma.shape,
                                ),
                                moving_mean: variable(
                                    qualified(namespace, "moving_mean"@),
                                    (first + 2) as usize,
                                    mean.shape,
                                ),
                                moving_variance: variable(
                                    qualified(namespace, "moving_variance"@),
                                    (first + 3) as usize,
                                    variance.shape,
                                ),
                                epsilon: self.epsilon,
                                shape: input_shape,
                            },
                        ],
                        cells: seq![beta, gamma, mean, variance],
                        names: seq![
                            qualified(namespace, "beta"@),
                            qualified(namespace, "gamma"@),
                            qualified(namespace, "moving_mean"@),
                            qualified(namespace, "moving_variance"@),
                        ],
                    },
                ),
                _ => None,
            }
        }
    }

    /// Sets the layer up for inputs of the given shape, where that can be done: each
    /// variable gets a new cell of the arena with its first value. Where the layer cannot
    /// be set up, the arena is left as it is.
    pub fn init(&self, arena: &mut Arena, namespace: &str, input_shape: &Vec<usize>) -> (r: Option<
        Instance,
    >)
        requires
            old(arena)@.wf(),
        ensures
            set_up(old(arena)@, final(arena)@),
            r is Some <==> self.plan(namespace@, input_shape@, old(arena)@.cells.len() as int)
                is Some,
            r is None ==> final(arena)@ == old(arena)@,
            r matches Some(i) ==> follows(
                i,
                final(arena)@,
                self.plan(namespace@, input_shape@, old(arena)@.cells.len() as int)->0,
                old(arena)@.cells.len() as int,
            ),
    {
        let ghost before = arena@;
        proof {
            lemma_extends_keeps(before, before);
        }
        if input_shape.len() < 1 {
            return None;
        }
        let mut depth: Vec<usize> = Vec::new();
        depth.push(input_shape[input_shape.len() - 1]);
        assert(depth@ =~= seq![input_shape@.last()]);
        let first_beta: Tensor = match self.beta_initializer.make(&depth) {
            Some(t) => t,
            None => {
                return None;
            },
        };
        let first_gamma: Tensor = match self.gamma_initializer.make(&depth) {
            Some(t) => t,
            None => {
                return None;
            },
        };
        let first_mean: Tensor = match self.moving_mean_initializer.make(&depth) {
            Some(t) => t,
            None => {
                return None;
            },
        };
        let first_variance: Tensor = match self.moving_variance_initializer.make(&depth) {
            Some(t) => t,
            None => {
                return None;
            },
        };
        let mut builder = LayerVariablesBuilder::new(namespace);
        let beta: Expr = builder.append(arena, "beta", first_beta);
        let ghost a1 = arena@;
        let gamma: Expr = builder.append(arena, "gamma", first_gamma);
        let ghost a2 = arena@;
        proof {
            lemma_set_up_trans(before, a1, a2);
        }
        let moving_mean: Expr = builder.append(arena, "moving_mean", first_mean);
        let ghost a3 = arena@;
        proof {
            lemma_set_up_trans(before, a2, a3);
        }
        let moving_variance: Expr = builder.append(arena, "moving_variance", first_variance);
        proof {
            lemma_set_up_trans(before, a3, arena@);
        }
        let mut steps: Vec<Step> = Vec::new();
        steps.push(
            Step::Normalize {
                beta,
                gamma,
                moving_mean,
                moving_variance,
                epsilon: self.epsilon,
                shape: input_shape.clone(),
            },
        );
        let made = Instance { steps, variables: builder.variables };
        proof {
            let first = before.cells.len() as int;
            let plan = self.plan(namespace@, input_shape@, first)->0;
            assert(moves(arena@, made.steps@) =~= plan.moves);
        }
        Some(made)
    }
}

} // verus!

//! The layer that averages over the plane of an image.

use vstd::prelude::*;
use crate::layers::plan::Plan;
use crate::layers::{Instance, Move, Step};
use crate::scalar::{count_bits, scalar_count};

verus! {

/// Takes an input of shape `(height, width, channels)` and gives the vector of the means
/// of its channels.
#[derive(Debug)]
pub struct GlobalAveragePooling2D {}

impl GlobalAveragePooling2D {
    /// What setting the layer up for inputs of the given shape comes to, where they have
    /// three axes at least and a plane whose number of positions a machine word holds: its
    /// one step is the mean over the plane.
    pub open spec fn plan(&self, input_shape: Seq<usize>) -> Option<Plan> {
        if input_shape.len() >= 3 && input_shape[0] * input_shape[1] <= usize::MAX {
            Some(
                Plan::of_moves(
                    seq![
                        Move::Pool {
                            channels: input_shape[2],
                            count: count_bits((input_shape[0] * input_shape[1]) as nat) as u32,
                        },
                    ],
                ),
            )
        } else {
            None
        }
    }

    /// Sets the layer up for inputs of the given shape, which has to have three axes at
    /// least and a plane whose number of positions a machine word holds: its one step is
    /// the mean over the plane.
    pub fn init(&self, input_shape: &Vec<usize>) -> (r: Option<Instance>)
        ensures
            r is Some <==> input_shape@.len() >= 3 && input_shape@[0] * input_shape@[1]
                <= usize::MAX,
            r matches Some(i) ==> {
                &&& i.steps@ == seq![
                    Step::Pool {
                        channels: input_shape@[2],
                        count: count_bits((input_shape@[0] * input_shape@[1]) as nat) as u32,
                    },
                ]
                &&& i.variables@.len() == 0
                &&& forall|a: crate::algebra::arena::ArenaView| i.within(a)
            },
    {
        if input_shape.len() < 3 {
            return None;
        }
        let positions: usize = match input_shape[0].checked_mul(input_shape[1]) {
            Some(positions) => positions,
            None => {
                return None;
            },
        };
        let mut steps: Vec<Step> = Vec::new();
        steps.push(Step::Pool { channels: input_shape[2], count: scalar_count(positions) });
        assert(steps@ =~= seq![
            Step::Pool {
                channels: input_shape@[2],
                count: count_bits((input_shape@[0] * input_shape@[1]) as nat) as u32,
            },
        ]);
        Some(Instance { steps, variables: Vec::new() })
    }
}

} // verus!

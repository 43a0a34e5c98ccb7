//! The layer that lays its input out as a vector.

use vstd::prelude::*;
use crate::layers::plan::Plan;
use crate::layers::{Instance, Move, Step};
use crate::shape::{checked_size, fits, size};

verus! {

/// Lays its input out as a vector.
#[derive(Debug)]
pub struct Flatten {}

/// A flattening layer that was set up: it gives a vector of `output_size` elements.
#[derive(Debug)]
pub struct FlattenInstance {
    pub output_size: usize,
}

impl Flatten {
    /// What setting the layer up for inputs of the given shape comes to, where a machine
    /// word holds the number of their elements: its one step is its input under the shape
    /// of a vector.
    pub open spec fn plan(&self, input_shape: Seq<usize>) -> Option<Plan> {
        if fits(input_shape) {
            Some(Plan::of_moves(seq![Move::Reshape { shape: seq![size(input_shape) as usize] }]))
        } else {
            None
        }
    }

    /// Sets the layer up for inputs of the given shape, where a machine word holds the
    /// number of their elements.
    pub fn init(&self, input_shape: &Vec<usize>) -> (r: Option<FlattenInstance>)
        ensures
            r is Some <==> fits(input_shape@),
            r matches Some(f) ==> f.output_size == size(input_shape@),
    {
        match checked_size(input_shape) {
            Some(output_size) => Some(FlattenInstance { output_size }),
            None => None,
        }
    }
}

impl FlattenInstance {
    /// The steps of the layer: its input under the shape of a vector of `output_size`
    /// elements.
    pub fn instance(&self) -> (r: Instance)
        ensures
            r.steps@.len() == 1,
            r.steps@[0] matches Step::Reshape { shape } && shape@ == seq![self.output_size],
            r.variables@.len() == 0,
            forall|a: crate::algebra::arena::ArenaView| r.within(a),
    {
        let mut shape: Vec<usize> = Vec::new();
        shape.push(self.output_size);
        let mut steps: Vec<Step> = Vec::new();
        steps.push(Step::Reshape { shape });
        Instance { steps, variables: Vec::new() }
    }
}

} // verus!

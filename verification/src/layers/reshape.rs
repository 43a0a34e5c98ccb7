//! The layer that gives its input another shape.

use vstd::prelude::*;
use crate::layers::plan::Plan;
use crate::layers::{Instance, Move, Step};

verus! {

/// Gives its input the shape `shape`.
#[derive(Debug)]
pub struct Reshape {
    pub shape: Vec<usize>,
}

impl Reshape {
    /// What setting the layer up comes to: its one step is its input under the shape
    /// `shape`.
    pub open spec fn plan(&self) -> Plan {
        Plan::of_moves(seq![Move::Reshape { shape: self.shape@ }])
    }

    /// Sets the layer up: its one step is its input under the shape `shape`.
    pub fn init(&self) -> (r: Instance)
        ensures
            r.steps@.len() == 1,
            r.steps@[0] matches Step::Reshape { shape } && shape@ == self.shape@,
            r.variables@.len() == 0,
            forall|a: crate::algebra::arena::ArenaView| r.within(a),
    {
        let mut steps: Vec<Step> = Vec::new();
        steps.push(Step::Reshape { shape: self.shape.clone() });
        Instance { steps, variables: Vec::new() }
    }
}

} // verus!

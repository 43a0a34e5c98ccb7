//! The layer that applies a function to its input.

use vstd::prelude::*;
use crate::layers::plan::Plan;
use crate::layers::{Activation, Instance, Move, Step};

verus! {

/// Applies the function `f` to its input.
#[derive(Debug)]
pub struct Lambda {
    pub f: Activation,
}

impl Lambda {
    /// What setting the layer up comes to: its one step is the function applied to its
    /// input.
    pub open spec fn plan(&self) -> Plan {
        Plan::of_moves(seq![Move::Activate { activation: self.f }])
    }

    /// Sets the layer up: its one step is the function applied to its input.
    pub fn init(&self) -> (r: Instance)
        ensures
            r.steps@ == seq![Step::Activate { activation: self.f }],
            r.variables@.len() == 0,
            forall|a: crate::algebra::arena::ArenaView| r.within(a),
    {
        let mut steps: Vec<Step> = Vec::new();
        steps.push(Step::Activate { activation: self.f });
        assert(steps@ =~= seq![Step::Activate { activation: self.f }]);
        Instance { steps, variables: Vec::new() }
    }
}

} // verus!

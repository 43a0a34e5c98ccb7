//! The layer with a shortcut around another.

use vstd::prelude::*;
use crate::algebra::arena::Arena;
use crate::layers::sequential::Layer;
use crate::layers::plan::{follows, Plan};
use crate::layers::{moves, set_up, Instance};

verus! {

/// Gives the output of `body` plus its own input.
#[derive(Debug)]
pub struct Residual {
    pub body: Box<Layer>,
}

impl Residual {
    /// What setting the layer up comes to, where `body` can be set up: the plan of `body`
    /// under the same name and for the same inputs, with the shortcut around it.
    pub open spec fn plan(&self, namespace: Seq<char>, input_shape: Seq<usize>, first: int) -> Option<
        Plan,
    > {
        match self.body.plan(namespace, input_shape, first) {
            Some(body) => Some(body.around()),
            None => None,
        }
    }

    /// Sets the layer up, where `body` can be set up: sets `body` up under the same name
    /// and for the same inputs, and puts the shortcut around its steps.
    pub fn init(&self, arena: &mut Arena, namespace: &str, input_shape: &Vec<usize>) -> (r: Option<
        Instance,
    >)
        requires
            old(arena)@.wf(),
        ensures
            set_up(old(arena)@, final(arena)@),
            r is Some <==> self.plan(namespace@, input_shape@, old(arena)@.cells.len() as int)
                is Some,
            r matches Some(i) ==> follows(
                i,
                final(arena)@,
                self.plan(namespace@, input_shape@, old(arena)@.cells.len() as int)->0,
                old(arena)@.cells.len() as int,
            ),
        decreases self.body, 1nat,
    {
        match self.body.init(arena, namespace, input_shape) {
            Some(body) => {
                let ghost inner = body;
                let made = body.with_shortcut();
                proof {
                    let first = old(arena)@.cells.len() as int;
                    let plan = self.plan(namespace@, input_shape@, first)->0;
                    assert(moves(arena@, made.steps@) =~= plan.moves);
                    assert forall|i: int| 0 <= i < made.steps@.len() implies (
                    #[trigger] made.steps@[i]).within(arena@) by {
                        if 0 < i <= inner.steps@.len() {
                            assert(made.steps@[i] == inner.steps@[i - 1]);
                        }
                    }
                }
                Some(made)
            },
            None => None,
        }
    }
}

} // verus!

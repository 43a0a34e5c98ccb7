//! What setting a layer up comes to: the steps of the layer as they read, the first
//! values of its variables, and their names.

use vstd::prelude::*;
use crate::algebra::arena::ArenaView;
use crate::algebra::operation::OperationView;
use crate::algebra::tree::Tree;
use crate::layers::{moves, perform, Instance, Move, Step};
use crate::tensor::{TensorView, ZERO};

verus! {

/// What setting a layer up comes to. The variables of the layer are numbered in the order
/// in which their cells are made: the variable at position `j` has the name `names[j]`
/// and a cell of its own that first holds `cells[j]`.
pub struct Plan {
    /// The steps from the input of the layer to its output.
    pub moves: Seq<Move>,
    /// The first values of the variables.
    pub cells: Seq<TensorView>,
    /// The names of the variables.
    pub names: Seq<Seq<char>>,
}

impl Plan {
    /// The plan of a layer without steps or variables.
    pub open spec fn empty() -> Plan {
        Plan { moves: Seq::empty(), cells: Seq::empty(), names: Seq::empty() }
    }

    /// The plan of a layer without variables.
    pub open spec fn of_moves(moves: Seq<Move>) -> Plan {
        Plan { moves, cells: Seq::empty(), names: Seq::empty() }
    }

    /// The plan of `self` followed by `next`.
    pub open spec fn followed_by(self, next: Plan) -> Plan {
        Plan {
            moves: self.moves + next.moves,
            cells: self.cells + next.cells,
            names: self.names + next.names,
        }
    }

    /// The plan of `self` with a shortcut around it: the input is kept aside, the steps
    /// are made, and what was kept aside is added.
    pub open spec fn around(self) -> Plan {
        Plan {
            moves: seq![Move::Remember] + self.moves + seq![Move::AddRemembered],
            cells: self.cells,
            names: self.names,
        }
    }

    /// The expression of the output for the input `x`, where it can be formed.
    pub open spec fn output(self, x: Tree) -> Option<Tree> {
        match perform(self.moves, self.moves.len() as int, x) {
            Some((t, saved)) => Some(t),
            None => None,
        }
    }

    /// The shape of the output for an input of the given shape, where the output can be
    /// formed: the shape that inference gives the output for a constant input of that
    /// shape.
    pub open spec fn output_shape(self, input_shape: Seq<usize>) -> Option<Seq<usize>> {
        if crate::shape::fits(input_shape) {
            match self.output(sample(input_shape)) {
                Some(t) => Some(t.shape()),
                None => None,
            }
        } else {
            None
        }
    }
}

/// The constant of zeros of the given shape.
pub open spec fn sample(shape: Seq<usize>) -> Tree {
    Tree::leaf(OperationView::Constant { value: TensorView::filled(shape, ZERO) })
}

/// Whether the instance `i` is what `plan` describes, over the arena `a` whose cells from
/// `first` on are those of the variables: the steps read as the plan says, the variables
/// have the names of the plan and the cells from `first` on in order, and those cells hold
/// the values of the plan.
pub open spec fn follows(i: Instance, a: ArenaView, plan: Plan, first: int) -> bool {
    &&& i.within(a)
    &&& moves(a, i.steps@) == plan.moves
    &&& plan.names.len() == plan.cells.len()
    &&& i.variables@.len() == plan.names.len()
    &&& forall|j: int|
        0 <= j < plan.names.len() ==> (#[trigger] i.variables@[j]).name@ == plan.names[j]
            && i.variables@[j].value == first + j
    &&& 0 <= first
    &&& a.cells.len() == first + plan.cells.len()
    &&& forall|j: int| 0 <= j < plan.cells.len() ==> a.cells[first + j] == #[trigger] plan.cells[j]
}

/// A step reads the same in every arena that keeps the expressions of the arena that it
/// was made in.
pub proof fn lemma_read_keeps(a: ArenaView, b: ArenaView, step: Step)
    requires
        b.keeps(a),
        step.within(a),
    ensures
        step.read(b) == step.read(a),
        step.within(b),
{
}

/// Steps read the same in every arena that keeps the expressions of the arena that they
/// were made in.
pub proof fn lemma_moves_keep(a: ArenaView, b: ArenaView, steps: Seq<Step>)
    requires
        b.keeps(a),
        forall|i: int| 0 <= i < steps.len() ==> (#[trigger] steps[i]).within(a),
    ensures
        moves(b, steps) == moves(a, steps),
        forall|i: int| 0 <= i < steps.len() ==> (#[trigger] steps[i]).within(b),
{
    assert forall|i: int| 0 <= i < steps.len() implies (#[trigger] steps[i]).read(b)
        == steps[i].read(a) && steps[i].within(b) by {
        lemma_read_keeps(a, b, steps[i]);
    }
    assert(moves(b, steps) =~= moves(a, steps));
}

/// An instance that is what a plan describes stays so when terms are appended to the
/// arena.
pub proof fn lemma_follows_keeps(i: Instance, a: ArenaView, b: ArenaView, plan: Plan, first: int)
    requires
        follows(i, a, plan, first),
        b.keeps(a),
        b.cells == a.cells,
    ensures
        follows(i, b, plan, first),
{
    lemma_moves_keep(a, b, i.steps@);
}

/// The output of an instance that is what a plan describes is the output of the plan.
pub proof fn lemma_follows_output(i: Instance, a: ArenaView, plan: Plan, first: int, x: Tree)
    requires
        follows(i, a, plan, first),
    ensures
        i.output(a, x) == plan.output(x),
{
    crate::layers::lemma_run_performs(a, i.steps@, i.steps@.len() as int, x);
}

} // verus!

//! Layers one after the other.

use vstd::prelude::*;
use vstd::string::StringExecFns;
use crate::algebra::arena::{Arena, ArenaView};
use crate::algebra::display::{append_decimal, decimal_text};
use crate::algebra::tree::lemma_extends_keeps;
use crate::layers::plan::{
    follows, lemma_follows_keeps, lemma_follows_output, lemma_moves_keep, Plan,
};
use crate::layers::{
    lemma_grown_set_up, lemma_set_up_trans, moves, set_up, BatchNormalization, Conv2D, Dense,
    Flatten, GlobalAveragePooling2D, Instance, Lambda, Reshape, Residual,
};

verus! {

/// A layer of any kind.
#[derive(Debug)]
pub enum Layer {
    BatchNormalization(BatchNormalization),
    Conv2D(Conv2D),
    Dense(Dense),
    Flatten(Flatten),
    GlobalAveragePooling2D(GlobalAveragePooling2D),
    Lambda(Lambda),
    Reshape(Reshape),
    Residual(Residual),
    Sequential(Sequential),
}

/// Gives the output of the last of its layers, each of which takes the output of the one
/// before it.
#[derive(Debug)]
pub struct Sequential {
    pub layers: Vec<Layer>,
}

/// The name of the layer at position `i` among layers whose names begin with `prefix`:
/// the prefix and the position.
pub open spec fn numbered(prefix: Seq<char>, i: nat) -> Seq<char> {
    prefix + decimal_text(i)
}

/// What setting up the first `upto` of the layers `layers` one after the other comes to,
/// where each can be set up, and the shape of the output of the last of them: the layer at
/// position `i` is set up under the name `prefix` followed by `i`, for inputs of the shape
/// of the output of the layer before it, the first for inputs of the shape `input_shape`;
/// its first new cell follows those of the layers before it, which begin at `first`.
pub open spec fn plan_all(
    layers: Seq<Layer>,
    upto: int,
    prefix: Seq<char>,
    input_shape: Seq<usize>,
    first: int,
) -> Option<(Plan, Seq<usize>)>
    decreases layers, upto,
{
    if upto <= 0 || upto > layers.len() {
        Some((Plan::empty(), input_shape))
    } else {
        match plan_all(layers, upto - 1, prefix, input_shape, first) {
            Some((so_far, shape)) => match layers[upto - 1].plan(
                numbered(prefix, (upto - 1) as nat),
                shape,
                first + so_far.cells.len(),
            ) {
                Some(part) => match part.output_shape(shape) {
                    Some(next) => Some((so_far.followed_by(part), next)),
                    None => None,
                },
                None => None,
            },
            None => None,
        }
    }
}

/// Once a layer cannot be set up, the layers after it cannot be set up either.
pub proof fn lemma_plan_all_fails(
    layers: Seq<Layer>,
    failed: int,
    upto: int,
    prefix: Seq<char>,
    input_shape: Seq<usize>,
    first: int,
)
    requires
        0 < failed <= upto <= layers.len(),
        plan_all(layers, failed, prefix, input_shape, first) is None,
    ensures
        plan_all(layers, upto, prefix, input_shape, first) is None,
    decreases upto - failed,
{
    if failed < upto {
        lemma_plan_all_fails(layers, failed, upto - 1, prefix, input_shape, first);
    }
}

impl Layer {
    /// What setting the layer up under the name `namespace` for inputs of the given shape
    /// comes to, where it can be set up, the first new cell being `first`.
    pub open spec fn plan(&self, namespace: Seq<char>, input_shape: Seq<usize>, first: int) -> Option<
        Plan,
    >
        decreases self,
    {
        match self {
            Layer::BatchNormalization(layer) => layer.plan(namespace, input_shape, first),
            Layer::Conv2D(layer) => layer.plan(namespace, input_shape, first),
            Layer::Dense(layer) => layer.plan(namespace, input_shape, first),
            Layer::Flatten(layer) => layer.plan(input_shape),
            Layer::GlobalAveragePooling2D(layer) => layer.plan(input_shape),
            Layer::Lambda(layer) => Some(layer.plan()),
            Layer::Reshape(layer) => Some(layer.plan()),
            Layer::Residual(layer) => match layer.body.plan(namespace, input_shape, first) {
                Some(body) => Some(body.around()),
                None => None,
            },
            Layer::Sequential(layer) => match plan_all(
                layer.layers@,
                layer.layers@.len() as int,
                namespace + "/"@,
                input_shape,
                first,
            ) {
                Some((whole, shape)) => Some(whole),
                None => None,
            },
        }
    }

    /// Sets the layer up under the name `namespace` for inputs of the given shape, where
    /// that can be done: its variables get new cells of the arena with their first values,
    /// and its steps refer to the expressions that read them.
    pub fn init(&self, arena: &mut Arena, namespace: &str, input_shape: &Vec<usize>) -> (r: Option<
        Instance,
    >)
        requires
            old(arena)@.wf(),
        ensures
            set_up(old(arena)@, final(arena)@),
            r is Some <==> self.plan(namespace@, input_shape@, old(arena)@.cells.len() as int)
                is Some,
            r matches Some(i) ==> follows(
                i,
                final(arena)@,
                self.plan(namespace@, input_shape@, old(arena)@.cells.len() as int)->0,
                old(arena)@.cells.len() as int,
            ),
        decreases self, 0nat,
    {
        let ghost before = arena@;
        let ghost first = before.cells.len() as int;
        proof {
            lemma_extends_keeps(before, before);
        }
        match self {
            Layer::BatchNormalization(layer) => layer.init(arena, namespace, input_shape),
            Layer::Conv2D(layer) => layer.init(arena, namespace, input_shape),
            Layer::Dense(layer) => match layer.init(arena, namespace, input_shape) {
                Some(dense) => {
                    let made = dense.instance();
                    proof {
                        let plan = layer.plan(namespace@, input_shape@, first)->0;
                        assert(moves(arena@, made.steps@) =~= plan.moves);
                    }
                    Some(made)
                },
                None => None,
            },
            Layer::Flatten(layer) => match layer.init(input_shape) {
                Some(flat) => {
                    let made = flat.instance();
                    proof {
                        let plan = layer.plan(input_shape@)->0;
                        assert(moves(arena@, made.steps@) =~= plan.moves);
                    }
                    Some(made)
                },
                None => None,
            },
            Layer::GlobalAveragePooling2D(layer) => {
                let made = layer.init(input_shape);
                proof {
                    if made is Some {
                        let plan = layer.plan(input_shape@)->0;
                        assert(moves(arena@, made->0.steps@) =~= plan.moves);
                    }
                }
                made
            },
            Layer::Lambda(layer) => {
                let made = layer.init();
                proof {
                    assert(moves(arena@, made.steps@) =~= layer.plan().moves);
                }
                Some(made)
            },
            Layer::Reshape(layer) => {
                let made = layer.init();
                proof {
                    assert(moves(arena@, made.steps@) =~= layer.plan().moves);
                }
                Some(made)
            },
            Layer::Residual(layer) => layer.init(arena, namespace, input_shape),
            Layer::Sequential(layer) => layer.init(arena, namespace, input_shape),
        }
    }
}

/// Two instances one after the other are what the plan of the first followed by the plan
/// of the second describes, where the cells of the second follow those of the first.
pub proof fn lemma_follows_joined(
    whole: Instance,
    part: Instance,
    joined: Instance,
    a: ArenaView,
    b: ArenaView,
    so_far: Plan,
    next: Plan,
    first: int,
)
    requires
        follows(whole, a, so_far, first),
        b.keeps(a),
        b.extends(a),
        follows(part, b, next, first + so_far.cells.len()),
        joined.steps@ == whole.steps@ + part.steps@,
        joined.variables@ == whole.variables@ + part.variables@,
    ensures
        follows(joined, b, so_far.followed_by(next), first),
{
    let plan = so_far.followed_by(next);
    lemma_moves_keep(a, b, whole.steps@);
    assert(moves(b, joined.steps@) =~= plan.moves);
    assert forall|i: int| 0 <= i < joined.steps@.len() implies (#[trigger] joined.steps@[i]).within(
        b,
    ) by {
        if i < whole.steps@.len() {
            assert(joined.steps@[i] == whole.steps@[i]);
        } else {
            assert(joined.steps@[i] == part.steps@[i - whole.steps@.len()]);
        }
    }
    assert forall|j: int| 0 <= j < plan.names.len() implies (#[trigger] joined.variables@[j]).name@
        == plan.names[j] && joined.variables@[j].value == first + j by {
        if j < so_far.names.len() {
            assert(joined.variables@[j] == whole.variables@[j]);
        } else {
            assert(joined.variables@[j] == part.variables@[j - so_far.names.len()]);
        }
    }
    assert forall|j: int| 0 <= j < plan.cells.len() implies b.cells[first + j]
        == #[trigger] plan.cells[j] by {
        if j < so_far.cells.len() {
            assert(a.cells[first + j] == so_far.cells[j]);
        } else {
            assert(b.cells[first + so_far.cells.len() + (j - so_far.cells.len())]
                == next.cells[j - so_far.cells.len()]);
        }
    }
}

/// Sets the layers up one after the other, where that can be done: the layer at position
/// `i` under the name `prefix` followed by `i`, each for inputs of the shape of the output
/// of the one before it. The steps and the variables of the whole are those of the layers
/// in order. The terms that are made to find the shapes stay in the arena.
pub fn set_up_all(layers: &Vec<Layer>, arena: &mut Arena, prefix: &str, input_shape: &Vec<usize>) -> (r:
    Option<Instance>)
    requires
        old(arena)@.wf(),
    ensures
        set_up(old(arena)@, final(arena)@),
        r is Some <==> plan_all(
            layers@,
            layers@.len() as int,
            prefix@,
            input_shape@,
            old(arena)@.cells.len() as int,
        ) is Some,
        r matches Some(i) ==> ({
            let planned = plan_all(
                layers@,
                layers@.len() as int,
                prefix@,
                input_shape@,
                old(arena)@.cells.len() as int,
            )->0;
            follows(i, final(arena)@, planned.0, old(arena)@.cells.len() as int)
        }),
    decreases layers, 0nat,
{
    let ghost before = arena@;
    let ghost first = before.cells.len() as int;
    proof {
        lemma_extends_keeps(before, before);
    }
    let n: usize = layers.len();
    let mut shape: Vec<usize> = input_shape.clone();
    let mut whole: Instance = Instance::empty();
    let ghost mut so_far: Plan = Plan::empty();
    proof {
        assert(moves(before, whole.steps@) =~= so_far.moves);
    }
    let mut i: usize = 0;
    while i < n
        invariant
            before == old(arena)@,
            first == before.cells.len(),
            n == layers@.len(),
            i <= n,
            set_up(before, arena@),
            plan_all(layers@, i as int, prefix@, input_shape@, first) == Some((so_far, shape@)),
            follows(whole, arena@, so_far, first),
        decreases n - i,
    {
        let ghost middle = arena@;
        let ghost held = whole;
        let mut name: String = String::from_str(prefix);
        append_decimal(&mut name, i);
        let part: Instance = match layers[i].init(arena, name.as_str(), &shape) {
            Some(part) => part,
            None => {
                proof {
                    lemma_set_up_trans(before, middle, arena@);
                    lemma_plan_all_fails(layers@, i + 1, n as int, prefix@, input_shape@, first);
                }
                return None;
            },
        };
        let ghost a1 = arena@;
        let ghost next = layers@[i as int].plan(name@, shape@, first + so_far.cells.len())->0;
        proof {
            lemma_set_up_trans(before, middle, a1);
        }
        let after: Vec<usize> = match part.output_shape(arena, &shape) {
            Some(after) => after,
            None => {
                proof {
                    lemma_follows_output(
                        part,
                        a1,
                        next,
                        first + so_far.cells.len(),
                        crate::layers::plan::sample(shape@),
                    );
                    lemma_grown_set_up(a1, arena@);
                    lemma_set_up_trans(before, a1, arena@);
                    lemma_plan_all_fails(layers@, i + 1, n as int, prefix@, input_shape@, first);
                }
                return None;
            },
        };
        proof {
            lemma_follows_output(
                part,
                a1,
                next,
                first + so_far.cells.len(),
                crate::layers::plan::sample(shape@),
            );
            lemma_grown_set_up(a1, arena@);
            lemma_set_up_trans(before, a1, arena@);
            lemma_set_up_trans(middle, a1, arena@);
            lemma_follows_keeps(part, a1, arena@, next, first + so_far.cells.len());
        }
        whole = whole.followed_by(part);
        proof {
            lemma_follows_joined(held, part, whole, middle, arena@, so_far, next, first);
            so_far = so_far.followed_by(next);
        }
        shape = after;
        i += 1;
    }
    Some(whole)
}

impl Sequential {
    /// What setting the sequence up under the name `namespace` for inputs of the given
    /// shape comes to, where it can be set up, the first new cell being `first`: the layer
    /// at position `i` is set up under the name of the sequence followed by a slash and
    /// `i`.
    pub open spec fn plan(&self, namespace: Seq<char>, input_shape: Seq<usize>, first: int) -> Option<
        Plan,
    > {
        match plan_all(
            self.layers@,
            self.layers@.len() as int,
            namespace + "/"@,
            input_shape,
            first,
        ) {
            Some((whole, shape)) => Some(whole),
            None => None,
        }
    }

    /// Sets the layers up one after the other, where that can be done; the steps and the
    /// variables of the sequence are those of its layers in order.
    pub fn init(&self, arena: &mut Arena, namespace: &str, input_shape: &Vec<usize>) -> (r: Option<
        Instance,
    >)
        requires
            old(arena)@.wf(),
        ensures
            set_up(old(arena)@, final(arena)@),
            r is Some <==> self.plan(namespace@, input_shape@, old(arena)@.cells.len() as int)
                is Some,
            r matches Some(i) ==> follows(
                i,
                final(arena)@,
                self.plan(namespace@, input_shape@, old(arena)@.cells.len() as int)->0,
                old(arena)@.cells.len() as int,
            ),
        decreases self, 1nat,
    {
        let mut prefix: String = String::from_str(namespace);
        prefix.append("/");
        set_up_all(&self.layers, arena, prefix.as_str(), input_shape)
    }
}

} // verus!

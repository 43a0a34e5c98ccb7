//! Models: networks of layers, made ready for inference or for training.

use vstd::prelude::*;
use crate::algebra::arena::{Arena, ArenaView, Expr};
use crate::algebra::construct::v;
use crate::algebra::kernel::{kernel_ok, kernel_value, lemma_kernel_value, value};
use crate::algebra::operation::{Operation, OperationView};
use crate::algebra::differentiate::lifted;
use crate::algebra::gradient::{gradients, variable};
use crate::algebra::tree::{lemma_extends_keeps, lemma_node, Tree};
use crate::algebra::variable::VariableValue;
use crate::graph::{lemma_wf_extends, Graph};
use crate::layers::plan::{lemma_follows_keeps, lemma_follows_output, Plan};
use crate::layers::sequential::{plan_all, set_up_all, Layer};
use crate::layers::{lemma_grown_set_up, lemma_set_up_trans, set_up, LayerVariable};
use crate::losses::{categorical_cross_entropy, categorical_cross_entropy_of};
use crate::scalar::{is_nan, key, less, less_than};
use crate::shape::{checked_size, fits, same};
use crate::tensor::{shapes, views, Tensor, TensorView, ZERO};

verus! {

/// A loss function.
#[derive(Clone, Copy, Debug, PartialEq, Eq, Structural)]
pub enum Loss {
    /// The categorical cross entropy of the prediction against the target.
    CategoricalCrossEntropy,
}

impl Loss {
    /// The expression of the loss of a prediction against the truth.
    pub open spec fn of(self, prediction: Tree, truth: Tree) -> Tree {
        match self {
            Loss::CategoricalCrossEntropy => categorical_cross_entropy_of(prediction, truth),
        }
    }
}

/// A network of layers that are applied one after the other.
#[derive(Debug)]
pub struct Sequential {
    input_shape: Vec<usize>,
    layers: Vec<Layer>,
}

/// The output of a network from its input, with what it takes to compute it.
struct Built {
    input: usize,
    output: Expr,
    variables: Vec<LayerVariable>,
}

impl Sequential {
    /// A network without layers for inputs of the given shape.
    pub fn new(input_shape: Vec<usize>) -> (r: Sequential)
        ensures
            r.layers() == Seq::<Layer>::empty(),
            r.input() == input_shape@,
    {
        Sequential { input_shape, layers: Vec::new() }
    }

    /// The layers, in order.
    pub closed spec fn layers(&self) -> Seq<Layer> {
        self.layers@
    }

    /// The shape of the inputs.
    pub closed spec fn input(&self) -> Seq<usize> {
        self.input_shape@
    }

    /// Puts `layer` after the layers of the network.
    pub fn add_layer(&mut self, layer: Layer)
        ensures
            final(self).layers() == old(self).layers().push(layer),
            final(self).input() == old(self).input(),
    {
        self.layers.push(layer);
    }

    /// The expression of the input of the network when it is built over an arena of
    /// `first` cells: the variable `i`, which reads the first new cell.
    pub open spec fn input_variable(&self, first: int) -> Tree {
        variable("i"@, first as usize, self.input())
    }

    /// What building the network over an arena of `first` cells comes to, where it can be
    /// built: the first new cell holds the input, and the layer at position `n` is set up
    /// under the name `l` followed by `n`, for inputs of the shape of the output of the
    /// layer before it; the cells of the variables follow the cell of the input.
    pub open spec fn plan(&self, first: int) -> Option<Plan> {
        if fits(self.input()) {
            match plan_all(
                self.layers(),
                self.layers().len() as int,
                "l"@,
                self.input(),
                first + 1,
            ) {
                Some((whole, shape)) => Some(whole),
                None => None,
            }
        } else {
            None
        }
    }

    /// The expression of the output of the network when it is built over an arena of
    /// `first` cells, where it can be built and the output can be formed.
    pub open spec fn output(&self, first: int) -> Option<Tree> {
        match self.plan(first) {
            Some(plan) => plan.output(self.input_variable(first)),
            None => None,
        }
    }

    /// The expression of the target when the network is built for training over an arena
    /// of `first` cells: the variable `t`, which reads the cell after those of the
    /// variables of the layers.
    pub open spec fn target_variable(&self, first: int, target_shape: Seq<usize>) -> Tree {
        variable("t"@, (first + 1 + self.plan(first)->0.cells.len()) as usize, target_shape)
    }

    /// The expression of the loss of the output against the target, where the network can
    /// be built and a machine word holds the number of elements of a target.
    pub open spec fn loss(&self, first: int, target_shape: Seq<usize>, loss: Loss) -> Option<Tree> {
        match self.output(first) {
            Some(output) => if fits(target_shape) {
                Some(loss.of(output, self.target_variable(first, target_shape)))
            } else {
                None
            },
            None => None,
        }
    }

    /// Whether the network can be made ready for training: the loss can be formed and
    /// differentiated, and there is a gradient for each variable of the layers.
    pub open spec fn trainable(&self, first: int, target_shape: Seq<usize>, loss: Loss) -> bool {
        match self.loss(first, target_shape, loss) {
            Some(cost) => match gradients(cost) {
                Some(gathered) => forall|j: int|
                    0 <= j < self.plan(first)->0.names.len() ==> gathered.contains_key(
                        #[trigger] self.plan(first)->0.names[j],
                    ),
                None => false,
            },
            None => false,
        }
    }

    /// Builds the expression of the output.
    fn build(&self, arena: &mut Arena) -> (r: Option<Built>)
        requires
            old(arena)@.wf(),
        ensures
            set_up(old(arena)@, final(arena)@),
            r is Some <==> self.output(old(arena)@.cells.len() as int) is Some,
            r matches Some(b) ==> {
                let first = old(arena)@.cells.len() as int;
                let plan = self.plan(first)->0;
                &&& b.input == first
                &&& final(arena)@.contains(b.output)
                &&& Some(final(arena)@.of(b.output)) == self.output(first)
                &&& final(arena)@.cells.len() == first + 1 + plan.cells.len()
                &&& final(arena)@.cells[first] == TensorView::filled(self.input(), ZERO)
                &&& plan.names.len() == plan.cells.len()
                &&& b.variables@.len() == plan.names.len()
                &&& forall|j: int|
                    0 <= j < plan.names.len() ==> {
                        &&& (#[trigger] b.variables@[j]).name@ == plan.names[j]
                        &&& b.variables@[j].value == first + 1 + j
                        &&& final(arena)@.cells[first + 1 + j] == plan.cells[j]
                    }
            },
    {
        let ghost before = arena@;
        let ghost first = before.cells.len() as int;
        proof {
            lemma_extends_keeps(before, before);
        }
        if checked_size(&self.input_shape).is_none() {
            return None;
        }
        let input: usize = arena.add_cell(
            VariableValue::new(Tensor::zeros(self.input_shape.clone())),
        );
        let ghost a0 = arena@;
        proof {
            lemma_extends_keeps(before, a0);
        }
        let feed: Expr = v(arena, "i", input);
        let ghost a1 = arena@;
        proof {
            lemma_extends_keeps(a0, a1);
            lemma_set_up_trans(before, a0, a1);
            lemma_node(a1, feed);
        }
        let instance = match set_up_all(&self.layers, arena, "l", &self.input_shape) {
            Some(instance) => instance,
            None => {
                proof {
                    lemma_set_up_trans(before, a1, arena@);
                }
                return None;
            },
        };
        let ghost a2 = arena@;
        let ghost plan = self.plan(first)->0;
        proof {
            lemma_set_up_trans(before, a1, a2);
            lemma_follows_output(instance, a2, plan, first + 1, self.input_variable(first));
            assert(a2.of(feed) == self.input_variable(first));
        }
        let output: Expr = match instance.try_expression(arena, feed) {
            Some(output) => output,
            None => {
                proof {
                    lemma_grown_set_up(a2, arena@);
                    lemma_set_up_trans(before, a2, arena@);
                }
                return None;
            },
        };
        proof {
            lemma_grown_set_up(a2, arena@);
            lemma_set_up_trans(before, a2, arena@);
            lemma_follows_keeps(instance, a2, arena@, plan, first + 1);
            assert(arena@.cells[first] == a0.cells[first]);
        }
        Some(Built { input, output, variables: instance.variables })
    }

    /// Makes the network ready for inference, where it can be built: the expression of its
    /// output is built in the arena and registered in an evaluation graph. The input
    /// reads a new cell of zeros.
    pub fn compile_for_inference(self, arena: &mut Arena) -> (r: Option<CompiledInferenceSequential>)
        requires
            old(arena)@.wf(),
        ensures
            set_up(old(arena)@, final(arena)@),
            r is Some <==> self.output(old(arena)@.cells.len() as int) is Some,
            r matches Some(model) ==> {
                let first = old(arena)@.cells.len() as int;
                &&& model.wf(final(arena)@)
                &&& model.passes() == 0
                &&& model.input_cell() == first
                &&& model.input_shape(final(arena)@) == self.input()
                &&& final(arena)@.cells[first] == TensorView::filled(self.input(), ZERO)
                &&& final(arena)@.contains(model.output())
                &&& Some(final(arena)@.of(model.output())) == self.output(first)
            },
    {
        match self.build(arena) {
            Some(built) => {
                let mut graph = Graph::new();
                let output_node_id: usize = graph.add(arena, built.output);
                Some(CompiledInferenceSequential { input: built.input, graph, output_node_id })
            },
            None => None,
        }
    }

    /// Makes the network ready for training, where it can be: the target is the variable
    /// `t`, which reads a new cell of zeros of the given shape; the loss of the output
    /// against the target is differentiated, and the gradient with respect to each
    /// variable of the layers is registered in an evaluation graph, as is the output.
    pub fn compile_for_training(self, arena: &mut Arena, target_shape: Vec<usize>, loss: Loss) -> (r:
        Option<CompiledTrainingSequential>)
        requires
            old(arena)@.wf(),
        ensures
            set_up(old(arena)@, final(arena)@),
            r is Some <==> self.trainable(old(arena)@.cells.len() as int, target_shape@, loss),
            r matches Some(model) ==> {
                let first = old(arena)@.cells.len() as int;
                let plan = self.plan(first)->0;
                let gathered = gradients(self.loss(first, target_shape@, loss)->0)->0;
                &&& model.wf(final(arena)@)
                &&& model.passes() == 0
                &&& model.input_cell() == first
                &&& model.input_shape(final(arena)@) == self.input()
                &&& model.target_cell() == first + 1 + plan.cells.len()
                &&& model.target_shape(final(arena)@) == target_shape@
                &&& final(arena)@.contains(model.output())
                &&& Some(final(arena)@.of(model.output())) == self.output(first)
                &&& model.variable_cells() == Seq::new(
                    plan.names.len(),
                    |j: int| first + 1 + j,
                )
                &&& model.variable_names() == plan.names
                &&& model.gradients().len() == plan.names.len()
                &&& forall|j: int|
                    0 <= j < plan.names.len() ==> final(arena)@.contains(
                        #[trigger] model.gradients()[j],
                    ) && final(arena)@.of(model.gradients()[j]) == gathered[plan.names[j]]
            },
    {
        let ghost before = arena@;
        let ghost first = before.cells.len() as int;
        let built = match self.build(arena) {
            Some(built) => built,
            None => {
                return None;
            },
        };
        let ghost a1 = arena@;
        let ghost plan = self.plan(first)->0;
        if checked_size(&target_shape).is_none() {
            return None;
        }
        let target: usize = arena.add_cell(VariableValue::new(Tensor::zeros(target_shape)));
        let ghost a2 = arena@;
        proof {
            lemma_extends_keeps(a1, a2);
            lemma_set_up_trans(before, a1, a2);
        }
        let truth: Expr = v(arena, "t", target);
        let ghost a3 = arena@;
        proof {
            lemma_extends_keeps(a2, a3);
            lemma_set_up_trans(before, a2, a3);
            lemma_node(a3, truth);
            assert(a3.of(truth) == self.target_variable(first, target_shape@));
        }
        let cost: Expr = match loss {
            Loss::CategoricalCrossEntropy => categorical_cross_entropy(arena, built.output, truth),
        };
        let ghost a4 = arena@;
        let ghost cost_tree = self.loss(first, target_shape@, loss)->0;
        proof {
            lemma_grown_set_up(a3, a4);
            lemma_set_up_trans(before, a3, a4);
            assert(a4.of(cost) == cost_tree);
        }
        let table = match cost.try_gradients(arena) {
            Some(table) => table,
            None => {
                proof {
                    lemma_grown_set_up(a4, arena@);
                    lemma_set_up_trans(before, a4, arena@);
                }
                return None;
            },
        };
        let ghost a5 = arena@;
        let ghost gathered = gradients(cost_tree)->0;
        proof {
            lemma_grown_set_up(a4, a5);
            lemma_set_up_trans(before, a4, a5);
            assert(gathered =~= lifted(a5, table@));
        }
        let mut graph = Graph::new();
        let mut trainable_variables: Vec<TrainableVariable> = Vec::new();
        let n: usize = built.variables.len();
        let mut i: usize = 0;
        while i < n
            invariant
                n == built.variables@.len(),
                n == plan.names.len(),
                i <= n,
                a5 == arena@,
                a5.wf(),
                before == old(arena)@,
                first == before.cells.len(),
                set_up(before, a5),
                self.plan(first) == Some(plan),
                self.loss(first, target_shape@, loss) == Some(cost_tree),
                gradients(cost_tree) == Some(gathered),
                a5.contains(built.output),
                a5.cells.len() == first + 2 + plan.cells.len(),
                plan.names.len() == plan.cells.len(),
                graph@.wf(a5),
                graph@.generation == 0,
                table.wf(),
                crate::algebra::differentiate::held_in(a5, table@),
                gathered == lifted(a5, table@),
                forall|j: int|
                    0 <= j < n ==> (#[trigger] built.variables@[j]).name@ == plan.names[j]
                        && built.variables@[j].value == first + 1 + j,
                trainable_variables@.len() == i,
                forall|j: int|
                    0 <= j < i ==> {
                        &&& (#[trigger] trainable_variables@[j]).value == first + 1 + j
                        &&& trainable_variables@[j].name@ == plan.names[j]
                        &&& trainable_variables@[j].gradient_node_id < graph@.nodes.len()
                        &&& a5.contains(graph@.nodes[trainable_variables@[j].gradient_node_id as int].expr)
                        &&& a5.of(graph@.nodes[trainable_variables@[j].gradient_node_id as int].expr)
                            == gathered[plan.names[j]]
                        &&& gathered.contains_key(plan.names[j])
                    },
            decreases n - i,
        {
            let found = match table.get(built.variables[i].name.as_str()) {
                Some(found) => found,
                None => {
                    proof {
                        assert(!gathered.contains_key(plan.names[i as int]));
                    }
                    return None;
                },
            };
            let ghost held = graph@;
            let gradient_node_id: usize = graph.add(arena, found);
            proof {
                assert forall|j: int| 0 <= j < i implies graph@.nodes[trainable_variables@[j].gradient_node_id as int]
                    == held.nodes[trainable_variables@[j].gradient_node_id as int] by {}
            }
            trainable_variables.push(
                TrainableVariable {
                    name: built.variables[i].name.clone(),
                    value: built.variables[i].value,
                    gradient_node_id,
                },
            );
            i += 1;
        }
        let ghost held = graph@;
        let output_node_id: usize = graph.add(arena, built.output);
        let model = CompiledTrainingSequential {
            input: built.input,
            target,
            trainable_variables,
            graph,
            output_node_id,
        };
        proof {
            assert forall|j: int| 0 <= j < n implies model.graph@.nodes[model.trainable_variables@[j].gradient_node_id as int]
                == held.nodes[model.trainable_variables@[j].gradient_node_id as int] by {}
            assert(model.variable_cells() =~= Seq::new(plan.names.len(), |j: int| first + 1 + j));
            assert(model.variable_names() =~= plan.names);
            assert forall|j: int| 0 <= j < plan.names.len() implies gathered.contains_key(
                #[trigger] plan.names[j],
            ) by {
                assert(model.trainable_variables@[j].value == first + 1 + j);
            }
            assert(self.trainable(first, target_shape@, loss));
            assert(a5.cells[first] == a1.cells[first]);
        }
        Some(model)
    }
}

/// The position that a search for the greatest element has selected after looking at the
/// first `upto` elements, and the element there: the search starts at position zero with
/// the number zero, and moves on to each element that is greater than what it has.
pub open spec fn selection(data: Seq<u32>, upto: int) -> (int, u32)
    decreases upto,
{
    if upto <= 0 || upto > data.len() {
        (0, ZERO)
    } else {
        let so_far = selection(data, upto - 1);
        if less(so_far.1, data[upto - 1]) {
            (upto - 1, data[upto - 1])
        } else {
            so_far
        }
    }
}

/// The position of the first of the greatest elements of `a`, where one of them is
/// greater than zero; zero where none is.
pub fn max_index(a: &Tensor) -> (r: usize)
    ensures
        r == selection(a@.data, a@.data.len() as int).0,
        a@.data.len() > 0 ==> r < a@.data.len(),
{
    let n: usize = a.len();
    let mut selected: usize = 0;
    let mut score: u32 = ZERO;
    let mut i: usize = 0;
    while i < n
        invariant
            n == a@.data.len(),
            i <= n,
            selection(a@.data, i as int) == (selected as int, score),
            i > 0 ==> selected < i,
            i == 0 ==> selected == 0,
        decreases n - i,
    {
        if less_than(score, a.data()[i]) {
            selected = i;
            score = a.data()[i];
        }
        i += 1;
    }
    selected
}

/// What the search for the greatest element selects, where every element is a number:
/// nothing before the selected position is as great as the element there, nothing after it
/// is greater, and the element is greater than zero unless no element is.
pub proof fn lemma_selection_is_greatest(data: Seq<u32>, upto: int)
    requires
        0 <= upto <= data.len(),
        forall|j: int| 0 <= j < data.len() ==> !is_nan(#[trigger] data[j]),
    ensures
        ({
            let found = selection(data, upto);
            &&& !is_nan(found.1)
            &&& key(found.1) >= 0
            &&& forall|j: int| 0 <= j < upto ==> key(#[trigger] data[j]) <= key(found.1)
            &&& key(found.1) > 0 ==> 0 <= found.0 < upto && data[found.0] == found.1 && forall|
                j: int,
            | 0 <= j < found.0 ==> key(#[trigger] data[j]) < key(found.1)
            &&& key(found.1) == 0 ==> found.0 == 0
        }),
    decreases upto,
{
    if upto > 0 {
        lemma_selection_is_greatest(data, upto - 1);
        let so_far = selection(data, upto - 1);
        assert(!is_nan(data[upto - 1]));
    }
}

/// A variable that training changes: its name, its cell, and the entry of the evaluation
/// graph that holds the gradient of the loss with respect to it.
#[derive(Debug)]
pub struct TrainableVariable {
    pub name: String,
    pub value: usize,
    pub gradient_node_id: usize,
}

/// A network that is ready for inference.
pub struct CompiledInferenceSequential {
    input: usize,
    graph: Graph,
    output_node_id: usize,
}

impl CompiledInferenceSequential {
    /// The invariant of the model over the arena that it was built in.
    pub closed spec fn wf(&self, a: ArenaView) -> bool {
        &&& self.input < a.cells.len()
        &&& self.graph@.wf(a)
        &&& self.output_node_id < self.graph@.nodes.len()
    }

    /// The shape of the inputs.
    pub closed spec fn input_shape(&self, a: ArenaView) -> Seq<usize> {
        a.cells[self.input as int].shape
    }

    /// The cell that holds the input.
    pub closed spec fn input_cell(&self) -> int {
        self.input as int
    }

    /// The expression of the output.
    pub closed spec fn output(&self) -> Expr {
        self.graph@.nodes[self.output_node_id as int].expr
    }

    /// The number of passes that the model made.
    pub closed spec fn passes(&self) -> nat {
        self.graph@.generation as nat
    }

    /// The cell that holds the input.
    pub fn input(&self) -> (r: usize)
        ensures
            r == self.input_cell(),
    {
        self.input
    }

    /// The number of passes that the model made.
    pub fn generation(&self) -> (r: usize)
        ensures
            r == self.passes(),
    {
        self.graph.generation()
    }

    /// The output of the network for `input`: the input is put into its cell, a pass is
    /// made over the output in the evaluation graph, and what the pass computed for the
    /// output is returned, the value of the expression of the output.
    pub fn predict<K: Fn(&Operation, &Vec<Tensor>) -> Tensor>(
        &mut self,
        arena: &mut Arena,
        input: Tensor,
        kernel: &K,
    ) -> (r: Tensor)
        requires
            old(arena)@.wf(),
            old(self).wf(old(arena)@),
            old(self).passes() < usize::MAX,
            kernel_ok(*kernel),
            input@.wf(),
            input@.shape == old(self).input_shape(old(arena)@),
        ensures
            final(arena)@.wf(),
            final(arena)@.terms == old(arena)@.terms,
            final(arena)@.cells == old(arena)@.cells.update(old(self).input_cell(), input@),
            final(self).wf(final(arena)@),
            final(self).output() == old(self).output(),
            final(self).input_cell() == old(self).input_cell(),
            final(self).passes() == old(self).passes() + 1,
            r@ == value(final(arena)@.of(final(self).output()), final(arena)@.cells, *kernel),
    {
        let ghost before = arena@;
        arena.set(self.input, input);
        proof {
            lemma_wf_extends(self.graph@, before, arena@);
        }
        let mut ids: Vec<usize> = Vec::new();
        ids.push(self.output_node_id);
        let computed = self.graph.eval_nodes(arena, ids, kernel);
        proof {
            assert(self.graph@.fresh(ids@[0] as int));
        }
        self.graph.node_output(self.output_node_id).copy()
    }
}

/// A network that is ready for training.
pub struct CompiledTrainingSequential {
    input: usize,
    target: usize,
    trainable_variables: Vec<TrainableVariable>,
    graph: Graph,
    output_node_id: usize,
}

/// The value of a variable after a step of gradient descent: the value less the gradient
/// times the learning rate.
pub open spec fn descended<K: Fn(&Operation, &Vec<Tensor>) -> Tensor>(
    k: K,
    held: TensorView,
    gradient: TensorView,
    learning_rate: u32,
) -> TensorView {
    kernel_value(
        k,
        OperationView::Sub,
        seq![
            held,
            kernel_value(
                k,
                OperationView::Mul,
                seq![gradient, TensorView::filled(Seq::empty(), learning_rate)],
            ),
        ],
    )
}

/// The values of the expressions `gradients` over the arena `a`, in order.
pub open spec fn gradient_values<K: Fn(&Operation, &Vec<Tensor>) -> Tensor>(
    a: ArenaView,
    gradients: Seq<Expr>,
    k: K,
) -> Seq<TensorView> {
    Seq::new(gradients.len(), |j: int| value(a.of(gradients[j]), a.cells, k))
}

/// What the cells hold after the first `upto` of the variables in `variables` were moved
/// in turn, each against its gradient in `gradients`: a variable whose gradient has the
/// shape of what its cell holds descends, any other stays.
pub open spec fn trained<K: Fn(&Operation, &Vec<Tensor>) -> Tensor>(
    k: K,
    cells: Seq<TensorView>,
    variables: Seq<int>,
    gradients: Seq<TensorView>,
    learning_rate: u32,
    upto: int,
) -> Seq<TensorView>
    decreases upto,
{
    if upto <= 0 {
        cells
    } else {
        let so_far = trained(k, cells, variables, gradients, learning_rate, upto - 1);
        let cell = variables[upto - 1];
        let gradient = gradients[upto - 1];
        if gradient.shape == so_far[cell].shape {
            so_far.update(cell, descended(k, so_far[cell], gradient, learning_rate))
        } else {
            so_far
        }
    }
}

/// How many of the first `upto` variables were moved.
pub open spec fn moves<K: Fn(&Operation, &Vec<Tensor>) -> Tensor>(
    k: K,
    cells: Seq<TensorView>,
    variables: Seq<int>,
    gradients: Seq<TensorView>,
    learning_rate: u32,
    upto: int,
) -> nat
    decreases upto,
{
    if upto <= 0 {
        0
    } else {
        let so_far = trained(k, cells, variables, gradients, learning_rate, upto - 1);
        let moved: nat = if gradients[upto - 1].shape == so_far[variables[upto - 1]].shape {
            1
        } else {
            0
        };
        moves(k, cells, variables, gradients, learning_rate, upto - 1) + moved
    }
}

/// Moves the value of the cell `cell` against `gradient` by the learning rate, where both
/// have the same shape; says whether they have.
pub fn descend<K: Fn(&Operation, &Vec<Tensor>) -> Tensor>(
    arena: &mut Arena,
    cell: usize,
    gradient: &Tensor,
    learning_rate: u32,
    kernel: &K,
) -> (moved: bool)
    requires
        old(arena)@.wf(),
        cell < old(arena)@.cells.len(),
        gradient@.wf(),
        kernel_ok(*kernel),
    ensures
        final(arena)@.wf(),
        final(arena)@.terms == old(arena)@.terms,
        moved <==> gradient@.shape == old(arena)@.cells[cell as int].shape,
        moved ==> final(arena)@.cells == old(arena)@.cells.update(
            cell as int,
            descended(*kernel, old(arena)@.cells[cell as int], gradient@, learning_rate),
        ),
        !moved ==> final(arena)@ == old(arena)@,
{
    let held = arena.cell(cell).get();
    if !same(gradient.shape(), held.shape()) {
        return false;
    }
    let rate = Tensor::scalar(learning_rate);
    let factors: Vec<Tensor> = vec![gradient.copy(), rate];
    let times = Operation::Mul;
    proof {
        assert(old(arena)@.cells[cell as int].wf());
        assert(views(factors@) =~= seq![
            gradient@,
            TensorView::filled(Seq::empty(), learning_rate),
        ]);
        assert(shapes(views(factors@)) =~= seq![gradient@.shape, Seq::<usize>::empty()]);
    }
    let step = kernel(&times, &factors);
    proof {
        lemma_kernel_value(*kernel, times, factors, step);
    }
    let operands: Vec<Tensor> = vec![held, step];
    let minus = Operation::Sub;
    proof {
        assert(views(operands@) =~= seq![old(arena)@.cells[cell as int], step@]);
        assert(shapes(views(operands@)) =~= seq![gradient@.shape, step@.shape]);
    }
    let next = kernel(&minus, &operands);
    proof {
        lemma_kernel_value(*kernel, minus, operands, next);
        assert(next@.shape =~= old(arena)@.cells[cell as int].shape);
    }
    arena.set(cell, next);
    true
}

impl CompiledTrainingSequential {
    /// The invariant of the model over the arena that it was built in.
    pub closed spec fn wf(&self, a: ArenaView) -> bool {
        &&& self.input < a.cells.len()
        &&& self.target < a.cells.len()
        &&& self.graph@.wf(a)
        &&& self.output_node_id < self.graph@.nodes.len()
        &&& forall|j: int|
            0 <= j < self.trainable_variables@.len() ==> {
                &&& (#[trigger] self.trainable_variables@[j]).value < a.cells.len()
                &&& self.trainable_variables@[j].gradient_node_id < self.graph@.nodes.len()
            }
    }

    /// The shape of the inputs.
    pub closed spec fn input_shape(&self, a: ArenaView) -> Seq<usize> {
        a.cells[self.input as int].shape
    }

    /// The shape of the targets.
    pub closed spec fn target_shape(&self, a: ArenaView) -> Seq<usize> {
        a.cells[self.target as int].shape
    }

    /// The cell that holds the target.
    pub closed spec fn target_cell(&self) -> int {
        self.target as int
    }

    /// The cell that holds the input.
    pub closed spec fn input_cell(&self) -> int {
        self.input as int
    }

    /// The expression of the output.
    pub closed spec fn output(&self) -> Expr {
        self.graph@.nodes[self.output_node_id as int].expr
    }

    /// The number of passes that the model made.
    pub closed spec fn passes(&self) -> nat {
        self.graph@.generation as nat
    }

    /// The number of variables that training changes.
    pub closed spec fn variable_count(&self) -> nat {
        self.trainable_variables@.len()
    }

    /// The cells of the variables that training changes, in the order in which it
    /// changes them.
    pub closed spec fn variable_cells(&self) -> Seq<int> {
        Seq::new(
            self.trainable_variables@.len(),
            |j: int| self.trainable_variables@[j].value as int,
        )
    }

    /// The names of those variables, in the same order.
    pub closed spec fn variable_names(&self) -> Seq<Seq<char>> {
        Seq::new(self.trainable_variables@.len(), |j: int| self.trainable_variables@[j].name@)
    }

    /// The gradients of the loss with respect to those variables, in the same order.
    pub closed spec fn gradients(&self) -> Seq<Expr> {
        Seq::new(
            self.trainable_variables@.len(),
            |j: int| self.graph@.nodes[self.trainable_variables@[j].gradient_node_id as int].expr,
        )
    }

    /// The arena `a` with a sample in the cells of the input and of the target.
    pub closed spec fn fed(&self, a: ArenaView, input: TensorView, target: TensorView) -> ArenaView {
        ArenaView {
            terms: a.terms,
            cells: a.cells.update(self.input as int, input).update(self.target as int, target),
        }
    }

    /// The variables that training changes.
    pub fn trainable_variables(&self) -> (r: &Vec<TrainableVariable>)
        ensures
            r@.len() == self.variable_count(),
            self.variable_names() == Seq::new(r@.len(), |j: int| r@[j].name@),
            self.variable_cells() == Seq::new(r@.len(), |j: int| r@[j].value as int),
    {
        &self.trainable_variables
    }

    /// The cell that holds the input.
    pub fn input(&self) -> (r: usize)
        ensures
            r == self.input_cell(),
    {
        self.input
    }

    /// The number of passes that the model made.
    pub fn generation(&self) -> (r: usize)
        ensures
            r == self.passes(),
    {
        self.graph.generation()
    }

    /// The cell that holds the target.
    pub fn target(&self) -> (r: usize)
        ensures
            r == self.target_cell(),
    {
        self.target
    }

    /// The output of the network for `input`: the input is put into its cell, a pass is
    /// made over the output in the evaluation graph, and what the pass computed for the
    /// output is returned, the value of the expression of the output.
    pub fn predict<K: Fn(&Operation, &Vec<Tensor>) -> Tensor>(
        &mut self,
        arena: &mut Arena,
        input: Tensor,
        kernel: &K,
    ) -> (r: Tensor)
        requires
            old(arena)@.wf(),
            old(self).wf(old(arena)@),
            old(self).passes() < usize::MAX,
            kernel_ok(*kernel),
            input@.wf(),
            input@.shape == old(self).input_shape(old(arena)@),
        ensures
            final(arena)@.wf(),
            final(arena)@.terms == old(arena)@.terms,
            final(arena)@.cells == old(arena)@.cells.update(old(self).input_cell(), input@),
            final(self).wf(final(arena)@),
            final(self).output() == old(self).output(),
            final(self).target_cell() == old(self).target_cell(),
            final(self).variable_cells() == old(self).variable_cells(),
            final(self).variable_names() == old(self).variable_names(),
            final(self).gradients() == old(self).gradients(),
            final(self).input_cell() == old(self).input_cell(),
            final(self).passes() == old(self).passes() + 1,
            r@ == value(final(arena)@.of(final(self).output()), final(arena)@.cells, *kernel),
    {
        let ghost before = arena@;
        arena.set(self.input, input);
        proof {
            lemma_wf_extends(self.graph@, before, arena@);
        }
        let mut ids: Vec<usize> = Vec::new();
        ids.push(self.output_node_id);
        let computed = self.graph.eval_nodes(arena, ids, kernel);
        proof {
            assert(self.graph@.fresh(ids@[0] as int));
        }
        self.graph.node_output(self.output_node_id).copy()
    }

    /// One step of stochastic gradient descent on one sample: the input and the target are
    /// put into their cells, a pass is made over the gradients in the evaluation graph,
    /// and each variable in turn is moved against its gradient by the learning rate, given
    /// as the bit pattern of a single-precision number. Returns the number of variables
    /// that were moved: a variable whose gradient has another shape than the variable
    /// stays.
    pub fn train_on<K: Fn(&Operation, &Vec<Tensor>) -> Tensor>(
        &mut self,
        arena: &mut Arena,
        input: Tensor,
        target: Tensor,
        learning_rate: u32,
        kernel: &K,
    ) -> (moved: usize)
        requires
            old(arena)@.wf(),
            old(self).wf(old(arena)@),
            old(self).passes() < usize::MAX,
            kernel_ok(*kernel),
            input@.wf(),
            input@.shape == old(self).input_shape(old(arena)@),
            target@.wf(),
            target@.shape == old(self).target_shape(old(arena)@),
        ensures
            final(arena)@.wf(),
            final(arena)@.terms == old(arena)@.terms,
            final(self).wf(final(arena)@),
            final(self).output() == old(self).output(),
            final(self).input_cell() == old(self).input_cell(),
            final(self).target_cell() == old(self).target_cell(),
            final(self).variable_cells() == old(self).variable_cells(),
            final(self).variable_names() == old(self).variable_names(),
            final(self).gradients() == old(self).gradients(),
            final(self).passes() == old(self).passes() + 1,
            ({
                let fed = old(self).fed(old(arena)@, input@, target@);
                let found = gradient_values(fed, old(self).gradients(), *kernel);
                let cells = old(self).variable_cells();
                &&& final(arena)@.cells == trained(
                    *kernel,
                    fed.cells,
                    cells,
                    found,
                    learning_rate,
                    cells.len() as int,
                )
                &&& moved == moves(*kernel, fed.cells, cells, found, learning_rate, cells.len() as int)
            }),
    {
        let ghost before = arena@;
        arena.set(self.input, input);
        arena.set(self.target, target);
        let ghost fed = arena@;
        proof {
            lemma_wf_extends(self.graph@, before, fed);
            assert(fed == old(self).fed(before, input@, target@));
        }
        let n: usize = self.trainable_variables.len();
        let mut ids: Vec<usize> = Vec::new();
        let mut i: usize = 0;
        while i < n
            invariant
                n == self.trainable_variables@.len(),
                i <= n,
                ids@.len() == i,
                self.wf(arena@),
                forall|j: int|
                    0 <= j < i ==> (#[trigger] ids@[j])
                        == self.trainable_variables@[j].gradient_node_id,
                forall|j: int| 0 <= j < ids@.len() ==> (#[trigger] ids@[j]) < self.graph@.nodes.len(),
            decreases n - i,
        {
            ids.push(self.trainable_variables[i].gradient_node_id);
            i += 1;
        }
        let ghost wanted = ids@;
        let computed = self.graph.eval_nodes(arena, ids, kernel);
        let ghost cells = old(self).variable_cells();
        let ghost found = gradient_values(fed, old(self).gradients(), *kernel);
        proof {
            assert(self.variable_cells() =~= cells);
            assert(self.gradients() =~= old(self).gradients());
            assert forall|j: int| 0 <= j < n implies self.graph@.nodes[self.trainable_variables@[j].gradient_node_id as int].output
                == #[trigger] found[j] by {
                let node = self.trainable_variables@[j].gradient_node_id as int;
                assert(wanted[j] == node);
                assert(self.graph@.fresh(wanted[j] as int));
                assert(self.graph@.cached(fed, *kernel, node));
            }
        }
        let mut moved: usize = 0;
        let mut j: usize = 0;
        while j < n
            invariant
                n == self.trainable_variables@.len(),
                n == cells.len(),
                n == found.len(),
                j <= n,
                moved <= j,
                arena@.wf(),
                arena@.terms == before.terms,
                arena@.cells.len() == before.cells.len(),
                self.wf(arena@),
                self.output() == old(self).output(),
                self.input_cell() == old(self).input_cell(),
                self.target_cell() == old(self).target_cell(),
                self.variable_cells() == cells,
                self.gradients() == old(self).gradients(),
                self.passes() == old(self).passes() + 1,
                kernel_ok(*kernel),
                forall|p: int|
                    0 <= p < n ==> self.graph@.nodes[self.trainable_variables@[p].gradient_node_id as int].output
                        == #[trigger] found[p],
                arena@.cells == trained(*kernel, fed.cells, cells, found, learning_rate, j as int),
                moved == moves(*kernel, fed.cells, cells, found, learning_rate, j as int),
            decreases n - j,
        {
            let ghost middle = arena@;
            let cell: usize = self.trainable_variables[j].value;
            let node: usize = self.trainable_variables[j].gradient_node_id;
            proof {
                assert(self.graph@.node_wf(middle, node as int));
                assert(cells[j as int] == cell);
                assert(self.graph@.nodes[node as int].output == found[j as int]);
            }
            if descend(arena, cell, self.graph.node_output(node), learning_rate, kernel) {
                moved += 1;
            }
            proof {
                lemma_wf_extends(self.graph@, middle, arena@);
            }
            j += 1;
        }
        moved
    }
}

impl CompiledInferenceSequential {
    /// The input has the shape of what its cell holds, and the cell is a cell of the
    /// arena.
    pub proof fn lemma_input(&self, a: ArenaView)
        requires
            self.wf(a),
        ensures
            0 <= self.input_cell() < a.cells.len(),
            self.input_shape(a) == a.cells[self.input_cell()].shape,
    {
    }
}

impl CompiledTrainingSequential {
    /// The input and the target have the shapes of what their cells hold, and the cells
    /// are cells of the arena.
    pub proof fn lemma_cells(&self, a: ArenaView)
        requires
            self.wf(a),
        ensures
            0 <= self.input_cell() < a.cells.len(),
            0 <= self.target_cell() < a.cells.len(),
            self.input_shape(a) == a.cells[self.input_cell()].shape,
            self.target_shape(a) == a.cells[self.target_cell()].shape,
    {
    }
}

} // verus!

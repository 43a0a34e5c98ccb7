//! Layers: the building blocks of a network, each of which turns the expression of its
//! input into the expression of its output and owns the variables that it reads.

pub mod batch_normalization;
pub mod conv2d;
pub mod dense;
pub mod flatten;
pub mod global_average_pooling_2d;
pub mod lambda;
pub mod plan;
pub mod reshape;
pub mod residual;
pub mod sequential;

pub use batch_normalization::BatchNormalization;
pub use conv2d::Conv2D;
pub use dense::{Dense, DenseInstance};
pub use flatten::{Flatten, FlattenInstance};
pub use global_average_pooling_2d::GlobalAveragePooling2D;
pub use lambda::Lambda;
pub use reshape::Reshape;
pub use residual::Residual;
pub use sequential::{Layer, Sequential};

use vstd::prelude::*;
use vstd::string::StringExecFns;
use crate::activations::{leaky_relu, leaky_relu_of, linear, relu, relu_of, softmax};
use crate::algebra::arena::{Arena, ArenaView, Expr};
use crate::algebra::construct::{elementwise, held, mapped, try_binary, try_unary, v};
use crate::algebra::gradient::number;
use crate::algebra::operation::{Operation, OperationView, Padding};
use crate::algebra::tree::{lemma_extends_keeps, lemma_grown_trans, lemma_node, Tree};
use crate::algebra::variable::VariableValue;
use crate::shape::{checked_size, fits};
use crate::tensor::{Tensor, TensorView, ZERO};

verus! {

/// A variable of a layer: its name and the cell that holds its value.
#[derive(Clone, Debug)]
pub struct LayerVariable {
    pub name: String,
    pub value: usize,
}

/// Makes the variables of a layer, each named after the layer.
pub struct LayerVariablesBuilder {
    pub namespace: String,
    pub variables: Vec<LayerVariable>,
}

/// The name of the variable `name` of the layer `namespace`: the two joined by a dot.
pub open spec fn qualified(namespace: Seq<char>, name: Seq<char>) -> Seq<char> {
    namespace + "."@ + name
}

impl LayerVariablesBuilder {
    /// A builder for the layer named `namespace`, without variables.
    pub fn new(namespace: &str) -> (r: LayerVariablesBuilder)
        ensures
            r.namespace@ == namespace@,
            r.variables@.len() == 0,
    {
        LayerVariablesBuilder { namespace: String::from_str(namespace), variables: Vec::new() }
    }

    /// Makes the variable `name` of the layer with the value `init`: a new cell of the arena
    /// holds the value, the variable is recorded, and the expression that reads it is
    /// returned.
    pub fn append(&mut self, arena: &mut Arena, name: &str, init: Tensor) -> (e: Expr)
        requires
            old(arena)@.wf(),
            init@.wf(),
        ensures
            final(arena)@.wf(),
            final(arena)@.extends(old(arena)@),
            final(arena)@.keeps(old(arena)@),
            final(arena)@.cells == old(arena)@.cells.push(init@),
            final(arena)@.contains(e),
            final(arena)@.of(e) == Tree::leaf(
                OperationView::Variable {
                    name: qualified(old(self).namespace@, name@),
                    cell: old(arena)@.cells.len() as usize,
                    shape: init@.shape,
                },
            ),
            final(self).namespace == old(self).namespace,
            final(self).variables@.len() == old(self).variables@.len() + 1,
            forall|i: int|
                0 <= i < old(self).variables@.len() ==> final(self).variables@[i] == old(
                    self,
                ).variables@[i],
            final(self).variables@.last().name@ == qualified(old(self).namespace@, name@),
            final(self).variables@.last().value == old(arena)@.cells.len(),
    {
        let mut full: String = self.namespace.clone();
        full.append(".");
        full.append(name);
        let cell: usize = arena.add_cell(VariableValue::new(init));
        let ghost middle = arena@;
        let e = v(arena, full.as_str(), cell);
        proof {
            lemma_extends_keeps(old(arena)@, arena@);
        }
        self.variables.push(LayerVariable { name: full, value: cell });
        e
    }
}

/// Makes the variables of a layer, each named after the layer and numbered in the order in
/// which they are made.
pub struct TrainableVariablesBuilder {
    pub namespace: String,
    pub trainable_variables: Vec<LayerVariable>,
}

/// The name of the variable with the number `n` of the layer `namespace`: the name of the
/// layer, a dot, the letter `v`, and the number.
pub open spec fn numbered_variable(namespace: Seq<char>, n: nat) -> Seq<char> {
    namespace + ".v"@ + crate::algebra::display::decimal_text(n)
}

impl TrainableVariablesBuilder {
    /// A builder for the layer named `namespace`, without variables.
    pub fn new(namespace: &str) -> (r: TrainableVariablesBuilder)
        ensures
            r.namespace@ == namespace@,
            r.trainable_variables@.len() == 0,
    {
        TrainableVariablesBuilder {
            namespace: String::from_str(namespace),
            trainable_variables: Vec::new(),
        }
    }

    /// Makes the next variable of the layer with the value `init`: a new cell of the arena
    /// holds the value, the variable is recorded under its number, and the expression that
    /// reads it is returned.
    pub fn append(&mut self, arena: &mut Arena, init: Tensor) -> (e: Expr)
        requires
            old(arena)@.wf(),
            init@.wf(),
        ensures
            final(arena)@.wf(),
            final(arena)@.extends(old(arena)@),
            final(arena)@.keeps(old(arena)@),
            final(arena)@.cells == old(arena)@.cells.push(init@),
            final(arena)@.contains(e),
            final(arena)@.of(e) == Tree::leaf(
                OperationView::Variable {
                    name: numbered_variable(
                        old(self).namespace@,
                        old(self).trainable_variables@.len(),
                    ),
                    cell: old(arena)@.cells.len() as usize,
                    shape: init@.shape,
                },
            ),
            final(self).namespace == old(self).namespace,
            final(self).trainable_variables@.len() == old(self).trainable_variables@.len() + 1,
            forall|i: int|
                0 <= i < old(self).trainable_variables@.len() ==> final(self).trainable_variables@[i]
                    == old(self).trainable_variables@[i],
            final(self).trainable_variables@.last().name@ == numbered_variable(
                old(self).namespace@,
                old(self).trainable_variables@.len(),
            ),
            final(self).trainable_variables@.last().value == old(arena)@.cells.len(),
    {
        let mut full: String = self.namespace.clone();
        full.append(".v");
        crate::algebra::display::append_decimal(&mut full, self.trainable_variables.len());
        let cell: usize = arena.add_cell(VariableValue::new(init));
        let e = v(arena, full.as_str(), cell);
        proof {
            lemma_extends_keeps(old(arena)@, arena@);
        }
        self.trainable_variables.push(LayerVariable { name: full, value: cell });
        e
    }
}

/// An activation function.
#[derive(Clone, Copy, Debug, PartialEq, Eq, Structural)]
pub enum Activation {
    /// The input itself.
    Linear,
    /// The greater of the input and zero.
    Relu,
    /// The input where it is not less than zero, and `alpha` times the input elsewhere;
    /// `alpha` is the bit pattern of a single-precision number.
    LeakyRelu { alpha: u32 },
    /// The softmax of the input.
    Softmax,
}

impl Activation {
    /// The expression that the activation makes of `x`.
    pub open spec fn of(self, x: Tree) -> Tree {
        match self {
            Activation::Linear => x,
            Activation::Relu => relu_of(x),
            Activation::LeakyRelu { alpha } => leaky_relu_of(alpha, x),
            Activation::Softmax => Tree::unary(OperationView::Softmax, x),
        }
    }

    /// Applies the activation to `input`.
    pub fn apply(&self, arena: &mut Arena, input: Expr) -> (r: Expr)
        requires
            old(arena)@.wf(),
            old(arena)@.contains(input),
        ensures
            final(arena)@.grown(old(arena)@),
            final(arena)@.contains(r),
            final(arena)@.of(r) == self.of(old(arena)@.of(input)),
    {
        proof {
            lemma_extends_keeps(arena@, arena@);
        }
        match self {
            Activation::Linear => linear(input),
            Activation::Relu => relu(arena, input),
            Activation::LeakyRelu { alpha } => leaky_relu(arena, *alpha, input),
            Activation::Softmax => softmax(arena, input),
        }
    }
}

/// One step of the way from the input of a layer to its output.
#[derive(Debug)]
pub enum Step {
    /// The product of the matrix `weights` and the value.
    MatVecMul { weights: Expr },
    /// The sum of the value and `term`.
    Add { term: Expr },
    /// The sum of the value and `term` repeated up to the shape of the value.
    AddBroadcast { term: Expr },
    /// The convolution of the value with `kernel`.
    Conv2D { kernel: Expr, stride: usize, padding: Padding },
    /// The value under another shape.
    Reshape { shape: Vec<usize> },
    /// The mean over the first two axes of the value, which has `channels` channels on its
    /// third: the sums over those axes, as a vector, divided by `count`, the number of
    /// positions on them as the bit pattern of a single-precision number.
    Pool { channels: usize, count: u32 },
    /// The value scaled and shifted by the statistics of a batch normalization, each
    /// repeated up to `shape`.
    Normalize {
        beta: Expr,
        gamma: Expr,
        moving_mean: Expr,
        moving_variance: Expr,
        epsilon: u32,
        shape: Vec<usize>,
    },
    /// An activation of the value.
    Activate { activation: Activation },
    /// The value is kept aside, and stays the value.
    Remember,
    /// The sum of the value and the value that was kept aside last.
    AddRemembered,
}

/// The scale of a batch normalization: `gamma` over the square root of the variance and
/// `epsilon`.
pub open spec fn normalize_scale(gamma: Tree, moving_variance: Tree, epsilon: u32) -> Tree {
    Tree::binary(
        OperationView::Div,
        gamma,
        Tree::unary(
            OperationView::Sqrt,
            Tree::binary(OperationView::Add, moving_variance, number(epsilon)),
        ),
    )
}

/// The expression of a batch normalization of `x`: `x` times the scale, plus `beta` less
/// the mean times the scale, scale and shift each repeated up to `shape`.
pub open spec fn normalized(
    x: Tree,
    beta: Tree,
    gamma: Tree,
    moving_mean: Tree,
    moving_variance: Tree,
    epsilon: u32,
    shape: Seq<usize>,
) -> Tree {
    let scale = normalize_scale(gamma, moving_variance, epsilon);
    Tree::binary(
        OperationView::Add,
        Tree::binary(
            OperationView::Mul,
            x,
            Tree::unary(OperationView::BroadcastTo { shape }, scale),
        ),
        Tree::unary(
            OperationView::BroadcastTo { shape },
            Tree::binary(
                OperationView::Sub,
                beta,
                Tree::binary(OperationView::Mul, moving_mean, scale),
            ),
        ),
    )
}

/// The expression of the mean over the first two axes of `x`.
pub open spec fn pooled(x: Tree, channels: usize, count: u32) -> Tree {
    Tree::binary(
        OperationView::Div,
        Tree::unary(
            OperationView::Reshape { shape: seq![channels] },
            Tree::unary(OperationView::ReduceSum { axes: seq![0usize, 1usize] }, x),
        ),
        number(count),
    )
}

impl Step {
    /// Whether the expressions that the step refers to are expressions of the arena.
    pub open spec fn within(self, a: ArenaView) -> bool {
        match self {
            Step::MatVecMul { weights } => a.contains(weights),
            Step::Add { term } => a.contains(term),
            Step::AddBroadcast { term } => a.contains(term),
            Step::Conv2D { kernel, .. } => a.contains(kernel),
            Step::Normalize { beta, gamma, moving_mean, moving_variance, .. } => a.contains(beta)
                && a.contains(gamma) && a.contains(moving_mean) && a.contains(moving_variance),
            _ => true,
        }
    }

    /// The step with the expressions that its handles stand for in the arena `a`.
    pub open spec fn read(self, a: ArenaView) -> Move {
        match self {
            Step::MatVecMul { weights } => Move::MatVecMul { weights: a.of(weights) },
            Step::Add { term } => Move::Add { term: a.of(term) },
            Step::AddBroadcast { term } => Move::AddBroadcast { term: a.of(term) },
            Step::Conv2D { kernel, stride, padding } => Move::Conv2D {
                kernel: a.of(kernel),
                stride,
                padding,
            },
            Step::Reshape { shape } => Move::Reshape { shape: shape@ },
            Step::Pool { channels, count } => Move::Pool { channels, count },
            Step::Normalize { beta, gamma, moving_mean, moving_variance, epsilon, shape } => {
                Move::Normalize {
                    beta: a.of(beta),
                    gamma: a.of(gamma),
                    moving_mean: a.of(moving_mean),
                    moving_variance: a.of(moving_variance),
                    epsilon,
                    shape: shape@,
                }
            },
            Step::Activate { activation } => Move::Activate { activation },
            Step::Remember => Move::Remember,
            Step::AddRemembered => Move::AddRemembered,
        }
    }

    /// The expression that the step makes of the value `x`, where it can be formed, and
    /// the values kept aside after the step.
    pub open spec fn of(self, a: ArenaView, x: Tree, saved: Seq<Tree>) -> Option<(Tree, Seq<Tree>)> {
        self.read(a).of(x, saved)
    }
}

/// A step as it reads: with expressions in the place of handles.
pub enum Move {
    /// The product of the matrix `weights` and the value.
    MatVecMul { weights: Tree },
    /// The sum of the value and `term`.
    Add { term: Tree },
    /// The sum of the value and `term` repeated up to the shape of the value.
    AddBroadcast { term: Tree },
    /// The convolution of the value with `kernel`.
    Conv2D { kernel: Tree, stride: usize, padding: Padding },
    /// The value under another shape.
    Reshape { shape: Seq<usize> },
    /// The mean over the first two axes of the value.
    Pool { channels: usize, count: u32 },
    /// The value scaled and shifted by the statistics of a batch normalization.
    Normalize {
        beta: Tree,
        gamma: Tree,
        moving_mean: Tree,
        moving_variance: Tree,
        epsilon: u32,
        shape: Seq<usize>,
    },
    /// An activation of the value.
    Activate { activation: Activation },
    /// The value is kept aside, and stays the value.
    Remember,
    /// The sum of the value and the value that was kept aside last.
    AddRemembered,
}

impl Move {
    /// The expression that the step makes of the value `x`, where it can be formed, and
    /// the values kept aside after the step.
    pub open spec fn of(self, x: Tree, saved: Seq<Tree>) -> Option<(Tree, Seq<Tree>)> {
        let made: Option<(Tree, Seq<Tree>)> = match self {
            Move::MatVecMul { weights } => Some(
                (Tree::binary(OperationView::MatVecMul, weights, x), saved),
            ),
            Move::Add { term } => Some((Tree::binary(OperationView::Add, x, term), saved)),
            Move::AddBroadcast { term } => Some(
                (
                    Tree::binary(
                        OperationView::Add,
                        x,
                        Tree::unary(OperationView::BroadcastTo { shape: x.shape() }, term),
                    ),
                    saved,
                ),
            ),
            Move::Conv2D { kernel, stride, padding } => Some(
                (Tree::binary(OperationView::Conv2D { stride, padding }, x, kernel), saved),
            ),
            Move::Reshape { shape } => Some(
                (Tree::unary(OperationView::Reshape { shape }, x), saved),
            ),
            Move::Pool { channels, count } => Some((pooled(x, channels, count), saved)),
            Move::Normalize { beta, gamma, moving_mean, moving_variance, epsilon, shape } => Some(
                (normalized(x, beta, gamma, moving_mean, moving_variance, epsilon, shape), saved),
            ),
            Move::Activate { activation } => Some((activation.of(x), saved)),
            Move::Remember => Some((x, saved.push(x))),
            Move::AddRemembered => if saved.len() > 0 {
                Some((Tree::binary(OperationView::Add, x, saved.last()), saved.drop_last()))
            } else {
                None
            },
        };
        match made {
            Some((t, kept)) => if t.wf() {
                Some((t, kept))
            } else {
                None
            },
            None => None,
        }
    }
}

/// The steps of a list as they read in the arena `a`.
pub open spec fn moves(a: ArenaView, steps: Seq<Step>) -> Seq<Move> {
    Seq::new(steps.len(), |i: int| steps[i].read(a))
}

/// The expression that the first `upto` of the steps `steps` make of `x`, where each of
/// them can be formed, and the values kept aside after them.
pub open spec fn perform(steps: Seq<Move>, upto: int, x: Tree) -> Option<(Tree, Seq<Tree>)>
    decreases upto,
{
    if upto <= 0 || upto > steps.len() {
        Some((x, Seq::empty()))
    } else {
        match perform(steps, upto - 1, x) {
            Some((t, saved)) => steps[upto - 1].of(t, saved),
            None => None,
        }
    }
}

/// The steps of an arena make of a value what they make as they read.
pub proof fn lemma_run_performs(a: ArenaView, steps: Seq<Step>, upto: int, x: Tree)
    ensures
        run(a, steps, upto, x) == perform(moves(a, steps), upto, x),
    decreases upto,
{
    if 0 < upto <= steps.len() {
        lemma_run_performs(a, steps, upto - 1, x);
    }
}

/// The expression that the first `upto` steps make of `x`, where each of them can be
/// formed, and the values kept aside after them.
pub open spec fn run(a: ArenaView, steps: Seq<Step>, upto: int, x: Tree) -> Option<
    (Tree, Seq<Tree>),
>
    decreases upto,
{
    if upto <= 0 || upto > steps.len() {
        Some((x, Seq::empty()))
    } else {
        match run(a, steps, upto - 1, x) {
            Some((t, saved)) => steps[upto - 1].of(a, t, saved),
            None => None,
        }
    }
}

/// A layer that was set up for an input: the steps from its input to its output, and the
/// variables that the steps read.
#[derive(Debug)]
pub struct Instance {
    pub steps: Vec<Step>,
    pub variables: Vec<LayerVariable>,
}

impl Instance {
    /// Whether the steps refer to expressions of the arena only.
    pub open spec fn within(&self, a: ArenaView) -> bool {
        forall|i: int| 0 <= i < self.steps@.len() ==> (#[trigger] self.steps@[i]).within(a)
    }

    /// The expression of the output of the layer for the input `x`, where it can be formed.
    pub open spec fn output(&self, a: ArenaView, x: Tree) -> Option<Tree> {
        match run(a, self.steps@, self.steps@.len() as int, x) {
            Some((t, saved)) => Some(t),
            None => None,
        }
    }

    /// The variables of the layer.
    pub fn variables(&self) -> (r: &Vec<LayerVariable>)
        ensures
            r == &self.variables,
    {
        &self.variables
    }
}

/// The expressions that the handles of a list stand for.
pub open spec fn trees_of(a: ArenaView, saved: Seq<Expr>) -> Seq<Tree> {
    Seq::new(saved.len(), |i: int| a.of(saved[i]))
}

/// Whether every handle of a list is a handle of the arena.
pub open spec fn all_within(a: ArenaView, saved: Seq<Expr>) -> bool {
    forall|i: int| 0 <= i < saved.len() ==> a.contains(#[trigger] saved[i])
}

/// What a step makes of a value does not depend on the terms that were appended to the
/// arena after the step was made.
pub proof fn lemma_step_keeps(a: ArenaView, b: ArenaView, step: Step, x: Tree, saved: Seq<Tree>)
    requires
        b.keeps(a),
        step.within(a),
    ensures
        step.of(b, x, saved) == step.of(a, x, saved),
        step.within(b),
{
}

/// What a list of steps makes of a value does not depend on the terms that were appended
/// to the arena after the steps were made.
pub proof fn lemma_run_keeps(a: ArenaView, b: ArenaView, steps: Seq<Step>, upto: int, x: Tree)
    requires
        b.keeps(a),
        forall|i: int| 0 <= i < steps.len() ==> (#[trigger] steps[i]).within(a),
    ensures
        run(b, steps, upto, x) == run(a, steps, upto, x),
    decreases upto,
{
    if 0 < upto <= steps.len() {
        lemma_run_keeps(a, b, steps, upto - 1, x);
        match run(a, steps, upto - 1, x) {
            Some((t, saved)) => {
                lemma_step_keeps(a, b, steps[upto - 1], t, saved);
            },
            None => {},
        }
    }
}

/// The sum of `input` and `term` repeated up to the shape of `input`, where it can be
/// formed.
fn add_broadcast(arena: &mut Arena, input: Expr, term: Expr) -> (r: Option<Expr>)
    requires
        old(arena)@.wf(),
        old(arena)@.contains(input),
        old(arena)@.contains(term),
    ensures
        final(arena)@.grown(old(arena)@),
        r is Some <==> Tree::binary(
            OperationView::Add,
            old(arena)@.of(input),
            Tree::unary(
                OperationView::BroadcastTo { shape: old(arena)@.of(input).shape() },
                old(arena)@.of(term),
            ),
        ).wf(),
        r matches Some(e) ==> final(arena)@.contains(e) && final(arena)@.of(e) == Tree::binary(
            OperationView::Add,
            old(arena)@.of(input),
            Tree::unary(
                OperationView::BroadcastTo { shape: old(arena)@.of(input).shape() },
                old(arena)@.of(term),
            ),
        ),
{
    let ghost before = arena@;
    proof {
        lemma_extends_keeps(before, before);
        lemma_node(before, input);
    }
    let shape = arena.shape(input).clone();
    let ghost repeated = Tree::unary(OperationView::BroadcastTo { shape: shape@ }, before.of(term));
    let ghost whole = Tree::binary(OperationView::Add, before.of(input), repeated);
    proof {
        assert(whole.inputs[1] == repeated);
    }
    match try_unary(arena, Operation::BroadcastTo { shape }, term) {
        Some(b) => {
            let ghost a1 = arena@;
            let e = elementwise(arena, Operation::Add, input, b);
            proof {
                lemma_grown_trans(before, a1, arena@);
                lemma_node(arena@, e);
            }
            Some(e)
        },
        None => None,
    }
}

/// The mean over the first two axes of `input`, where it can be formed.
fn pool(arena: &mut Arena, input: Expr, channels: usize, count: u32) -> (r: Option<Expr>)
    requires
        old(arena)@.wf(),
        old(arena)@.contains(input),
    ensures
        final(arena)@.grown(old(arena)@),
        r is Some <==> pooled(old(arena)@.of(input), channels, count).wf(),
        r matches Some(e) ==> final(arena)@.contains(e) && final(arena)@.of(e) == pooled(
            old(arena)@.of(input),
            channels,
            count,
        ),
{
    let ghost before = arena@;
    proof {
        lemma_extends_keeps(before, before);
    }
    let mut axes: Vec<usize> = Vec::new();
    axes.push(0);
    axes.push(1);
    let mut shape: Vec<usize> = Vec::new();
    shape.push(channels);
    let ghost summed = Tree::unary(OperationView::ReduceSum { axes: axes@ }, before.of(input));
    let ghost flat = Tree::unary(OperationView::Reshape { shape: shape@ }, summed);
    let ghost whole = pooled(before.of(input), channels, count);
    proof {
        assert(axes@ =~= seq![0usize, 1usize]);
        assert(shape@ =~= seq![channels]);
        assert(whole.inputs[0] == flat);
        assert(flat.inputs[0] == summed);
    }
    match try_unary(arena, Operation::ReduceSum { axes }, input) {
        Some(sums) => {
            let ghost a1 = arena@;
            match try_unary(arena, Operation::Reshape { shape }, sums) {
                Some(vector) => {
                    let ghost a2 = arena@;
                    proof {
                        lemma_grown_trans(before, a1, a2);
                    }
                    let divisor = held(arena, Tensor::scalar(count));
                    let ghost a3 = arena@;
                    proof {
                        lemma_grown_trans(before, a2, a3);
                    }
                    let e = elementwise(arena, Operation::Div, vector, divisor);
                    proof {
                        lemma_grown_trans(before, a3, arena@);
                        lemma_node(arena@, e);
                    }
                    Some(e)
                },
                None => {
                    proof {
                        lemma_grown_trans(before, a1, arena@);
                        if whole.wf() {
                            assert(whole.inputs[0].wf());
                        }
                    }
                    None
                },
            }
        },
        None => {
            proof {
                if whole.wf() {
                    assert(whole.inputs[0].wf());
                    assert(flat.inputs[0].wf());
                }
            }
            None
        },
    }
}

/// The batch normalization of `input`, where it can be formed.
fn normalize(
    arena: &mut Arena,
    input: Expr,
    beta: Expr,
    gamma: Expr,
    moving_mean: Expr,
    moving_variance: Expr,
    epsilon: u32,
    shape: &Vec<usize>,
) -> (r: Option<Expr>)
    requires
        old(arena)@.wf(),
        old(arena)@.contains(input),
        old(arena)@.contains(beta),
        old(arena)@.contains(gamma),
        old(arena)@.contains(moving_mean),
        old(arena)@.contains(moving_variance),
    ensures
        final(arena)@.grown(old(arena)@),
        r is Some <==> normalized(
            old(arena)@.of(input),
            old(arena)@.of(beta),
            old(arena)@.of(gamma),
            old(arena)@.of(moving_mean),
            old(arena)@.of(moving_variance),
            epsilon,
            shape@,
        ).wf(),
        r matches Some(e) ==> final(arena)@.contains(e) && final(arena)@.of(e) == normalized(
            old(arena)@.of(input),
            old(arena)@.of(beta),
            old(arena)@.of(gamma),
            old(arena)@.of(moving_mean),
            old(arena)@.of(moving_variance),
            epsilon,
            shape@,
        ),
{
    let ghost before = arena@;
    proof {
        lemma_extends_keeps(before, before);
    }
    let ghost scale_tree = normalize_scale(
        before.of(gamma),
        before.of(moving_variance),
        epsilon,
    );
    let ghost whole = normalized(
        before.of(input),
        before.of(beta),
        before.of(gamma),
        before.of(moving_mean),
        before.of(moving_variance),
        epsilon,
        shape@,
    );
    let ghost left_tree = whole.inputs[0];
    let ghost right_tree = whole.inputs[1];
    proof {
        assert(left_tree.inputs[1] == Tree::unary(
            OperationView::BroadcastTo { shape: shape@ },
            scale_tree,
        ));
    }
    let small = held(arena, Tensor::scalar(epsilon));
    let ghost a1 = arena@;
    let padded = elementwise(arena, Operation::Add, moving_variance, small);
    let ghost a2 = arena@;
    proof {
        lemma_grown_trans(before, a1, a2);
    }
    let root = mapped(arena, Operation::Sqrt, padded);
    let ghost a3 = arena@;
    proof {
        lemma_grown_trans(before, a2, a3);
    }
    let scale = elementwise(arena, Operation::Div, gamma, root);
    let ghost a4 = arena@;
    proof {
        lemma_grown_trans(before, a3, a4);
        assert(a4.of(scale) == scale_tree);
    }
    let wide_scale = match try_unary(arena, Operation::BroadcastTo { shape: shape.clone() }, scale) {
        Some(e) => e,
        None => {
            proof {
                lemma_grown_trans(before, a4, arena@);
                if whole.wf() {
                    assert(whole.inputs[0].wf());
                    assert(left_tree.inputs[1].wf());
                }
            }
            return None;
        },
    };
    let ghost a5 = arena@;
    proof {
        lemma_grown_trans(before, a4, a5);
    }
    let left = elementwise(arena, Operation::Mul, input, wide_scale);
    let ghost a6 = arena@;
    proof {
        lemma_grown_trans(before, a5, a6);
    }
    let scaled_mean = elementwise(arena, Operation::Mul, moving_mean, scale);
    let ghost a7 = arena@;
    proof {
        lemma_grown_trans(before, a6, a7);
    }
    let shift = elementwise(arena, Operation::Sub, beta, scaled_mean);
    let ghost a8 = arena@;
    proof {
        lemma_grown_trans(before, a7, a8);
    }
    let wide_shift = match try_unary(arena, Operation::BroadcastTo { shape: shape.clone() }, shift) {
        Some(e) => e,
        None => {
            proof {
                lemma_grown_trans(before, a8, arena@);
                assert(right_tree == Tree::unary(
                    OperationView::BroadcastTo { shape: shape@ },
                    a8.of(shift),
                ));
                if whole.wf() {
                    assert(whole.inputs[1].wf());
                }
            }
            return None;
        },
    };
    let ghost a9 = arena@;
    proof {
        lemma_grown_trans(before, a8, a9);
    }
    let e = elementwise(arena, Operation::Add, left, wide_shift);
    proof {
        lemma_grown_trans(before, a9, arena@);
        lemma_node(arena@, e);
    }
    Some(e)
}

impl Step {
    /// A copy of the step.
    pub fn copy(&self) -> (r: Step)
        ensures
            forall|a: ArenaView| r.within(a) == self.within(a),
            forall|a: ArenaView, x: Tree, saved: Seq<Tree>| r.of(a, x, saved) == self.of(a, x, saved),
    {
        match self {
            Step::MatVecMul { weights } => Step::MatVecMul { weights: *weights },
            Step::Add { term } => Step::Add { term: *term },
            Step::AddBroadcast { term } => Step::AddBroadcast { term: *term },
            Step::Conv2D { kernel, stride, padding } => Step::Conv2D {
                kernel: *kernel,
                stride: *stride,
                padding: *padding,
            },
            Step::Reshape { shape } => Step::Reshape { shape: shape.clone() },
            Step::Pool { channels, count } => Step::Pool { channels: *channels, count: *count },
            Step::Normalize { beta, gamma, moving_mean, moving_variance, epsilon, shape } => {
                Step::Normalize {
                    beta: *beta,
                    gamma: *gamma,
                    moving_mean: *moving_mean,
                    moving_variance: *moving_variance,
                    epsilon: *epsilon,
                    shape: shape.clone(),
                }
            },
            Step::Activate { activation } => Step::Activate { activation: *activation },
            Step::Remember => Step::Remember,
            Step::AddRemembered => Step::AddRemembered,
        }
    }

    /// Makes the step on the value `input`, where the result can be formed; `saved` holds
    /// the values that were kept aside.
    pub fn try_apply(&self, arena: &mut Arena, input: Expr, saved: &mut Vec<Expr>) -> (r: Option<
        Expr,
    >)
        requires
            old(arena)@.wf(),
            old(arena)@.contains(input),
            self.within(old(arena)@),
            all_within(old(arena)@, old(saved)@),
        ensures
            final(arena)@.grown(old(arena)@),
            all_within(final(arena)@, final(saved)@),
            r is Some <==> self.of(
                old(arena)@,
                old(arena)@.of(input),
                trees_of(old(arena)@, old(saved)@),
            ) is Some,
            r matches Some(e) ==> {
                let made = self.of(
                    old(arena)@,
                    old(arena)@.of(input),
                    trees_of(old(arena)@, old(saved)@),
                )->0;
                &&& final(arena)@.contains(e)
                &&& final(arena)@.of(e) == made.0
                &&& trees_of(final(arena)@, final(saved)@) == made.1
            },
    {
        let ghost before = arena@;
        let ghost kept = trees_of(before, saved@);
        proof {
            lemma_extends_keeps(before, before);
            lemma_node(before, input);
        }
        let r: Option<Expr> = match self {
            Step::MatVecMul { weights } => try_binary(
                arena,
                Operation::MatVecMul,
                *weights,
                input,
            ),
            Step::Add { term } => Some(elementwise(arena, Operation::Add, input, *term)),
            Step::AddBroadcast { term } => add_broadcast(arena, input, *term),
            Step::Conv2D { kernel, stride, padding } => try_binary(
                arena,
                Operation::Conv2D { stride: *stride, padding: *padding },
                input,
                *kernel,
            ),
            Step::Reshape { shape } => try_unary(
                arena,
                Operation::Reshape { shape: shape.clone() },
                input,
            ),
            Step::Pool { channels, count } => pool(arena, input, *channels, *count),
            Step::Normalize { beta, gamma, moving_mean, moving_variance, epsilon, shape } => {
                normalize(
                    arena,
                    input,
                    *beta,
                    *gamma,
                    *moving_mean,
                    *moving_variance,
                    *epsilon,
                    shape,
                )
            },
            Step::Activate { activation } => Some(activation.apply(arena, input)),
            Step::Remember => {
                saved.push(input);
                proof {
                    assert(trees_of(before, saved@) =~= kept.push(before.of(input)));
                }
                Some(input)
            },
            Step::AddRemembered => {
                if saved.len() > 0 {
                    let last: Expr = saved[saved.len() - 1];
                    saved.pop();
                    proof {
                        assert(kept.last() == before.of(last));
                        assert(trees_of(before, saved@) =~= kept.drop_last());
                    }
                    Some(elementwise(arena, Operation::Add, input, last))
                } else {
                    None
                }
            },
        };
        proof {
            if r is Some {
                lemma_node(arena@, r->0);
            }
            assert(trees_of(arena@, saved@) =~= trees_of(before, saved@));
        }
        r
    }
}

impl Instance {
    /// The expression of the output of the layer for the input `input`, where it can be
    /// formed; its terms are appended to the arena.
    pub fn try_expression(&self, arena: &mut Arena, input: Expr) -> (r: Option<Expr>)
        requires
            old(arena)@.wf(),
            old(arena)@.contains(input),
            self.within(old(arena)@),
        ensures
            final(arena)@.grown(old(arena)@),
            r is Some <==> self.output(old(arena)@, old(arena)@.of(input)) is Some,
            r matches Some(e) ==> final(arena)@.contains(e) && Some(final(arena)@.of(e))
                == self.output(old(arena)@, old(arena)@.of(input)),
    {
        let ghost before = arena@;
        let ghost x = before.of(input);
        proof {
            lemma_extends_keeps(before, before);
        }
        let n: usize = self.steps.len();
        let mut saved: Vec<Expr> = Vec::new();
        let mut value: Expr = input;
        let mut i: usize = 0;
        proof {
            assert(trees_of(before, saved@) =~= Seq::<Tree>::empty());
        }
        while i < n
            invariant
                before == old(arena)@,
                before.wf(),
                x == before.of(input),
                self.within(before),
                n == self.steps@.len(),
                i <= n,
                arena@.grown(before),
                arena@.contains(value),
                all_within(arena@, saved@),
                run(before, self.steps@, i as int, x) == Some(
                    (arena@.of(value), trees_of(arena@, saved@)),
                ),
            decreases n - i,
        {
            let ghost middle = arena@;
            proof {
                lemma_step_keeps(
                    before,
                    middle,
                    self.steps@[i as int],
                    middle.of(value),
                    trees_of(middle, saved@),
                );
            }
            match self.steps[i].try_apply(arena, value, &mut saved) {
                Some(next) => {
                    value = next;
                    proof {
                        lemma_grown_trans(before, middle, arena@);
                    }
                },
                None => {
                    proof {
                        lemma_grown_trans(before, middle, arena@);
                        lemma_run_fails(before, self.steps@, i + 1, n as int, x);
                    }
                    return None;
                },
            }
            i += 1;
        }
        Some(value)
    }

    /// The expression of the output of the layer for the input `input`; its terms are
    /// appended to the arena.
    pub fn expression(&self, arena: &mut Arena, input: Expr) -> (e: Expr)
        requires
            old(arena)@.wf(),
            old(arena)@.contains(input),
            self.within(old(arena)@),
            self.output(old(arena)@, old(arena)@.of(input)) is Some,
        ensures
            final(arena)@.grown(old(arena)@),
            final(arena)@.contains(e),
            Some(final(arena)@.of(e)) == self.output(old(arena)@, old(arena)@.of(input)),
    {
        match self.try_expression(arena, input) {
            Some(e) => e,
            None => unreached(),
        }
    }
}

/// Once a step cannot be made, the steps after it cannot be made either.
pub proof fn lemma_run_fails(a: ArenaView, steps: Seq<Step>, failed: int, upto: int, x: Tree)
    requires
        0 < failed <= upto <= steps.len(),
        run(a, steps, failed, x) is None,
    ensures
        run(a, steps, upto, x) is None,
    decreases upto - failed,
{
    if failed < upto {
        lemma_run_fails(a, steps, failed, upto - 1, x);
    }
}

/// Whether `after` came from `before` by setting up layers: terms and cells were appended,
/// and what was there is as it was.
pub open spec fn set_up(before: ArenaView, after: ArenaView) -> bool {
    &&& after.wf()
    &&& after.extends(before)
    &&& after.keeps(before)
}

/// Setting up is transitive.
pub proof fn lemma_set_up_trans(a: ArenaView, b: ArenaView, c: ArenaView)
    requires
        set_up(a, b),
        set_up(b, c),
    ensures
        set_up(a, c),
{
    lemma_extends_keeps(a, c);
}

/// An arena that grew was set up.
pub proof fn lemma_grown_set_up(a: ArenaView, b: ArenaView)
    requires
        b.grown(a),
    ensures
        set_up(a, b),
{
}

impl Instance {
    /// A layer without steps or variables: its output is its input.
    pub fn empty() -> (r: Instance)
        ensures
            r.steps@.len() == 0,
            r.variables@.len() == 0,
            forall|a: ArenaView| r.within(a),
    {
        Instance { steps: Vec::new(), variables: Vec::new() }
    }

    /// The layer that makes the steps of `self` and after them those of `next`, with the
    /// variables of both.
    pub fn followed_by(self, next: Instance) -> (r: Instance)
        ensures
            r.steps@ == self.steps@ + next.steps@,
            r.variables@ == self.variables@ + next.variables@,
            forall|a: ArenaView| self.within(a) && next.within(a) ==> r.within(a),
    {
        let mut steps = self.steps;
        let mut variables = self.variables;
        let mut more_steps = next.steps;
        let mut more_variables = next.variables;
        steps.append(&mut more_steps);
        variables.append(&mut more_variables);
        Instance { steps, variables }
    }

    /// The layer whose output is the output of `self` plus its input, with the variables
    /// of `self`: the input is kept aside, the steps of `self` are made, and what was kept
    /// aside is added.
    pub fn with_shortcut(self) -> (r: Instance)
        ensures
            r.steps@ == seq![Step::Remember] + self.steps@ + seq![Step::AddRemembered],
            r.variables@ == self.variables@,
            forall|a: ArenaView| self.within(a) ==> r.within(a),
    {
        let mut steps: Vec<Step> = Vec::new();
        steps.push(Step::Remember);
        let mut body = self.steps;
        steps.append(&mut body);
        steps.push(Step::AddRemembered);
        Instance { steps, variables: self.variables }
    }

    /// The shape of the output of the layer for an input of the given shape, where the
    /// output can be formed: the shape that inference gives the output for a constant
    /// input of that shape. The terms made to find it stay in the arena.
    pub fn output_shape(&self, arena: &mut Arena, input_shape: &Vec<usize>) -> (r: Option<
        Vec<usize>,
    >)
        requires
            old(arena)@.wf(),
            self.within(old(arena)@),
        ensures
            final(arena)@.grown(old(arena)@),
            r is Some <==> fits(input_shape@) && self.output(
                old(arena)@,
                Tree::leaf(
                    OperationView::Constant { value: TensorView::filled(input_shape@, ZERO) },
                ),
            ) is Some,
            r matches Some(shape) ==> fits(shape@) && shape@ == self.output(
                old(arena)@,
                Tree::leaf(
                    OperationView::Constant { value: TensorView::filled(input_shape@, ZERO) },
                ),
            )->0.shape(),
    {
        let ghost before = arena@;
        proof {
            lemma_extends_keeps(before, before);
        }
        if checked_size(input_shape).is_none() {
            return None;
        }
        let sample = held(arena, Tensor::zeros(input_shape.clone()));
        let ghost a1 = arena@;
        proof {
            lemma_run_keeps(before, a1, self.steps@, self.steps@.len() as int, a1.of(sample));
        }
        match self.try_expression(arena, sample) {
            Some(e) => {
                proof {
                    lemma_grown_trans(before, a1, arena@);
                    lemma_node(arena@, e);
                }
                Some(arena.shape(e).clone())
            },
            None => {
                proof {
                    lemma_grown_trans(before, a1, arena@);
                }
                None
            },
        }
    }
}

/// A copy of a list of variables.
pub fn copy_variables(variables: &Vec<LayerVariable>) -> (r: Vec<LayerVariable>)
    ensures
        r@.len() == variables@.len(),
        forall|i: int|
            0 <= i < r@.len() ==> (#[trigger] r@[i]).name@ == variables@[i].name@ && r@[i].value
                == variables@[i].value,
{
    let n: usize = variables.len();
    let mut out: Vec<LayerVariable> = Vec::new();
    let mut i: usize = 0;
    while i < n
        invariant
            n == variables@.len(),
            i <= n,
            out@.len() == i,
            forall|j: int|
                0 <= j < i ==> (#[trigger] out@[j]).name@ == variables@[j].name@ && out@[j].value
                    == variables@[j].value,
        decreases n - i,
    {
        out.push(LayerVariable { name: variables[i].name.clone(), value: variables[i].value });
        i += 1;
    }
    out
}

} // verus!

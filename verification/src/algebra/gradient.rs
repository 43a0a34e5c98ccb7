//! Reverse-mode differentiation: what each term hands to its inputs, and the traversal that
//! gathers the derivative of an expression with respect to each of its variables.

use vstd::prelude::*;
use crate::algebra::operation::{Operation, OperationView};
use crate::algebra::apply::{candidate, returned};
use crate::algebra::kernel::{kernel_ok, kernel_value, produces, value, values};
use crate::algebra::simplify::{constant, literal, simplified};
use crate::algebra::tree::Tree;
use crate::shape::broadcast_axes;
use crate::shape::size;
use crate::tensor::{shapes, views, Tensor, TensorView, HALF, MINUS_ONE, ONE, TWO, ZERO};

verus! {

/// Why a comparison hands no derivative to its operands.
pub open spec fn comparison_reason() -> Seq<char> {
    "gradients are not supported for comparisons"@
}

/// Why a convolution hands no derivative to its operands.
pub open spec fn convolution_reason() -> Seq<char> {
    "Conv2D gradients have not been implemented."@
}

/// The scalar constant holding `bits`.
pub open spec fn number(bits: u32) -> Tree {
    literal(TensorView::filled(Seq::empty(), bits))
}

/// A placeholder of the shape of `t`.
pub open spec fn placeholder(t: Tree, reason: Seq<char>) -> Tree {
    Tree::leaf(OperationView::Unevaluable { reason, shape: t.shape() })
}

/// The gradient that arrives at a term: a gradient that is not a scalar is summed to one
/// before it enters a scalar term.
pub open spec fn arriving(t: Tree, g: Tree) -> Tree {
    if t.rank() == 0 && g.rank() > 0 {
        Tree::unary(OperationView::Sum, g)
    } else {
        g
    }
}

/// What a term hands to each of its inputs, in order, when the gradient `g` arrives at it:
/// nothing, or the gradient with respect to that input.
pub open spec fn contributions(t: Tree, g: Tree) -> Seq<Option<Tree>> {
    let x = t.inputs[0];
    let y = t.inputs[1];
    match t.operation {
        OperationView::Constant { .. } => Seq::empty(),
        OperationView::Variable { .. } => Seq::empty(),
        OperationView::Unevaluable { .. } => Seq::empty(),
        OperationView::Add => seq![Some(g), Some(g)],
        OperationView::Sub => seq![
            Some(g),
            Some(Tree::binary(OperationView::Mul, number(MINUS_ONE), g)),
        ],
        OperationView::Mul => seq![
            Some(Tree::binary(OperationView::Mul, g, y)),
            Some(Tree::binary(OperationView::Mul, g, x)),
        ],
        OperationView::Div => seq![
            Some(Tree::binary(OperationView::Div, g, y)),
            Some(
                Tree::binary(
                    OperationView::Mul,
                    g,
                    Tree::binary(
                        OperationView::Div,
                        Tree::binary(OperationView::Mul, number(MINUS_ONE), x),
                        Tree::unary(OperationView::Square, y),
                    ),
                ),
            ),
        ],
        OperationView::Compare { .. } => seq![
            Some(placeholder(x, comparison_reason())),
            Some(placeholder(y, comparison_reason())),
        ],
        OperationView::Ternary => seq![
            None,
            Some(Tree::ternary(OperationView::Ternary, x, g, number(ZERO))),
            Some(Tree::ternary(OperationView::Ternary, x, number(ZERO), g)),
        ],
        OperationView::Exp => seq![Some(Tree::binary(OperationView::Mul, g, t))],
        OperationView::Ln => seq![Some(Tree::binary(OperationView::Div, g, x))],
        OperationView::Square => seq![
            Some(
                Tree::binary(
                    OperationView::Mul,
                    Tree::binary(OperationView::Mul, g, number(TWO)),
                    x,
                ),
            ),
        ],
        OperationView::Sqrt => seq![
            Some(
                Tree::binary(
                    OperationView::Div,
                    Tree::binary(OperationView::Mul, g, number(HALF)),
                    Tree::unary(OperationView::Sqrt, x),
                ),
            ),
        ],
        OperationView::Sum => seq![
            Some(
                Tree::binary(
                    OperationView::Mul,
                    g,
                    literal(TensorView::filled(x.shape(), ONE)),
                ),
            ),
        ],
        OperationView::ReduceSum { .. } => seq![
            Some(Tree::unary(OperationView::BroadcastTo { shape: x.shape() }, g)),
        ],
        OperationView::BroadcastTo { shape } => seq![
            Some(
                Tree::unary(
                    OperationView::Reshape { shape: x.shape() },
                    Tree::unary(
                        OperationView::ReduceSum {
                            axes: broadcast_axes(x.shape(), shape.len()),
                        },
                        g,
                    ),
                ),
            ),
        ],
        OperationView::Reshape { .. } => seq![
            Some(Tree::unary(OperationView::Reshape { shape: x.shape() }, g)),
        ],
        OperationView::Transpose => seq![Some(Tree::unary(OperationView::Transpose, g))],
        OperationView::MatMul => seq![
            Some(Tree::binary(OperationView::MatMul, g, Tree::unary(OperationView::Transpose, y))),
            Some(Tree::binary(OperationView::MatMul, Tree::unary(OperationView::Transpose, x), g)),
        ],
        OperationView::MatVecMul => seq![
            Some(
                Tree::binary(
                    OperationView::MatMul,
                    Tree::unary(
                        OperationView::Reshape { shape: seq![size(g.shape()) as usize, 1usize] },
                        g,
                    ),
                    Tree::unary(
                        OperationView::Reshape { shape: seq![1usize, size(y.shape()) as usize] },
                        y,
                    ),
                ),
            ),
            Some(
                Tree::binary(OperationView::MatVecMul, Tree::unary(OperationView::Transpose, x), g),
            ),
        ],
        OperationView::Conv2D { .. } => seq![
            Some(placeholder(x, convolution_reason())),
            Some(placeholder(y, convolution_reason())),
        ],
        OperationView::BiasAdd => seq![Some(g), Some(g)],
        OperationView::Softmax => seq![
            Some(
                Tree::binary(
                    OperationView::Mul,
                    Tree::binary(
                        OperationView::Sub,
                        g,
                        Tree::unary(OperationView::Sum, Tree::binary(OperationView::Mul, g, t)),
                    ),
                    t,
                ),
            ),
        ],
    }
}

/// Whether the term can hand its contributions on: inference gives each of them a shape,
/// and an expansion does not lower the rank of its input.
pub open spec fn contributable(t: Tree, g: Tree) -> bool {
    &&& t.operation matches OperationView::BroadcastTo { shape } ==> t.inputs[0].rank()
        <= shape.len()
    &&& forall|j: int|
        0 <= j < contributions(t, g).len() ==> (#[trigger] contributions(t, g)[j] matches Some(
            c,
        ) ==> c.wf())
}

/// The gradients gathered so far: for each variable name reached, the sum of what arrived.
pub type Gathered = Map<Seq<char>, Tree>;

/// What happens at one term when the gradient `g` arrives at it, where the term accepts
/// it: the gradients gathered after the term has dealt with it, and what the term hands to
/// each of its inputs.
///
/// The gradient is summed to a scalar if the term is a scalar and the gradient is not; after
/// that it has to have the shape of the term. A variable adds it to what was gathered under
/// its name and hands nothing on. Any other term leaves what was gathered as it is and
/// hands on its contributions.
pub open spec fn step(t: Tree, g: Tree, gathered: Gathered) -> Option<(Gathered, Seq<Option<Tree>>)> {
    let arrived = arriving(t, g);
    if arrived.shape() != t.shape() {
        None
    } else if t.operation is Variable {
        let name = t.operation->Variable_name;
        if gathered.contains_key(name) {
            Some(
                (
                    gathered.insert(
                        name,
                        Tree::binary(OperationView::Add, gathered[name], arrived),
                    ),
                    Seq::empty(),
                ),
            )
        } else {
            Some((gathered.insert(name, arrived), Seq::empty()))
        }
    } else if !contributable(t, arrived) {
        None
    } else {
        Some((gathered, contributions(t, arrived)))
    }
}

/// The gradients after the gradient `g` has arrived at the term `t` and has been handed
/// down through all of `t`, where every term on the way accepts what arrives at it. The
/// last input of a term is dealt with first, and each input in full before the one before
/// it.
pub open spec fn backprop(t: Tree, g: Tree, gathered: Gathered) -> Option<Gathered>
    decreases t, t.inputs.len() + 1,
{
    match step(t, g, gathered) {
        Some((next, handed)) => backprop_inputs(t, handed, t.inputs.len() as int, next),
        None => None,
    }
}

/// The gradients after the contributions with index below `upto` have been handed to the
/// inputs of `t`, the last of them first.
pub open spec fn backprop_inputs(
    t: Tree,
    handed: Seq<Option<Tree>>,
    upto: int,
    gathered: Gathered,
) -> Option<Gathered>
    decreases t, upto,
{
    if upto <= 0 || upto > t.inputs.len() || upto > handed.len() {
        Some(gathered)
    } else {
        let j = upto - 1;
        let after = match handed[j] {
            Some(c) => backprop(t.inputs[j], c, gathered),
            None => Some(gathered),
        };
        match after {
            Some(next) => backprop_inputs(t, handed, j, next),
            None => None,
        }
    }
}

/// The constant of the shape of `t` whose elements all are one: the gradient of an
/// expression with respect to itself.
pub open spec fn seed(t: Tree) -> Tree {
    literal(TensorView::filled(t.shape(), ONE))
}

/// The gradients of the expression `t` with respect to each variable that occurs in it,
/// by name, where the traversal succeeds.
pub open spec fn gradients(t: Tree) -> Option<Gathered> {
    backprop(t, seed(t), Map::empty())
}

/// The gradients after every pending pair of a term and the gradient that arrives at it
/// has been dealt with, the last pair first.
pub open spec fn drain(pending: Seq<(Tree, Tree)>, gathered: Gathered) -> Option<Gathered>
    decreases pending.len(),
{
    if pending.len() == 0 {
        Some(gathered)
    } else {
        match backprop(pending.last().0, pending.last().1, gathered) {
            Some(next) => drain(pending.drop_last(), next),
            None => None,
        }
    }
}

/// The pairs that a term puts on the pending list for its inputs with index below `upto`:
/// each input to which something is handed, with what is handed to it, in the order of the
/// inputs.
pub open spec fn pushes(t: Tree, handed: Seq<Option<Tree>>, upto: int) -> Seq<(Tree, Tree)>
    decreases upto,
{
    if upto <= 0 || upto > t.inputs.len() || upto > handed.len() {
        Seq::empty()
    } else {
        let rest = pushes(t, handed, upto - 1);
        match handed[upto - 1] {
            Some(c) => rest.push((t.inputs[upto - 1], c)),
            None => rest,
        }
    }
}

/// The number of nodes of the terms on a pending list.
pub open spec fn total(pending: Seq<(Tree, Tree)>) -> nat
    decreases pending.len(),
{
    if pending.len() == 0 {
        0
    } else {
        total(pending.drop_last()) + pending.last().0.count()
    }
}

/// Dealing with the pairs that a term puts on the pending list comes to handing the
/// term's contributions to its inputs.
pub proof fn lemma_drain_pushes(
    rest: Seq<(Tree, Tree)>,
    t: Tree,
    handed: Seq<Option<Tree>>,
    upto: int,
    gathered: Gathered,
)
    requires
        0 <= upto <= t.inputs.len(),
        upto <= handed.len(),
    ensures
        drain(rest + pushes(t, handed, upto), gathered) == match backprop_inputs(
            t,
            handed,
            upto,
            gathered,
        ) {
            Some(next) => drain(rest, next),
            None => None,
        },
    decreases upto,
{
    if upto == 0 {
        assert(rest + pushes(t, handed, upto) =~= rest);
    } else {
        let below = pushes(t, handed, upto - 1);
        match handed[upto - 1] {
            Some(c) => {
                let pair = (t.inputs[upto - 1], c);
                let all = rest + below.push(pair);
                assert(all.last() == pair);
                assert(all.drop_last() =~= rest + below);
                match backprop(pair.0, pair.1, gathered) {
                    Some(next) => {
                        lemma_drain_pushes(rest, t, handed, upto - 1, next);
                    },
                    None => {},
                }
            },
            None => {
                lemma_drain_pushes(rest, t, handed, upto - 1, gathered);
            },
        }
    }
}

/// The total of a pending list with one more pair.
pub proof fn lemma_total_push(pending: Seq<(Tree, Tree)>, pair: (Tree, Tree))
    ensures
        total(pending.push(pair)) == total(pending) + pair.0.count(),
{
    assert(pending.push(pair).drop_last() =~= pending);
}

/// The total of two pending lists joined.
pub proof fn lemma_total_join(a: Seq<(Tree, Tree)>, b: Seq<(Tree, Tree)>)
    ensures
        total(a + b) == total(a) + total(b),
    decreases b.len(),
{
    if b.len() == 0 {
        assert(a + b =~= a);
    } else {
        assert((a + b).drop_last() =~= a + b.drop_last());
        lemma_total_join(a, b.drop_last());
    }
}

/// The first trees of a list have no more nodes than the whole list.
proof fn lemma_count_take(trees: Seq<Tree>, upto: int)
    requires
        0 <= upto <= trees.len(),
    ensures
        Tree::count_all(trees.take(upto)) <= Tree::count_all(trees),
    decreases trees.len() - upto,
{
    if upto < trees.len() {
        lemma_count_take(trees, upto + 1);
        assert(trees.take(upto + 1).drop_last() =~= trees.take(upto));
    } else {
        assert(trees.take(upto) =~= trees);
    }
}

/// What a term puts on the pending list has fewer nodes than the term.
pub proof fn lemma_total_pushes(t: Tree, handed: Seq<Option<Tree>>, upto: int)
    requires
        0 <= upto <= t.inputs.len(),
        upto <= handed.len(),
    ensures
        total(pushes(t, handed, upto)) <= Tree::count_all(t.inputs.take(upto)),
        Tree::count_all(t.inputs.take(upto)) <= Tree::count_all(t.inputs),
        Tree::count_all(t.inputs) < t.count(),
{
    lemma_count_take(t.inputs, upto);
    lemma_total_pushes_below(t, handed, upto);
}

/// What a term puts on the pending list for its first inputs has no more nodes than those
/// inputs.
proof fn lemma_total_pushes_below(t: Tree, handed: Seq<Option<Tree>>, upto: int)
    requires
        0 <= upto <= t.inputs.len(),
        upto <= handed.len(),
    ensures
        total(pushes(t, handed, upto)) <= Tree::count_all(t.inputs.take(upto)),
    decreases upto,
{
    if upto > 0 {
        lemma_total_pushes_below(t, handed, upto - 1);
        assert(t.inputs.take(upto).drop_last() =~= t.inputs.take(upto - 1));
        assert(t.inputs.take(upto).last() == t.inputs[upto - 1]);
        match handed[upto - 1] {
            Some(c) => {
                lemma_total_push(pushes(t, handed, upto - 1), (t.inputs[upto - 1], c));
            },
            None => {},
        }
    }
}

/// The gradient of the expression `t` with respect to the variable named `name`, in
/// simplified form: what the traversal gathered under the name, or the scalar zero where
/// the name was not reached.
pub open spec fn gradient<K: Fn(&Operation, &Vec<Tensor>) -> Tensor>(
    t: Tree,
    name: Seq<char>,
    cells: Seq<TensorView>,
    k: K,
) -> Option<Tree> {
    match gradients(t) {
        Some(gathered) => simplified(
            if gathered.contains_key(name) {
                gathered[name]
            } else {
                number(ZERO)
            },
            cells,
            k,
        ),
        None => None,
    }
}

/// A variable named `name` of the given shape.
pub open spec fn variable(name: Seq<char>, cell: usize, shape: Seq<usize>) -> Tree {
    Tree::leaf(OperationView::Variable { name, cell, shape })
}

/// The gradient of the sum of all elements of a variable with respect to the variable is
/// the product of the scalar one and ones of the shape of the variable, whatever the
/// variable holds; nothing else is gathered.
pub proof fn lemma_gradient_of_sum(name: Seq<char>, cell: usize, shape: Seq<usize>)
    requires
        crate::shape::fits(shape),
    ensures
        gradients(Tree::unary(OperationView::Sum, variable(name, cell, shape))) == Some(
            Map::<Seq<char>, Tree>::empty().insert(
                name,
                Tree::binary(
                    OperationView::Mul,
                    number(ONE),
                    literal(TensorView::filled(shape, ONE)),
                ),
            ),
        ),
{
    let x = variable(name, cell, shape);
    let t = Tree::unary(OperationView::Sum, x);
    let empty = Map::<Seq<char>, Tree>::empty();
    assert(x.input_shapes() =~= Seq::<Seq<usize>>::empty());
    assert(x.shape() == shape);
    assert(x.wf());
    assert(t.input_shapes() =~= seq![shape]);
    assert(size(Seq::<usize>::empty()) == 1);
    assert(t.shape() =~= Seq::<usize>::empty());
    assert(t.wf());
    // the seed is the scalar one
    let s = seed(t);
    assert(s == number(ONE));
    assert(s.input_shapes() =~= Seq::<Seq<usize>>::empty());
    assert(TensorView::filled(Seq::<usize>::empty(), ONE).wf());
    assert(s.shape() =~= Seq::<usize>::empty());
    assert(s.wf());
    assert(arriving(t, s) == s);
    // what the sum hands to the variable
    let ones = literal(TensorView::filled(shape, ONE));
    assert(ones.input_shapes() =~= Seq::<Seq<usize>>::empty());
    assert(TensorView::filled(shape, ONE).wf());
    assert(ones.shape() == shape);
    assert(ones.wf());
    let c = Tree::binary(OperationView::Mul, s, ones);
    assert(c.input_shapes() =~= seq![Seq::<usize>::empty(), shape]);
    assert(c.shape() == shape);
    assert(c.wf()) by {
        assert forall|j: int| 0 <= j < c.inputs.len() implies (#[trigger] c.inputs[j]).wf() by {
            if j == 0 {
                assert(c.inputs[0] == s);
            } else {
                assert(c.inputs[1] == ones);
            }
        }
    }
    let handed = contributions(t, s);
    assert(t.inputs[0] == x);
    assert(handed =~= seq![Some(c)]);
    assert(contributable(t, s));
    assert(step(t, s, empty) == Some((empty, handed)));
    // the variable gathers it as it arrives
    assert(arriving(x, c) == c);
    assert(step(x, c, empty) == Some((empty.insert(name, c), Seq::<Option<Tree>>::empty())));
    assert(backprop_inputs(x, Seq::<Option<Tree>>::empty(), 0, empty.insert(name, c)) == Some(
        empty.insert(name, c),
    ));
    assert(backprop(x, c, empty) == Some(empty.insert(name, c)));
    assert(backprop_inputs(t, handed, 0, empty.insert(name, c)) == Some(empty.insert(name, c)));
    assert(backprop_inputs(t, handed, 1, empty) == Some(empty.insert(name, c)));
    assert(backprop(t, s, empty) == Some(empty.insert(name, c)));
}

/// The gradient of the sum of all elements of a variable with respect to the variable, in
/// simplified form, is a constant: what the kernel returns for the product of ones of the
/// shape of the variable and the scalar one, whatever the variable holds. Where that
/// product is ones, the gradient is ones of the shape of the variable.
pub proof fn lemma_gradient_of_sum_is_ones<K: Fn(&Operation, &Vec<Tensor>) -> Tensor>(
    name: Seq<char>,
    cell: usize,
    shape: Seq<usize>,
    cells: Seq<TensorView>,
    k: K,
)
    requires
        kernel_ok(k),
        crate::shape::fits(shape),
        returned(
            k,
            OperationView::Mul,
            seq![TensorView::filled(shape, ONE), TensorView::filled(Seq::empty(), ONE)],
        ),
    ensures
        ({
            let product = kernel_value(
                k,
                OperationView::Mul,
                seq![TensorView::filled(shape, ONE), TensorView::filled(Seq::empty(), ONE)],
            );
            let found = gradient(
                Tree::unary(OperationView::Sum, variable(name, cell, shape)),
                name,
                cells,
                k,
            );
            &&& found == Some(literal(product))
            &&& value(found->0, cells, k) == product
            &&& product == TensorView::filled(shape, ONE) ==> value(found->0, cells, k)
                == TensorView::filled(shape, ONE)
        }),
{
    lemma_gradient_of_sum(name, cell, shape);
    let one = TensorView::filled(Seq::<usize>::empty(), ONE);
    let ones = TensorView::filled(shape, ONE);
    let product = kernel_value(k, OperationView::Mul, seq![ones, one]);
    let c = Tree::binary(OperationView::Mul, number(ONE), literal(ones));
    // what the kernel returns is well formed and has the shape of the variable
    assert(produces(k, OperationView::Mul, seq![ones, one], product));
    let (o, i, r) = choose|o: Operation, i: Vec<Tensor>, r: Tensor|
        o@ == OperationView::Mul && views(i@) == seq![ones, one] && #[trigger] k.ensures(
            (&o, &i),
            r,
        ) && r@ == product;
    assert(k.ensures((&o, &i), r));
    assert(shapes(seq![ones, one]) =~= seq![shape, Seq::<usize>::empty()]);
    assert(product.wf() && product.shape == shape);
    // the product of two constants is fixed, and its value is that product
    assert(size(Seq::<usize>::empty()) == 1);
    assert(one.wf());
    assert(number(ONE).input_shapes() =~= Seq::<Seq<usize>>::empty());
    assert(literal(ones).input_shapes() =~= Seq::<Seq<usize>>::empty());
    assert(number(ONE).shape() =~= Seq::<usize>::empty());
    assert(literal(ones).shape() == shape);
    assert(c.input_shapes() =~= seq![Seq::<usize>::empty(), shape]);
    assert(c.shape() == shape);
    assert(constant(c, cells, k)) by {
        assert(constant(c.inputs[0], cells, k));
        assert(constant(c.inputs[1], cells, k));
    }
    assert(values(c.inputs, cells, k) =~= seq![one, ones]);
    assert(candidate(k, OperationView::Mul, seq![one, ones]) == Some(product)) by {
        reveal(candidate);
    }
    assert(value(c, cells, k) == product);
    let lit = literal(product);
    assert(lit.input_shapes() =~= Seq::<Seq<usize>>::empty());
    assert(lit.shape() == shape);
    assert(simplified(c, cells, k) == Some(lit));
    let gathered = Map::<Seq<char>, Tree>::empty().insert(name, c);
    assert(gathered.contains_key(name) && gathered[name] == c);
}

} // verus!

//! The numeric kernel: the function, supplied by the caller, that computes the value of one
//! operation from the values of its inputs. The algebra decides what is computed and in
//! which order; the kernel does the arithmetic.
//!
//! Where the arrays fit their operation, the kernel is asked for sums and products (a
//! scalar operand standing on the right), for differences and quotients, for exponentials,
//! logarithms and square roots, for the sum of all elements and the sum along one axis,
//! and for the products of a matrix with a matrix and with a vector. Every other
//! operation is made of these. Where the arrays do not fit, the kernel is asked for the
//! operation as it stands, and is expected not to return.

use vstd::prelude::*;
use crate::algebra::apply::{applied, fitting, settled};
use crate::algebra::operation::{infer, Operation, OperationView};
use crate::algebra::tree::Tree;
use crate::tensor::{shapes, views, Tensor, TensorView};

verus! {

/// Whether the arrays are well formed and inference gives the operation a shape on them.
pub open spec fn applicable(operation: OperationView, inputs: Seq<TensorView>) -> bool {
    &&& forall|j: int| 0 <= j < inputs.len() ==> (#[trigger] inputs[j]).wf()
    &&& infer(operation, shapes(inputs)) is Some
}

/// What the algebra asks of a kernel:
/// it can be called on every operation with well-formed inputs to which inference gives a
/// shape; what it returns is well formed and has that shape; it does not return for a
/// placeholder without a value; and what it returns depends on the operation and the
/// inputs alone.
pub open spec fn kernel_ok<K: Fn(&Operation, &Vec<Tensor>) -> Tensor>(k: K) -> bool {
    &&& forall|o: &Operation, i: &Vec<Tensor>|
        applicable(o@, views(i@)) ==> #[trigger] k.requires((o, i))
    &&& forall|o: &Operation, i: &Vec<Tensor>, r: Tensor| #[trigger]
        k.ensures((o, i), r) ==> {
            &&& r@.wf()
            &&& !(o@ is Unevaluable)
            &&& infer(o@, shapes(views(i@))) == Some(r@.shape)
        }
    &&& forall|o1: &Operation, i1: &Vec<Tensor>, r1: Tensor, o2: &Operation, i2: &Vec<Tensor>, r2: Tensor|
        #[trigger] k.ensures((o1, i1), r1) && #[trigger] k.ensures((o2, i2), r2) && o1@ == o2@
            && views(i1@) == views(i2@) ==> r1@ == r2@
}

/// Whether the kernel can return `v` for the operation on the inputs.
pub open spec fn produces<K: Fn(&Operation, &Vec<Tensor>) -> Tensor>(
    k: K,
    operation: OperationView,
    inputs: Seq<TensorView>,
    v: TensorView,
) -> bool {
    exists|o: Operation, i: Vec<Tensor>, r: Tensor|
        o@ == operation && views(i@) == inputs && #[trigger] k.ensures((&o, &i), r) && r@ == v
}

/// The array that the kernel returns for the operation on the inputs.
pub open spec fn kernel_value<K: Fn(&Operation, &Vec<Tensor>) -> Tensor>(
    k: K,
    operation: OperationView,
    inputs: Seq<TensorView>,
) -> TensorView {
    choose|v: TensorView| produces(k, operation, inputs, v)
}

/// What a call of the kernel returned is the kernel's value for these arguments.
pub proof fn lemma_kernel_value<K: Fn(&Operation, &Vec<Tensor>) -> Tensor>(
    k: K,
    o: Operation,
    i: Vec<Tensor>,
    r: Tensor,
)
    requires
        kernel_ok(k),
        k.ensures((&o, &i), r),
    ensures
        r@ == kernel_value(k, o@, views(i@)),
        r@.wf(),
        infer(o@, shapes(views(i@))) == Some(r@.shape),
        !(o@ is Unevaluable),
{
    assert(produces(k, o@, views(i@), r@));
    let v = kernel_value(k, o@, views(i@));
    assert(produces(k, o@, views(i@), v));
    let (o2, i2, r2) = choose|o2: Operation, i2: Vec<Tensor>, r2: Tensor|
        o2@ == o@ && views(i2@) == views(i@) && #[trigger] k.ensures((&o2, &i2), r2) && r2@ == v;
    assert(k.ensures((&o2, &i2), r2));
}

/// The values of a list of expressions, in order.
pub open spec fn values<K: Fn(&Operation, &Vec<Tensor>) -> Tensor>(
    trees: Seq<Tree>,
    cells: Seq<TensorView>,
    k: K,
) -> Seq<TensorView>
    decreases trees, 0nat,
{
    Seq::new(
        trees.len(),
        |j: int|
            if 0 <= j < trees.len() {
                value(trees[j], cells, k)
            } else {
                arbitrary()
            },
    )
}

/// The value of an expression: a constant is its literal, a variable is what its cell
/// holds, and any other term is what its operation makes of the values of its inputs.
pub open spec fn value<K: Fn(&Operation, &Vec<Tensor>) -> Tensor>(
    t: Tree,
    cells: Seq<TensorView>,
    k: K,
) -> TensorView
    decreases t, 1nat,
{
    match t.operation {
        OperationView::Constant { value } => value,
        OperationView::Variable { cell, .. } => cells[cell as int],
        _ => applied(k, t.operation, values(t.inputs, cells, k), t.shape()),
    }
}

/// Whether every term of the expression has a value: each term that is neither a constant
/// nor a variable is settled on the values of its inputs.
pub open spec fn valued<K: Fn(&Operation, &Vec<Tensor>) -> Tensor>(
    t: Tree,
    cells: Seq<TensorView>,
    k: K,
) -> bool
    decreases t,
{
    &&& t.operation is Constant || t.operation is Variable || settled(
        k,
        t.operation,
        values(t.inputs, cells, k),
        t.shape(),
    )
    &&& forall|j: int| 0 <= j < t.inputs.len() ==> valued(#[trigger] t.inputs[j], cells, k)
}

/// Where every term of a well-formed expression has a value and its variables
/// are bound, the value of the expression is well formed and has the shape that inference
/// gives the expression, and no placeholder occurs in the expression.
pub proof fn lemma_valued<K: Fn(&Operation, &Vec<Tensor>) -> Tensor>(
    t: Tree,
    cells: Seq<TensorView>,
    k: K,
)
    requires
        kernel_ok(k),
        t.wf(),
        t.bound(cells),
        valued(t, cells, k),
    ensures
        value(t, cells, k).wf(),
        value(t, cells, k).shape == t.shape(),
        t.evaluable(),
    decreases t,
{
    assert forall|j: int| 0 <= j < t.inputs.len() implies (#[trigger] t.inputs[j]).evaluable()
        && value(t.inputs[j], cells, k).shape == t.inputs[j].shape() by {
        lemma_valued(t.inputs[j], cells, k);
    }
    match t.operation {
        OperationView::Constant { value } => {},
        OperationView::Variable { cell, .. } => {},
        _ => {
            let ins = values(t.inputs, cells, k);
            crate::algebra::apply::lemma_settled_has_value(k, t.operation, ins, t.shape());
            if !fitting(k, t.operation, ins, t.shape()) {
                let v = kernel_value(k, t.operation, ins);
                assert(produces(k, t.operation, ins, v));
                let (o, i, r) = choose|o: Operation, i: Vec<Tensor>, r: Tensor|
                    o@ == t.operation && views(i@) == ins && #[trigger] k.ensures((&o, &i), r)
                        && r@ == v;
                assert(k.ensures((&o, &i), r));
                assert(shapes(ins) =~= t.input_shapes());
            }
        },
    }
}

/// Whether `output` is an array that a kernel may return for the operation on the inputs:
/// it is well formed and has the shape that inference gives the result.
pub fn accepts(operation: &Operation, inputs: &Vec<Tensor>, output: &Tensor) -> (r: bool)
    ensures
        r <==> output@.wf() && infer(operation@, shapes(views(inputs@))) == Some(output@.shape),
{
    if crate::shape::checked_size(output.shape()) != Some(output.len()) {
        return false;
    }
    let n: usize = inputs.len();
    let mut input_shapes: Vec<Vec<usize>> = Vec::new();
    let mut j: usize = 0;
    while j < n
        invariant
            n == inputs.len(),
            j <= n,
            input_shapes.len() == j,
            forall|p: int| 0 <= p < j ==> (#[trigger] input_shapes[p])@ == inputs[p]@.shape,
        decreases n - j,
    {
        input_shapes.push(inputs[j].shape().clone());
        j += 1;
    }
    proof {
        assert(crate::algebra::operation::shape_views(input_shapes@) =~= shapes(views(inputs@)));
    }
    match crate::algebra::operation::infer_shape(operation, &input_shapes) {
        Some(expected) => crate::shape::same(&expected, output.shape()),
        None => false,
    }
}

} // verus!

//! The value of a term from the values of its inputs.
//!
//! What needs no arithmetic on elements is done here: which operand is repeated, which
//! branch is selected, how elements are rearranged, how numbers compare. The arithmetic is
//! asked of the kernel, one array operation at a time. Where the arrays do not fit the
//! operation, the whole operation is handed to the kernel, which is expected not to return.

use vstd::prelude::*;
use crate::algebra::comparison::Op;
use crate::algebra::conv2d::{convolve, convolved};
use crate::algebra::kernel::{
    applicable, kernel_ok, kernel_value, lemma_kernel_value, produces,
};
use crate::algebra::operation::{infer, infer_shape, shape_views, Operation, OperationView};
use crate::layout::{
    broadcast, broadcast_of, expand, expand_of, reshape, reshape_of, transpose, transpose_of,
};
use crate::shape::{fits, same};
use crate::tensor::{is_zero, shapes, views, Tensor, TensorView, MINUS_ONE, NEGATIVE_ZERO, ONE, ZERO};

verus! {

/// Whether the kernel returns for the operation on the inputs.
pub open spec fn returned<K: Fn(&Operation, &Vec<Tensor>) -> Tensor>(
    k: K,
    operation: OperationView,
    inputs: Seq<TensorView>,
) -> bool {
    produces(k, operation, inputs, kernel_value(k, operation, inputs))
}

/// The scalar holding `bits`.
pub open spec fn scalar(bits: u32) -> TensorView {
    TensorView::filled(Seq::empty(), bits)
}

/// The element that stands for a truth value: one for true, zero for false.
pub open spec fn truth(b: bool) -> u32 {
    if b {
        ONE
    } else {
        ZERO
    }
}

/// The value of a sum or a product, which the kernel computes with a scalar on the right:
/// a scalar on the left changes sides.
pub open spec fn swapped<K: Fn(&Operation, &Vec<Tensor>) -> Tensor>(
    k: K,
    operation: OperationView,
    left: TensorView,
    right: TensorView,
) -> TensorView {
    if left.shape.len() == 0 {
        kernel_value(k, operation, seq![right, left])
    } else {
        kernel_value(k, operation, seq![left, right])
    }
}

/// The value of a difference: where the left operand is a scalar, the right operand times
/// minus one, plus the left.
pub open spec fn difference<K: Fn(&Operation, &Vec<Tensor>) -> Tensor>(
    k: K,
    left: TensorView,
    right: TensorView,
) -> TensorView {
    if left.shape.len() == 0 {
        kernel_value(
            k,
            OperationView::Add,
            seq![kernel_value(k, OperationView::Mul, seq![right, scalar(MINUS_ONE)]), left],
        )
    } else {
        kernel_value(k, OperationView::Sub, seq![left, right])
    }
}

/// The value of a quotient: operands of the same rank are divided as they are; a scalar
/// numerator is repeated up to the shape of the denominator; any other denominator is
/// repeated up to the shape of the numerator, where it can be.
pub open spec fn quotient<K: Fn(&Operation, &Vec<Tensor>) -> Tensor>(
    k: K,
    numerator: TensorView,
    denominator: TensorView,
) -> Option<TensorView> {
    if numerator.shape.len() == denominator.shape.len() {
        Some(kernel_value(k, OperationView::Div, seq![numerator, denominator]))
    } else if numerator.shape.len() == 0 {
        if numerator.data.len() > 0 {
            Some(
                kernel_value(
                    k,
                    OperationView::Div,
                    seq![TensorView::filled(denominator.shape, numerator.data[0]), denominator],
                ),
            )
        } else {
            None
        }
    } else {
        match broadcast_of(denominator, numerator.shape) {
            Some(repeated) => Some(
                kernel_value(k, OperationView::Div, seq![numerator, repeated]),
            ),
            None => None,
        }
    }
}

/// The value of a comparison: a scalar is compared with every element of the other
/// operand; arrays of the same shape are compared element by element.
pub open spec fn compared(op: Op, left: TensorView, right: TensorView) -> Option<TensorView> {
    if left.shape.len() == 0 && left.data.len() > 0 {
        Some(
            TensorView {
                shape: right.shape,
                data: Seq::new(
                    right.data.len(),
                    |i: int| truth(op.relates(left.data[0], right.data[i])),
                ),
            },
        )
    } else if right.shape.len() == 0 && right.data.len() > 0 {
        Some(
            TensorView {
                shape: left.shape,
                data: Seq::new(
                    left.data.len(),
                    |i: int| truth(op.relates(left.data[i], right.data[0])),
                ),
            },
        )
    } else if left.shape == right.shape && left.data.len() == right.data.len() {
        Some(
            TensorView {
                shape: left.shape,
                data: Seq::new(
                    left.data.len(),
                    |i: int| truth(op.relates(left.data[i], right.data[i])),
                ),
            },
        )
    } else {
        None
    }
}

/// The value of a selection: a scalar condition selects the false branch where it is
/// zero and the true branch elsewhere, the branch standing in for an array of the shape of
/// the other; any other condition `c` blends the branches as `c * t + (1 - c) * f`.
pub open spec fn selected<K: Fn(&Operation, &Vec<Tensor>) -> Tensor>(
    k: K,
    condition: TensorView,
    when_true: TensorView,
    when_false: TensorView,
) -> Option<TensorView> {
    if condition.shape.len() == 0 {
        if condition.data.len() == 0 {
            None
        } else if is_zero(condition.data[0]) {
            expand_of(when_false, when_true.shape)
        } else {
            expand_of(when_true, when_false.shape)
        }
    } else {
        Some(
            kernel_value(
                k,
                OperationView::Add,
                seq![
                    kernel_value(k, OperationView::Mul, seq![condition, when_true]),
                    kernel_value(
                        k,
                        OperationView::Mul,
                        seq![
                            kernel_value(
                                k,
                                OperationView::Sub,
                                seq![TensorView::filled(condition.shape, ONE), condition],
                            ),
                            when_false,
                        ],
                    ),
                ],
            ),
        )
    }
}

/// The value of a softmax: the exponentials divided by their sum.
pub open spec fn softmaxed<K: Fn(&Operation, &Vec<Tensor>) -> Tensor>(k: K, x: TensorView) -> TensorView {
    let exponentials = kernel_value(k, OperationView::Exp, seq![x]);
    let sum = kernel_value(k, OperationView::Sum, seq![exponentials]);
    kernel_value(k, OperationView::Div, seq![exponentials, sum])
}

/// The sum along the one axis `axis`.
pub open spec fn along(axis: usize) -> OperationView {
    OperationView::ReduceSum { axes: seq![axis] }
}

/// The value of a sum over the first `upto` of the listed axes: the array summed along
/// one axis after the other, where inference gives each sum a shape.
pub open spec fn summed_over<K: Fn(&Operation, &Vec<Tensor>) -> Tensor>(
    k: K,
    x: TensorView,
    axes: Seq<usize>,
    upto: int,
) -> Option<TensorView>
    decreases upto,
{
    if upto <= 0 || upto > axes.len() {
        Some(x)
    } else {
        match summed_over(k, x, axes, upto - 1) {
            Some(so_far) => if infer(along(axes[upto - 1]), seq![so_far.shape]) is Some {
                Some(kernel_value(k, along(axes[upto - 1]), seq![so_far]))
            } else {
                None
            },
            None => None,
        }
    }
}

/// The value of a sum with a bias: the bias is repeated up to the shape of the value,
/// where it can be, and added.
pub open spec fn biased<K: Fn(&Operation, &Vec<Tensor>) -> Tensor>(
    k: K,
    value: TensorView,
    bias: TensorView,
) -> Option<TensorView> {
    match broadcast_of(bias, value.shape) {
        Some(repeated) => Some(kernel_value(k, OperationView::Add, seq![value, repeated])),
        None => None,
    }
}

/// What the operation makes of the inputs where they fit it, by the rules of this module.
#[verifier::opaque]
pub open spec fn candidate<K: Fn(&Operation, &Vec<Tensor>) -> Tensor>(
    k: K,
    operation: OperationView,
    inputs: Seq<TensorView>,
) -> Option<TensorView> {
    if inputs.len() != operation.arity() {
        None
    } else {
        match operation {
            OperationView::Add => Some(swapped(k, operation, inputs[0], inputs[1])),
            OperationView::Mul => Some(swapped(k, operation, inputs[0], inputs[1])),
            OperationView::Sub => Some(difference(k, inputs[0], inputs[1])),
            OperationView::Div => quotient(k, inputs[0], inputs[1]),
            OperationView::Compare { op } => compared(op, inputs[0], inputs[1]),
            OperationView::Ternary => selected(k, inputs[0], inputs[1], inputs[2]),
            OperationView::Exp => Some(kernel_value(k, operation, inputs)),
            OperationView::Ln => Some(kernel_value(k, operation, inputs)),
            OperationView::Sqrt => Some(kernel_value(k, operation, inputs)),
            OperationView::Sum => Some(kernel_value(k, operation, inputs)),
            OperationView::MatMul => Some(kernel_value(k, operation, inputs)),
            OperationView::MatVecMul => Some(kernel_value(k, operation, inputs)),
            OperationView::Square => Some(
                kernel_value(k, OperationView::Mul, seq![inputs[0], inputs[0]]),
            ),
            OperationView::Softmax => Some(softmaxed(k, inputs[0])),
            OperationView::ReduceSum { axes } => summed_over(k, inputs[0], axes, axes.len() as int),
            OperationView::BroadcastTo { shape } => broadcast_of(inputs[0], shape),
            OperationView::Reshape { shape } => reshape_of(inputs[0], shape),
            OperationView::Transpose => transpose_of(inputs[0]),
            OperationView::BiasAdd => biased(k, inputs[0], inputs[1]),
            OperationView::Conv2D { stride, padding } => convolved(
                k,
                inputs[0],
                inputs[1],
                stride,
                padding,
            ),
            _ => None,
        }
    }
}

/// Whether the rules of this module give the operation on the inputs a well-formed value
/// of the shape `shape`.
pub open spec fn fitting<K: Fn(&Operation, &Vec<Tensor>) -> Tensor>(
    k: K,
    operation: OperationView,
    inputs: Seq<TensorView>,
    shape: Seq<usize>,
) -> bool {
    candidate(k, operation, inputs) matches Some(v) && v.wf() && v.shape == shape
}

/// The value of the operation on the inputs, `shape` being the shape that inference gives
/// it: what the rules of this module make of the inputs where that is well formed and of
/// that shape, and what the kernel makes of the whole operation elsewhere.
pub open spec fn applied<K: Fn(&Operation, &Vec<Tensor>) -> Tensor>(
    k: K,
    operation: OperationView,
    inputs: Seq<TensorView>,
    shape: Seq<usize>,
) -> TensorView {
    if fitting(k, operation, inputs, shape) {
        candidate(k, operation, inputs)->0
    } else {
        kernel_value(k, operation, inputs)
    }
}

/// Whether the operation on the inputs has a value: the rules of this module give it one
/// that fits, or the kernel returns for the whole operation.
pub open spec fn settled<K: Fn(&Operation, &Vec<Tensor>) -> Tensor>(
    k: K,
    operation: OperationView,
    inputs: Seq<TensorView>,
    shape: Seq<usize>,
) -> bool {
    fitting(k, operation, inputs, shape) || returned(k, operation, inputs)
}

/// Asks the kernel for the operation on the inputs.
pub(crate) fn invoke<K: Fn(&Operation, &Vec<Tensor>) -> Tensor>(
    kernel: &K,
    operation: &Operation,
    inputs: &Vec<Tensor>,
) -> (r: Tensor)
    requires
        kernel_ok(*kernel),
        applicable(operation@, views(inputs@)),
    ensures
        r@ == kernel_value(*kernel, operation@, views(inputs@)),
        r@.wf(),
        infer(operation@, shapes(views(inputs@))) == Some(r@.shape),
        returned(*kernel, operation@, views(inputs@)),
        !(operation@ is Unevaluable),
{
    let r = kernel(operation, inputs);
    proof {
        lemma_kernel_value(*kernel, *operation, *inputs, r);
        assert(produces(*kernel, operation@, views(inputs@), r@));
    }
    r
}

/// Asks the kernel for the operation on one input.
fn invoke1<K: Fn(&Operation, &Vec<Tensor>) -> Tensor>(
    kernel: &K,
    operation: &Operation,
    a: &Tensor,
) -> (r: Tensor)
    requires
        kernel_ok(*kernel),
        a@.wf(),
        infer(operation@, seq![a@.shape]) is Some,
    ensures
        r@ == kernel_value(*kernel, operation@, seq![a@]),
        r@.wf(),
        infer(operation@, seq![a@.shape]) == Some(r@.shape),
{
    let inputs: Vec<Tensor> = vec![a.copy()];
    proof {
        assert(views(inputs@) =~= seq![a@]);
        assert(shapes(views(inputs@)) =~= seq![a@.shape]);
    }
    invoke(kernel, operation, &inputs)
}

/// Asks the kernel for the operation on two inputs.
fn invoke2<K: Fn(&Operation, &Vec<Tensor>) -> Tensor>(
    kernel: &K,
    operation: &Operation,
    a: &Tensor,
    b: &Tensor,
) -> (r: Tensor)
    requires
        kernel_ok(*kernel),
        a@.wf(),
        b@.wf(),
        infer(operation@, seq![a@.shape, b@.shape]) is Some,
    ensures
        r@ == kernel_value(*kernel, operation@, seq![a@, b@]),
        r@.wf(),
        infer(operation@, seq![a@.shape, b@.shape]) == Some(r@.shape),
{
    let inputs: Vec<Tensor> = vec![a.copy(), b.copy()];
    proof {
        assert(views(inputs@) =~= seq![a@, b@]);
        assert(shapes(views(inputs@)) =~= seq![a@.shape, b@.shape]);
    }
    invoke(kernel, operation, &inputs)
}

/// Shape inference takes every pair of well-formed arrays for a sum, a difference, a
/// product or a quotient.
proof fn lemma_elementwise_applies(operation: OperationView, a: TensorView, b: TensorView)
    requires
        operation is Add || operation is Sub || operation is Mul || operation is Div,
        a.wf(),
        b.wf(),
    ensures
        infer(operation, seq![a.shape, b.shape]) == Some(
            crate::shape::elementwise(a.shape, b.shape),
        ),
{
}


/// The value of a sum or a product.
fn apply_swapped<K: Fn(&Operation, &Vec<Tensor>) -> Tensor>(
    kernel: &K,
    operation: &Operation,
    left: &Tensor,
    right: &Tensor,
) -> (r: Tensor)
    requires
        kernel_ok(*kernel),
        operation@ is Add || operation@ is Mul,
        left@.wf(),
        right@.wf(),
    ensures
        r@ == swapped(*kernel, operation@, left@, right@),
        r@.wf(),
{
    proof {
        lemma_elementwise_applies(operation@, left@, right@);
        lemma_elementwise_applies(operation@, right@, left@);
    }
    if left.ndim() == 0 {
        invoke2(kernel, operation, right, left)
    } else {
        invoke2(kernel, operation, left, right)
    }
}

/// The value of a difference.
fn apply_difference<K: Fn(&Operation, &Vec<Tensor>) -> Tensor>(
    kernel: &K,
    left: &Tensor,
    right: &Tensor,
) -> (r: Tensor)
    requires
        kernel_ok(*kernel),
        left@.wf(),
        right@.wf(),
    ensures
        r@ == difference(*kernel, left@, right@),
        r@.wf(),
{
    if left.ndim() == 0 {
        let minus = Tensor::scalar(MINUS_ONE);
        proof {
            lemma_elementwise_applies(OperationView::Mul, right@, minus@);
        }
        let negated = invoke2(kernel, &Operation::Mul, right, &minus);
        proof {
            lemma_elementwise_applies(OperationView::Add, negated@, left@);
        }
        invoke2(kernel, &Operation::Add, &negated, left)
    } else {
        proof {
            lemma_elementwise_applies(OperationView::Sub, left@, right@);
        }
        invoke2(kernel, &Operation::Sub, left, right)
    }
}

/// The value of a quotient, where the operands fit.
fn apply_quotient<K: Fn(&Operation, &Vec<Tensor>) -> Tensor>(
    kernel: &K,
    numerator: &Tensor,
    denominator: &Tensor,
) -> (r: Option<Tensor>)
    requires
        kernel_ok(*kernel),
        numerator@.wf(),
        denominator@.wf(),
    ensures
        r is Some <==> quotient(*kernel, numerator@, denominator@) is Some,
        r matches Some(t) ==> Some(t@) == quotient(*kernel, numerator@, denominator@) && t@.wf(),
{
    if numerator.ndim() == denominator.ndim() {
        proof {
            lemma_elementwise_applies(OperationView::Div, numerator@, denominator@);
        }
        Some(invoke2(kernel, &Operation::Div, numerator, denominator))
    } else if numerator.ndim() == 0 {
        if numerator.len() > 0 {
            let repeated = Tensor::filled(denominator.shape().clone(), numerator.data()[0]);
            proof {
                lemma_elementwise_applies(OperationView::Div, repeated@, denominator@);
            }
            Some(invoke2(kernel, &Operation::Div, &repeated, denominator))
        } else {
            None
        }
    } else {
        match broadcast(denominator, numerator.shape()) {
            Some(repeated) => {
                proof {
                    lemma_elementwise_applies(OperationView::Div, numerator@, repeated@);
                }
                Some(invoke2(kernel, &Operation::Div, numerator, &repeated))
            },
            None => None,
        }
    }
}

/// The element that stands for a truth value.
fn truth_bits(b: bool) -> (r: u32)
    ensures
        r == truth(b),
{
    if b {
        ONE
    } else {
        ZERO
    }
}

/// The value of a comparison, where the operands fit.
fn apply_compared(op: Op, left: &Tensor, right: &Tensor) -> (r: Option<Tensor>)
    requires
        left@.wf(),
        right@.wf(),
    ensures
        r is Some <==> compared(op, left@, right@) is Some,
        r matches Some(t) ==> Some(t@) == compared(op, left@, right@) && t@.wf(),
{
    let mut data: Vec<u32> = Vec::new();
    if left.ndim() == 0 && left.len() > 0 {
        let first: u32 = left.data()[0];
        let n: usize = right.len();
        let mut i: usize = 0;
        while i < n
            invariant
                n == right@.data.len(),
                first == left@.data[0],
                i <= n,
                data.len() == i,
                forall|j: int|
                    0 <= j < i ==> data[j] == truth(op.relates(first, right@.data[j])),
            decreases n - i,
        {
            data.push(truth_bits(op.cmp(first, right.data()[i])));
            i += 1;
        }
        proof {
            assert(data@ =~= compared(op, left@, right@)->0.data);
        }
        Tensor::new(right.shape().clone(), data)
    } else if right.ndim() == 0 && right.len() > 0 {
        let first: u32 = right.data()[0];
        let n: usize = left.len();
        let mut i: usize = 0;
        while i < n
            invariant
                n == left@.data.len(),
                first == right@.data[0],
                i <= n,
                data.len() == i,
                forall|j: int|
                    0 <= j < i ==> data[j] == truth(op.relates(left@.data[j], first)),
            decreases n - i,
        {
            data.push(truth_bits(op.cmp(left.data()[i], first)));
            i += 1;
        }
        proof {
            assert(data@ =~= compared(op, left@, right@)->0.data);
        }
        Tensor::new(left.shape().clone(), data)
    } else if same(left.shape(), right.shape()) && left.len() == right.len() {
        let n: usize = left.len();
        let mut i: usize = 0;
        while i < n
            invariant
                n == left@.data.len(),
                n == right@.data.len(),
                i <= n,
                data.len() == i,
                forall|j: int|
                    0 <= j < i ==> data[j] == truth(
                        op.relates(left@.data[j], right@.data[j]),
                    ),
            decreases n - i,
        {
            data.push(truth_bits(op.cmp(left.data()[i], right.data()[i])));
            i += 1;
        }
        proof {
            assert(data@ =~= compared(op, left@, right@)->0.data);
        }
        Tensor::new(left.shape().clone(), data)
    } else {
        None
    }
}

/// The value of a selection, where the operands fit.
fn apply_selected<K: Fn(&Operation, &Vec<Tensor>) -> Tensor>(
    kernel: &K,
    condition: &Tensor,
    when_true: &Tensor,
    when_false: &Tensor,
) -> (r: Option<Tensor>)
    requires
        kernel_ok(*kernel),
        condition@.wf(),
        when_true@.wf(),
        when_false@.wf(),
    ensures
        r is Some <==> selected(*kernel, condition@, when_true@, when_false@) is Some,
        r matches Some(t) ==> Some(t@) == selected(
            *kernel,
            condition@,
            when_true@,
            when_false@,
        ) && t@.wf(),
{
    if condition.ndim() == 0 {
        if condition.len() == 0 {
            None
        } else {
            let first: u32 = condition.data()[0];
            if first == ZERO || first == NEGATIVE_ZERO {
                expand(when_false, when_true.shape())
            } else {
                expand(when_true, when_false.shape())
            }
        }
    } else {
        let ones = Tensor::filled(condition.shape().clone(), ONE);
        proof {
            lemma_elementwise_applies(OperationView::Sub, ones@, condition@);
            lemma_elementwise_applies(OperationView::Mul, condition@, when_true@);
        }
        let rest = invoke2(kernel, &Operation::Sub, &ones, condition);
        let kept = invoke2(kernel, &Operation::Mul, condition, when_true);
        proof {
            lemma_elementwise_applies(OperationView::Mul, rest@, when_false@);
        }
        let other = invoke2(kernel, &Operation::Mul, &rest, when_false);
        proof {
            lemma_elementwise_applies(OperationView::Add, kept@, other@);
        }
        Some(invoke2(kernel, &Operation::Add, &kept, &other))
    }
}

/// The value of a softmax.
fn apply_softmaxed<K: Fn(&Operation, &Vec<Tensor>) -> Tensor>(kernel: &K, x: &Tensor) -> (r: Tensor)
    requires
        kernel_ok(*kernel),
        x@.wf(),
    ensures
        r@ == softmaxed(*kernel, x@),
        r@.wf(),
{
    proof {
        crate::algebra::construct::lemma_scalar_fits();
    }
    let exponentials = invoke1(kernel, &Operation::Exp, x);
    let sum = invoke1(kernel, &Operation::Sum, &exponentials);
    proof {
        lemma_elementwise_applies(OperationView::Div, exponentials@, sum@);
    }
    invoke2(kernel, &Operation::Div, &exponentials, &sum)
}

/// The value of a sum over the listed axes, where inference gives each sum a shape.
fn apply_summed<K: Fn(&Operation, &Vec<Tensor>) -> Tensor>(
    kernel: &K,
    x: &Tensor,
    axes: &Vec<usize>,
) -> (r: Option<Tensor>)
    requires
        kernel_ok(*kernel),
        x@.wf(),
    ensures
        r is Some <==> summed_over(*kernel, x@, axes@, axes@.len() as int) is Some,
        r matches Some(t) ==> Some(t@) == summed_over(*kernel, x@, axes@, axes@.len() as int)
            && t@.wf(),
{
    let n: usize = axes.len();
    let mut value: Tensor = x.copy();
    let mut i: usize = 0;
    while i < n
        invariant
            kernel_ok(*kernel),
            n == axes@.len(),
            i <= n,
            value@.wf(),
            summed_over(*kernel, x@, axes@, i as int) == Some(value@),
        decreases n - i,
    {
        let mut one: Vec<usize> = Vec::new();
        one.push(axes[i]);
        let operation = Operation::ReduceSum { axes: one };
        let mut input_shapes: Vec<Vec<usize>> = Vec::new();
        input_shapes.push(value.shape().clone());
        proof {
            assert(operation@ == along(axes@[i as int])) by {
                assert(one@ =~= seq![axes@[i as int]]);
            }
            assert(shape_views(input_shapes@) =~= seq![value@.shape]);
        }
        if infer_shape(&operation, &input_shapes).is_none() {
            proof {
                lemma_summed_fails(*kernel, x@, axes@, i + 1, n as int);
            }
            return None;
        }
        value = invoke1(kernel, &operation, &value);
        i += 1;
    }
    Some(value)
}

/// Once a sum along an axis has no shape, the sums after it have no value.
proof fn lemma_summed_fails<K: Fn(&Operation, &Vec<Tensor>) -> Tensor>(
    k: K,
    x: TensorView,
    axes: Seq<usize>,
    failed: int,
    upto: int,
)
    requires
        0 < failed <= upto <= axes.len(),
        summed_over(k, x, axes, failed) is None,
    ensures
        summed_over(k, x, axes, upto) is None,
    decreases upto - failed,
{
    if failed < upto {
        lemma_summed_fails(k, x, axes, failed, upto - 1);
    }
}

/// The value of a sum with a bias, where the bias fits.
fn apply_biased<K: Fn(&Operation, &Vec<Tensor>) -> Tensor>(
    kernel: &K,
    value: &Tensor,
    bias: &Tensor,
) -> (r: Option<Tensor>)
    requires
        kernel_ok(*kernel),
        value@.wf(),
        bias@.wf(),
    ensures
        r is Some <==> biased(*kernel, value@, bias@) is Some,
        r matches Some(t) ==> Some(t@) == biased(*kernel, value@, bias@) && t@.wf(),
{
    match broadcast(bias, value.shape()) {
        Some(repeated) => {
            proof {
                lemma_elementwise_applies(OperationView::Add, value@, repeated@);
            }
            Some(invoke2(kernel, &Operation::Add, value, &repeated))
        },
        None => None,
    }
}

/// What the operation makes of the inputs where they fit it.
fn try_candidate<K: Fn(&Operation, &Vec<Tensor>) -> Tensor>(
    operation: &Operation,
    inputs: &Vec<Tensor>,
    kernel: &K,
) -> (r: Option<Tensor>)
    requires
        kernel_ok(*kernel),
        applicable(operation@, views(inputs@)),
    ensures
        r is Some <==> candidate(*kernel, operation@, views(inputs@)) is Some,
        r matches Some(t) ==> Some(t@) == candidate(*kernel, operation@, views(inputs@))
            && t@.wf(),
{
    let ghost ins = views(inputs@);
    proof {
        reveal(candidate);
        assert forall|j: int| 0 <= j < inputs.len() implies (#[trigger] inputs[j])@.wf() by {
            assert(ins[j].wf());
        }
        assert forall|j: int| 0 <= j < inputs.len() implies ins[j] == inputs[j]@ by {
        }
    }
    match operation {
        Operation::Add | Operation::Mul => Some(
            apply_swapped(kernel, operation, &inputs[0], &inputs[1]),
        ),
        Operation::Sub => Some(apply_difference(kernel, &inputs[0], &inputs[1])),
        Operation::Div => apply_quotient(kernel, &inputs[0], &inputs[1]),
        Operation::Compare { op } => apply_compared(*op, &inputs[0], &inputs[1]),
        Operation::Ternary => apply_selected(kernel, &inputs[0], &inputs[1], &inputs[2]),
        Operation::Exp | Operation::Ln | Operation::Sqrt | Operation::Sum | Operation::MatMul
        | Operation::MatVecMul => Some(invoke(kernel, operation, inputs)),
        Operation::Square => {
            proof {
                lemma_elementwise_applies(OperationView::Mul, ins[0], ins[0]);
            }
            Some(invoke2(kernel, &Operation::Mul, &inputs[0], &inputs[0]))
        },
        Operation::Softmax => Some(apply_softmaxed(kernel, &inputs[0])),
        Operation::ReduceSum { axes } => apply_summed(kernel, &inputs[0], axes),
        Operation::BroadcastTo { shape } => broadcast(&inputs[0], shape),
        Operation::Reshape { shape } => reshape(&inputs[0], shape),
        Operation::Transpose => transpose(&inputs[0]),
        Operation::BiasAdd => apply_biased(kernel, &inputs[0], &inputs[1]),
        Operation::Conv2D { stride, padding } => convolve(
            kernel,
            &inputs[0],
            &inputs[1],
            *stride,
            *padding,
        ),
        _ => None,
    }
}

/// The value of the operation on the inputs; `expected` is the shape that inference gives
/// it. When the call returns, the operation had a value.
pub fn apply<K: Fn(&Operation, &Vec<Tensor>) -> Tensor>(
    operation: &Operation,
    inputs: &Vec<Tensor>,
    expected: &Vec<usize>,
    kernel: &K,
) -> (r: Tensor)
    requires
        kernel_ok(*kernel),
        forall|j: int| 0 <= j < inputs.len() ==> (#[trigger] inputs[j])@.wf(),
        infer(operation@, shapes(views(inputs@))) == Some(expected@),
    ensures
        r@ == applied(*kernel, operation@, views(inputs@), expected@),
        r@.wf(),
        r@.shape == expected@,
        settled(*kernel, operation@, views(inputs@), expected@),
{
    proof {
        assert forall|j: int| 0 <= j < views(inputs@).len() implies (#[trigger] views(
            inputs@,
        )[j]).wf() by {
            assert(inputs[j]@.wf());
        }
    }
    match try_candidate(operation, inputs, kernel) {
        Some(t) => {
            if same(t.shape(), expected) {
                return t;
            }
        },
        None => {},
    }
    invoke(kernel, operation, inputs)
}

/// An operation that is settled is no placeholder: the rules of this module give a
/// placeholder no value, and the kernel does not return for one.
pub proof fn lemma_settled_has_value<K: Fn(&Operation, &Vec<Tensor>) -> Tensor>(
    k: K,
    operation: OperationView,
    inputs: Seq<TensorView>,
    shape: Seq<usize>,
)
    requires
        kernel_ok(k),
        settled(k, operation, inputs, shape),
    ensures
        !(operation is Unevaluable),
{
    if operation is Unevaluable {
        reveal(candidate);
        assert(candidate(k, operation, inputs) is None);
        let v = kernel_value(k, operation, inputs);
        assert(produces(k, operation, inputs, v));
        let (o, i, r) = choose|o: Operation, i: Vec<Tensor>, r: Tensor|
            o@ == operation && views(i@) == inputs && #[trigger] k.ensures((&o, &i), r) && r@
                == v;
        assert(k.ensures((&o, &i), r));
    }
}

/// The sum of a scalar `c` and an array `x` that is no scalar has the same value on
/// whichever side the scalar stands, and so has their product: where the kernel returns
/// for the operation with the scalar on the right, that is the value of both.
pub proof fn lemma_scalar_commutes<K: Fn(&Operation, &Vec<Tensor>) -> Tensor>(
    k: K,
    operation: OperationView,
    c: TensorView,
    x: TensorView,
)
    requires
        kernel_ok(k),
        operation is Add || operation is Mul,
        c.wf(),
        x.wf(),
        c.shape.len() == 0,
        x.shape.len() > 0,
        returned(k, operation, seq![x, c]),
    ensures
        applied(k, operation, seq![c, x], x.shape) == kernel_value(k, operation, seq![x, c]),
        applied(k, operation, seq![x, c], x.shape) == kernel_value(k, operation, seq![x, c]),
        applied(k, operation, seq![c, x], x.shape) == applied(k, operation, seq![x, c], x.shape),
{
    reveal(candidate);
    let v = kernel_value(k, operation, seq![x, c]);
    assert(produces(k, operation, seq![x, c], v));
    let (o, i, r) = choose|o: Operation, i: Vec<Tensor>, r: Tensor|
        o@ == operation && views(i@) == seq![x, c] && #[trigger] k.ensures((&o, &i), r) && r@
            == v;
    assert(k.ensures((&o, &i), r));
    assert(shapes(seq![x, c]) =~= seq![x.shape, c.shape]);
    lemma_elementwise_applies(operation, x, c);
    assert(v.wf() && v.shape == x.shape);
    assert(candidate(k, operation, seq![c, x]) == Some(v));
    assert(candidate(k, operation, seq![x, c]) == Some(v));
}

} // verus!

//! The operations of the algebra and the shape that each gives its result.

use vstd::prelude::*;
use crate::algebra::comparison::Op;
use crate::shape::{axes_within, checked_size, elementwise, fits, reduced, select};
use crate::tensor::{Tensor, TensorView};

verus! {

/// How a convolution treats the border of its input.
#[derive(Clone, Copy, Debug, PartialEq, Eq, Structural)]
pub enum Padding {
    /// The input is padded with zeros.
    Same,
    /// The kernel stays inside the input.
    Valid,
}

/// What a term computes from the values of its inputs.
#[derive(Clone, Debug)]
pub enum Operation {
    /// A literal array. No input.
    Constant { value: Tensor },
    /// The current value of a cell, known to differentiation by `name`. No input.
    Variable { name: String, cell: usize, shape: Vec<usize> },
    /// A placeholder of known shape that has no value. No input.
    Unevaluable { reason: String, shape: Vec<usize> },
    /// Elementwise sum of two inputs.
    Add,
    /// Elementwise difference of two inputs.
    Sub,
    /// Elementwise product of two inputs.
    Mul,
    /// Elementwise quotient of two inputs.
    Div,
    /// Elementwise test of a relation between two inputs.
    Compare { op: Op },
    /// Selection between the second and the third input by the first.
    Ternary,
    /// Elementwise exponential.
    Exp,
    /// Elementwise natural logarithm.
    Ln,
    /// Elementwise square.
    Square,
    /// Elementwise square root.
    Sqrt,
    /// Sum of all elements, a scalar.
    Sum,
    /// Sum over the listed axes, each of which keeps length one.
    ReduceSum { axes: Vec<usize> },
    /// Repetition along missing and unit axes up to `shape`.
    BroadcastTo { shape: Vec<usize> },
    /// The same elements under another shape.
    Reshape { shape: Vec<usize> },
    /// The axes in opposite order.
    Transpose,
    /// Matrix product of two matrices.
    MatMul,
    /// Product of a matrix and a vector.
    MatVecMul,
    /// Two-dimensional convolution of an image with a kernel.
    Conv2D { stride: usize, padding: Padding },
    /// Sum of a value and a bias vector along the last axis.
    BiasAdd,
    /// Exponentials divided by their sum over the whole array.
    Softmax,
}

/// An operation with its payload as mathematical values.
pub enum OperationView {
    Constant { value: TensorView },
    Variable { name: Seq<char>, cell: usize, shape: Seq<usize> },
    Unevaluable { reason: Seq<char>, shape: Seq<usize> },
    Add,
    Sub,
    Mul,
    Div,
    Compare { op: Op },
    Ternary,
    Exp,
    Ln,
    Square,
    Sqrt,
    Sum,
    ReduceSum { axes: Seq<usize> },
    BroadcastTo { shape: Seq<usize> },
    Reshape { shape: Seq<usize> },
    Transpose,
    MatMul,
    MatVecMul,
    Conv2D { stride: usize, padding: Padding },
    BiasAdd,
    Softmax,
}

impl View for Operation {
    type V = OperationView;

    open spec fn view(&self) -> OperationView {
        match *self {
            Operation::Constant { value } => OperationView::Constant { value: value@ },
            Operation::Variable { name, cell, shape } => OperationView::Variable {
                name: name@,
                cell,
                shape: shape@,
            },
            Operation::Unevaluable { reason, shape } => OperationView::Unevaluable {
                reason: reason@,
                shape: shape@,
            },
            Operation::Add => OperationView::Add,
            Operation::Sub => OperationView::Sub,
            Operation::Mul => OperationView::Mul,
            Operation::Div => OperationView::Div,
            Operation::Compare { op } => OperationView::Compare { op },
            Operation::Ternary => OperationView::Ternary,
            Operation::Exp => OperationView::Exp,
            Operation::Ln => OperationView::Ln,
            Operation::Square => OperationView::Square,
            Operation::Sqrt => OperationView::Sqrt,
            Operation::Sum => OperationView::Sum,
            Operation::ReduceSum { axes } => OperationView::ReduceSum { axes: axes@ },
            Operation::BroadcastTo { shape } => OperationView::BroadcastTo { shape: shape@ },
            Operation::Reshape { shape } => OperationView::Reshape { shape: shape@ },
            Operation::Transpose => OperationView::Transpose,
            Operation::MatMul => OperationView::MatMul,
            Operation::MatVecMul => OperationView::MatVecMul,
            Operation::Conv2D { stride, padding } => OperationView::Conv2D { stride, padding },
            Operation::BiasAdd => OperationView::BiasAdd,
            Operation::Softmax => OperationView::Softmax,
        }
    }
}

impl Operation {
    /// A copy of the operation with its payload.
    pub fn copy(&self) -> (r: Operation)
        ensures
            r@ == self@,
    {
        match self {
            Operation::Constant { value } => Operation::Constant { value: value.copy() },
            Operation::Variable { name, cell, shape } => Operation::Variable {
                name: name.clone(),
                cell: *cell,
                shape: shape.clone(),
            },
            Operation::Unevaluable { reason, shape } => Operation::Unevaluable {
                reason: reason.clone(),
                shape: shape.clone(),
            },
            Operation::Add => Operation::Add,
            Operation::Sub => Operation::Sub,
            Operation::Mul => Operation::Mul,
            Operation::Div => Operation::Div,
            Operation::Compare { op } => Operation::Compare { op: *op },
            Operation::Ternary => Operation::Ternary,
            Operation::Exp => Operation::Exp,
            Operation::Ln => Operation::Ln,
            Operation::Square => Operation::Square,
            Operation::Sqrt => Operation::Sqrt,
            Operation::Sum => Operation::Sum,
            Operation::ReduceSum { axes } => Operation::ReduceSum { axes: axes.clone() },
            Operation::BroadcastTo { shape } => Operation::BroadcastTo { shape: shape.clone() },
            Operation::Reshape { shape } => Operation::Reshape { shape: shape.clone() },
            Operation::Transpose => Operation::Transpose,
            Operation::MatMul => Operation::MatMul,
            Operation::MatVecMul => Operation::MatVecMul,
            Operation::Conv2D { stride, padding } => Operation::Conv2D {
                stride: *stride,
                padding: *padding,
            },
            Operation::BiasAdd => Operation::BiasAdd,
            Operation::Softmax => Operation::Softmax,
        }
    }
}

impl OperationView {
    /// The number of inputs that the operation takes.
    pub open spec fn arity(self) -> nat {
        match self {
            OperationView::Constant { .. } => 0,
            OperationView::Variable { .. } => 0,
            OperationView::Unevaluable { .. } => 0,
            OperationView::Add => 2,
            OperationView::Sub => 2,
            OperationView::Mul => 2,
            OperationView::Div => 2,
            OperationView::Compare { .. } => 2,
            OperationView::Ternary => 3,
            OperationView::Exp => 1,
            OperationView::Ln => 1,
            OperationView::Square => 1,
            OperationView::Sqrt => 1,
            OperationView::Sum => 1,
            OperationView::ReduceSum { .. } => 1,
            OperationView::BroadcastTo { .. } => 1,
            OperationView::Reshape { .. } => 1,
            OperationView::Transpose => 1,
            OperationView::MatMul => 2,
            OperationView::MatVecMul => 2,
            OperationView::Conv2D { .. } => 2,
            OperationView::BiasAdd => 2,
            OperationView::Softmax => 1,
        }
    }

    /// Whether the operation has no input: a constant, a variable or a placeholder.
    pub open spec fn is_leaf(self) -> bool {
        self is Constant || self is Variable || self is Unevaluable
    }
}

/// Output shape of a convolution of an image of shape `(height, width, channels)` with a
/// kernel of shape `(kernel height, kernel width, channels, filters)`. With `Same` padding
/// the spatial lengths are those of the image divided by the stride; with `Valid` padding
/// the kernel has to fit and is stepped over the positions where it lies inside the image.
pub open spec fn conv2d_shape(
    input: Seq<usize>,
    kernel: Seq<usize>,
    stride: usize,
    padding: Padding,
) -> Option<Seq<usize>> {
    if input.len() < 2 || kernel.len() < 4 || stride == 0 {
        None
    } else {
        match padding {
            Padding::Same => Some(seq![input[0] / stride, input[1] / stride, kernel[3]]),
            Padding::Valid => {
                if input[0] >= kernel[0] && input[1] >= kernel[1] && (input[0] - kernel[0])
                    / (stride as int) < usize::MAX && (input[1] - kernel[1]) / (stride as int)
                    < usize::MAX {
                    Some(
                        seq![
                            ((input[0] - kernel[0]) / (stride as int) + 1) as usize,
                            ((input[1] - kernel[1]) / (stride as int) + 1) as usize,
                            kernel[3],
                        ],
                    )
                } else {
                    None
                }
            },
        }
    }
}

/// The shape that the operation gives its result from the shapes of its inputs, where the
/// rules of the operation determine one. The element count is not looked at.
pub open spec fn result_shape(operation: OperationView, inputs: Seq<Seq<usize>>) -> Option<
    Seq<usize>,
> {
    if inputs.len() != operation.arity() {
        None
    } else {
        match operation {
            OperationView::Constant { value } => if value.wf() {
                Some(value.shape)
            } else {
                None
            },
            OperationView::Variable { shape, .. } => Some(shape),
            OperationView::Unevaluable { shape, .. } => Some(shape),
            OperationView::Add => Some(elementwise(inputs[0], inputs[1])),
            OperationView::Sub => Some(elementwise(inputs[0], inputs[1])),
            OperationView::Mul => Some(elementwise(inputs[0], inputs[1])),
            OperationView::Div => Some(elementwise(inputs[0], inputs[1])),
            OperationView::Compare { .. } => Some(elementwise(inputs[0], inputs[1])),
            OperationView::Ternary => Some(select(inputs[0], inputs[1], inputs[2])),
            OperationView::Exp => Some(inputs[0]),
            OperationView::Ln => Some(inputs[0]),
            OperationView::Square => Some(inputs[0]),
            OperationView::Sqrt => Some(inputs[0]),
            OperationView::Sum => Some(Seq::empty()),
            OperationView::ReduceSum { axes } => if axes_within(axes, inputs[0].len()) {
                Some(reduced(inputs[0], axes))
            } else {
                None
            },
            OperationView::BroadcastTo { shape } => Some(shape),
            OperationView::Reshape { shape } => Some(shape),
            OperationView::Transpose => Some(inputs[0].reverse()),
            OperationView::MatMul => if inputs[0].len() >= 1 && inputs[1].len() >= 2 {
                Some(seq![inputs[0][0], inputs[1][1]])
            } else {
                None
            },
            OperationView::MatVecMul => if inputs[0].len() >= 1 {
                Some(seq![inputs[0][0]])
            } else {
                None
            },
            OperationView::Conv2D { stride, padding } => conv2d_shape(
                inputs[0],
                inputs[1],
                stride,
                padding,
            ),
            OperationView::BiasAdd => Some(inputs[0]),
            OperationView::Softmax => Some(inputs[0]),
        }
    }
}

/// Shape inference: the shape of the result of `operation` on inputs of the given shapes.
/// It is defined where the rules of the operation determine a shape and an array of that
/// shape has a number of elements that a machine word holds.
pub open spec fn infer(operation: OperationView, inputs: Seq<Seq<usize>>) -> Option<Seq<usize>> {
    match result_shape(operation, inputs) {
        Some(shape) => if fits(shape) {
            Some(shape)
        } else {
            None
        },
        None => None,
    }
}

/// The shapes of a list of shapes.
pub open spec fn shape_views(inputs: Seq<Vec<usize>>) -> Seq<Seq<usize>> {
    Seq::new(inputs.len(), |j: int| inputs[j]@)
}

/// The shape that inference gives the result of `operation` on inputs of the given shapes,
/// where it gives one.
pub fn infer_shape(operation: &Operation, inputs: &Vec<Vec<usize>>) -> (r: Option<Vec<usize>>)
    ensures
        r is Some <==> infer(operation@, shape_views(inputs@)) is Some,
        r is Some ==> infer(operation@, shape_views(inputs@)) == Some(r->0@),
{
    let ghost shapes = shape_views(inputs@);
    let n: usize = inputs.len();
    proof {
        assert forall|j: int| 0 <= j < n implies shapes[j] == inputs[j]@ by {
        }
    }
    let raw: Option<Vec<usize>> = match operation {
        Operation::Constant { value } => {
            if n == 0 && checked_size(value.shape()) == Some(value.len()) {
                Some(value.shape().clone())
            } else {
                None
            }
        },
        Operation::Variable { shape, .. } => {
            if n == 0 {
                Some(shape.clone())
            } else {
                None
            }
        },
        Operation::Unevaluable { shape, .. } => {
            if n == 0 {
                Some(shape.clone())
            } else {
                None
            }
        },
        Operation::Add | Operation::Sub | Operation::Mul | Operation::Div | Operation::Compare {
            ..
        } => {
            if n == 2 {
                let left = (&inputs[0]);
                if left.len() != 0 {
                    Some(left.clone())
                } else {
                    Some((&inputs[1]).clone())
                }
            } else {
                None
            }
        },
        Operation::Ternary => {
            if n == 3 {
                let when_true = (&inputs[1]);
                let when_false = (&inputs[2]);
                if when_true.len() > 0 {
                    Some(when_true.clone())
                } else if when_false.len() > 0 {
                    Some(when_false.clone())
                } else {
                    Some((&inputs[0]).clone())
                }
            } else {
                None
            }
        },
        Operation::Exp | Operation::Ln | Operation::Square | Operation::Sqrt
        | Operation::Softmax => {
            if n == 1 {
                Some((&inputs[0]).clone())
            } else {
                None
            }
        },
        Operation::Sum => {
            if n == 1 {
                Some(Vec::new())
            } else {
                None
            }
        },
        Operation::ReduceSum { axes } => {
            if n == 1 && crate::shape::check_axes(axes, (&inputs[0]).len()) {
                Some(crate::shape::reduce((&inputs[0]), axes))
            } else {
                None
            }
        },
        Operation::BroadcastTo { shape } => {
            if n == 1 {
                Some(shape.clone())
            } else {
                None
            }
        },
        Operation::Reshape { shape } => {
            if n == 1 {
                Some(shape.clone())
            } else {
                None
            }
        },
        Operation::Transpose => {
            if n == 1 {
                Some(crate::shape::reversed((&inputs[0])))
            } else {
                None
            }
        },
        Operation::MatMul => {
            if n == 2 && (&inputs[0]).len() >= 1 && (&inputs[1]).len() >= 2 {
                let mut shape: Vec<usize> = Vec::new();
                shape.push((&inputs[0])[0]);
                shape.push((&inputs[1])[1]);
                assert(shape@ =~= seq![shapes[0][0], shapes[1][1]]);
                Some(shape)
            } else {
                None
            }
        },
        Operation::MatVecMul => {
            if n == 2 && (&inputs[0]).len() >= 1 {
                let mut shape: Vec<usize> = Vec::new();
                shape.push((&inputs[0])[0]);
                assert(shape@ =~= seq![shapes[0][0]]);
                Some(shape)
            } else {
                None
            }
        },
        Operation::Conv2D { stride, padding } => {
            if n == 2 {
                crate::algebra::conv2d::output_shape(
                    &inputs[0],
                    &inputs[1],
                    *stride,
                    *padding,
                )
            } else {
                None
            }
        },
        Operation::BiasAdd => {
            if n == 2 {
                Some((&inputs[0]).clone())
            } else {
                None
            }
        },
    };
    match raw {
        Some(shape) => {
            if checked_size(&shape).is_some() {
                Some(shape)
            } else {
                None
            }
        },
        None => None,
    }
}

} // verus!

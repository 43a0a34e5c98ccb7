//! Initial values for the variables of layers.

use vstd::prelude::*;
use crate::shape::{checked_size, fits, same};
use crate::tensor::{Tensor, TensorView, ONE, ZERO};

verus! {

/// Zeros of the given shape.
pub fn zeros(shape: &Vec<usize>) -> (r: Tensor)
    requires
        fits(shape@),
    ensures
        r@ == TensorView::filled(shape@, ZERO),
        r@.wf(),
{
    Tensor::zeros(shape.clone())
}

/// Ones of the given shape.
pub fn ones(shape: &Vec<usize>) -> (r: Tensor)
    requires
        fits(shape@),
    ensures
        r@ == TensorView::filled(shape@, ONE),
        r@.wf(),
{
    Tensor::ones(shape.clone())
}

/// The array `v`, which has the given shape.
pub fn copy(v: &Tensor, shape: &Vec<usize>) -> (r: Tensor)
    requires
        shape@ == v@.shape,
    ensures
        r@ == v@,
{
    v.copy()
}

/// The sum of the numbers of inputs and of outputs of the units that weights of the given
/// shape connect, where the shape has two, three or four axes: the sum of the lengths for
/// a matrix; else the product of the lengths of the leading axes times the sum of the last
/// two.
pub open spec fn fan_in_plus_out(shape: Seq<usize>) -> Option<int> {
    if shape.len() == 2 {
        Some(shape[0] + shape[1])
    } else if shape.len() == 3 {
        Some(shape[0] * (shape[1] + shape[2]))
    } else if shape.len() == 4 {
        Some(shape[0] * shape[1] * (shape[2] + shape[3]))
    } else {
        None
    }
}

/// The sum of the numbers of inputs and of outputs for weights of the given shape, where
/// there is one and a machine word holds it.
pub fn fan(shape: &Vec<usize>) -> (r: Option<usize>)
    ensures
        r is Some <==> fan_in_plus_out(shape@) is Some && fan_in_plus_out(shape@)->0
            <= usize::MAX,
        r matches Some(n) ==> fan_in_plus_out(shape@) == Some(n as int),
{
    let rank: usize = shape.len();
    if rank < 2 || rank > 4 {
        return None;
    }
    if rank == 2 {
        return shape[0].checked_add(shape[1]);
    }
    if shape[0] == 0 || (rank == 4 && shape[1] == 0) {
        proof {
            lemma_product(shape[0] as int, shape[1] as int, shape[rank - 2] + shape[rank - 1]);
        }
        return Some(0);
    }
    let lead: Option<usize> = if rank == 3 {
        Some(shape[0])
    } else {
        shape[0].checked_mul(shape[1])
    };
    let ends: Option<usize> = shape[rank - 2].checked_add(shape[rank - 1]);
    proof {
        lemma_product(shape[0] as int, shape[1] as int, shape[rank - 2] + shape[rank - 1]);
    }
    match (lead, ends) {
        (Some(lead), Some(ends)) => lead.checked_mul(ends),
        (None, Some(ends)) => if ends == 0 {
            Some(0)
        } else {
            None
        },
        _ => None,
    }
}

/// A product is zero where a factor is, and no less than each factor elsewhere.
proof fn lemma_product(a: int, b: int, c: int)
    requires
        a >= 0,
        b >= 0,
        c >= 0,
    ensures
        a * b >= 0,
        a == 0 ==> a * c == 0 && a * b * c == 0,
        b == 0 ==> a * b * c == 0,
        c == 0 ==> a * c == 0 && a * b * c == 0,
        a >= 1 ==> a * c >= c,
        a >= 1 && b >= 1 ==> a * b * c >= c && a * b >= 1,
        c >= 1 ==> a * b * c >= a * b,
{
    assert(a * b >= 0) by (nonlinear_arith)
        requires
            a >= 0,
            b >= 0,
    ;
    assert(a == 0 ==> a * c == 0 && a * b * c == 0) by (nonlinear_arith);
    assert(b == 0 ==> a * b * c == 0) by (nonlinear_arith);
    assert(c == 0 ==> a * c == 0 && a * b * c == 0) by (nonlinear_arith);
    assert(a >= 1 ==> a * c >= c) by (nonlinear_arith)
        requires
            c >= 0,
    ;
    assert(a >= 1 && b >= 1 ==> a * b >= 1) by (nonlinear_arith);
    let ab = a * b;
    assert(ab >= 1 ==> ab * c >= c) by (nonlinear_arith)
        requires
            c >= 0,
    ;
    assert(c >= 1 ==> ab * c >= ab) by (nonlinear_arith)
        requires
            ab >= 0,
    ;
}

/// How a variable gets its first value.
#[derive(Debug)]
pub enum Initializer {
    /// All zeros.
    Zeros,
    /// All ones.
    Ones,
    /// A given array, which has to have the shape of the variable.
    Copy { value: Tensor },
}

impl Initializer {
    /// The first value of a variable of the given shape, where there is one.
    pub open spec fn of(self, shape: Seq<usize>) -> Option<TensorView> {
        match self {
            Initializer::Zeros => if fits(shape) {
                Some(TensorView::filled(shape, ZERO))
            } else {
                None
            },
            Initializer::Ones => if fits(shape) {
                Some(TensorView::filled(shape, ONE))
            } else {
                None
            },
            Initializer::Copy { value } => if value@.shape == shape && value@.wf() {
                Some(value@)
            } else {
                None
            },
        }
    }

    /// The first value of a variable of the given shape, where there is one.
    pub fn make(&self, shape: &Vec<usize>) -> (r: Option<Tensor>)
        ensures
            r is Some <==> self.of(shape@) is Some,
            r matches Some(t) ==> Some(t@) == self.of(shape@) && t@.wf() && t@.shape == shape@,
    {
        match self {
            Initializer::Zeros => {
                if checked_size(shape).is_some() {
                    Some(zeros(shape))
                } else {
                    None
                }
            },
            Initializer::Ones => {
                if checked_size(shape).is_some() {
                    Some(ones(shape))
                } else {
                    None
                }
            },
            Initializer::Copy { value } => {
                if same(value.shape(), shape) && checked_size(value.shape()) == Some(value.len()) {
                    Some(copy(value, shape))
                } else {
                    None
                }
            },
        }
    }
}

} // verus!

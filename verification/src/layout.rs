//! Row-major layout: where the element at a position of an array lies among its elements,
//! and the rearrangements of elements that involve no arithmetic on them.

use vstd::prelude::*;
use crate::shape::{checked_size, fits, lemma_size_reverse, reversed, size};
use crate::tensor::{Tensor, TensorView};

verus! {

/// The position of the element with flat index `j` in an array of the given shape: the
/// index along each axis, the last axis varying fastest.
pub open spec fn unravel(shape: Seq<usize>, j: int) -> Seq<int>
    decreases shape.len(),
{
    if shape.len() == 0 {
        Seq::empty()
    } else {
        unravel(shape.drop_last(), j / (shape.last() as int)).push(j % (shape.last() as int))
    }
}

/// The flat index of the element at position `at` of an array of the given shape.
pub open spec fn ravel(shape: Seq<usize>, at: Seq<int>) -> int
    decreases shape.len(),
{
    if shape.len() == 0 || at.len() != shape.len() {
        0
    } else {
        ravel(shape.drop_last(), at.drop_last()) * (shape.last() as int) + at.last()
    }
}

/// The product of the axis lengths that are not zero.
pub open spec fn nonzero_size(shape: Seq<usize>) -> nat
    decreases shape.len(),
{
    if shape.len() == 0 {
        1
    } else if shape.last() == 0 {
        nonzero_size(shape.drop_last())
    } else {
        nonzero_size(shape.drop_last()) * (shape.last() as nat)
    }
}

/// A shape that `ndarray` takes for an array: the product of its axis lengths that are
/// not zero does not exceed the greatest `isize`.
pub open spec fn bounded(shape: Seq<usize>) -> bool {
    nonzero_size(shape) <= isize::MAX
}

/// Whether an array of shape `from` can be repeated up to the shape `to`: `to` has at
/// least as many axes, and each axis of `from`, matched with the axes of `to` from the
/// last, has the length of its match or the length one.
pub open spec fn broadcastable(from: Seq<usize>, to: Seq<usize>) -> bool {
    &&& from.len() <= to.len()
    &&& forall|i: int|
        0 <= i < from.len() ==> #[trigger] from[i] == to[i + to.len() - from.len()] || from[i] == 1
}

/// The position in an array of shape `from` that is repeated at position `at` of the
/// array broadcast to `to`: along an axis of length one the index is zero, along any
/// other axis that of the matching axis.
pub open spec fn source(from: Seq<usize>, to: Seq<usize>, at: Seq<int>) -> Seq<int> {
    Seq::new(
        from.len(),
        |i: int|
            if from[i] == 1 {
                0int
            } else {
                at[i + to.len() - from.len()]
            },
    )
}

/// The elements of the array of shape `from` with the elements `data`, broadcast to the
/// shape `to`.
pub open spec fn broadcast_data(from: Seq<usize>, data: Seq<u32>, to: Seq<usize>) -> Seq<u32> {
    Seq::new(size(to), |j: int| data[ravel(from, source(from, to, unravel(to, j)))])
}

/// The elements of the transpose of the array of the given shape with the elements
/// `data`: the element at a position of the transpose is the element of the array at the
/// position with the indices in opposite order.
pub open spec fn transposed_data(shape: Seq<usize>, data: Seq<u32>) -> Seq<u32> {
    Seq::new(
        size(shape),
        |j: int| data[ravel(shape, unravel(shape.reverse(), j).reverse())],
    )
}

/// `ndarray::ArrayBase::broadcast`, on an array made of `data` under the shape `from`
/// by `ArrayBase::from_shape_vec` and read back in logical order by `iter`: the array
/// repeated up to the shape `to`, or nothing where it cannot be. `from_shape_vec` fails
/// on a number of elements that is not that of the shape and, as `broadcast` does for
/// `to`, on a shape that is not bounded, which the precondition excludes.
#[verifier::external_body]
fn broadcast_array(from: &Vec<usize>, data: &Vec<u32>, to: &Vec<usize>) -> (r: Option<Vec<u32>>)
    requires
        data@.len() == size(from@),
        bounded(from@),
        bounded(to@),
    ensures
        r is Some <==> broadcastable(from@, to@),
        r matches Some(out) ==> out@ == broadcast_data(from@, data@, to@),
{
    let array = ndarray::ArrayD::from_shape_vec(ndarray::IxDyn(from), data.clone()).ok()?;
    let view = array.broadcast(ndarray::IxDyn(to))?;
    Some(view.iter().cloned().collect())
}

/// `ndarray::ArrayBase::t`, on an array made of `data` under the shape `shape` by
/// `ArrayBase::from_shape_vec` and read back in logical order by `iter`: the array with
/// its axes in opposite order. `from_shape_vec` fails on a number of elements that is not
/// that of the shape and on a shape that is not bounded, which the precondition excludes.
#[verifier::external_body]
fn transpose_array(shape: &Vec<usize>, data: &Vec<u32>) -> (out: Vec<u32>)
    requires
        data@.len() == size(shape@),
        bounded(shape@),
    ensures
        out@ == transposed_data(shape@, data@),
{
    let array = ndarray::ArrayD::from_shape_vec(ndarray::IxDyn(shape), data.clone()).unwrap();
    array.t().iter().cloned().collect()
}

/// Whether `ndarray` takes the shape for an array.
pub fn is_bounded(shape: &Vec<usize>) -> (r: bool)
    ensures
        r == bounded(shape@),
{
    let n: usize = shape.len();
    let mut product: usize = 1;
    let mut i: usize = 0;
    while i < n
        invariant
            n == shape.len(),
            i <= n,
            product == nonzero_size(shape@.take(i as int)),
            1 <= product <= isize::MAX,
        decreases n - i,
    {
        proof {
            assert(shape@.take(i + 1).drop_last() =~= shape@.take(i as int));
            assert(shape@.take(i + 1).last() == shape[i as int]);
        }
        if shape[i] != 0 {
            match product.checked_mul(shape[i]) {
                Some(next) => {
                    if next > isize::MAX as usize {
                        proof {
                            lemma_nonzero_size_prefix(shape@, i + 1);
                        }
                        return false;
                    }
                    assert(product * shape[i as int] >= 1) by (nonlinear_arith)
                        requires
                            product >= 1,
                            shape[i as int] >= 1,
                    ;
                    product = next;
                },
                None => {
                    proof {
                        lemma_nonzero_size_prefix(shape@, i + 1);
                    }
                    return false;
                },
            }
        }
        i += 1;
    }
    proof {
        assert(shape@.take(n as int) =~= shape@);
    }
    true
}

/// A prefix of a shape has no greater product of the lengths that are not zero than the
/// shape.
pub proof fn lemma_nonzero_size_prefix(shape: Seq<usize>, n: int)
    requires
        0 <= n <= shape.len(),
    ensures
        1 <= nonzero_size(shape.take(n)) <= nonzero_size(shape),
    decreases shape.len() - n,
{
    lemma_nonzero_size_positive(shape.take(n));
    if n == shape.len() {
        assert(shape.take(n) =~= shape);
    } else {
        lemma_nonzero_size_prefix(shape, n + 1);
        assert(shape.take(n + 1).drop_last() =~= shape.take(n));
        assert(shape.take(n + 1).last() == shape[n]);
        let a = nonzero_size(shape.take(n));
        let d = shape[n] as nat;
        if d != 0 {
            assert(a * d >= a) by (nonlinear_arith)
                requires
                    d >= 1,
                    a >= 0,
            ;
        }
    }
}

/// The product of the lengths that are not zero is not zero.
pub proof fn lemma_nonzero_size_positive(shape: Seq<usize>)
    ensures
        nonzero_size(shape) >= 1,
    decreases shape.len(),
{
    if shape.len() > 0 {
        lemma_nonzero_size_positive(shape.drop_last());
        let a = nonzero_size(shape.drop_last());
        let d = shape.last() as nat;
        if d != 0 {
            assert(a * d >= 1) by (nonlinear_arith)
                requires
                    d >= 1,
                    a >= 1,
            ;
        }
    }
}

/// The array `t` repeated up to the shape `shape`, where it can be and `ndarray` takes
/// both shapes.
pub open spec fn broadcast_of(t: TensorView, shape: Seq<usize>) -> Option<TensorView> {
    if bounded(t.shape) && bounded(shape) && fits(shape) && broadcastable(t.shape, shape) {
        Some(TensorView { shape, data: broadcast_data(t.shape, t.data, shape) })
    } else {
        None
    }
}

/// The array `t` repeated up to the shape `shape`, where it can be.
pub fn broadcast(t: &Tensor, shape: &Vec<usize>) -> (r: Option<Tensor>)
    requires
        t@.wf(),
    ensures
        r is Some <==> broadcast_of(t@, shape@) is Some,
        r matches Some(out) ==> Some(out@) == broadcast_of(t@, shape@) && out@.wf(),
{
    if !is_bounded(t.shape()) || !is_bounded(shape) || checked_size(shape).is_none() {
        return None;
    }
    match broadcast_array(t.shape(), t.data(), shape) {
        Some(data) => Tensor::new(shape.clone(), data),
        None => None,
    }
}

/// The transpose of the array `t`, where `ndarray` takes its shape.
pub open spec fn transpose_of(t: TensorView) -> Option<TensorView> {
    if bounded(t.shape) {
        Some(TensorView { shape: t.shape.reverse(), data: transposed_data(t.shape, t.data) })
    } else {
        None
    }
}

/// The transpose of the array `t`, where `ndarray` takes its shape.
pub fn transpose(t: &Tensor) -> (r: Option<Tensor>)
    requires
        t@.wf(),
    ensures
        r is Some <==> transpose_of(t@) is Some,
        r matches Some(out) ==> Some(out@) == transpose_of(t@) && out@.wf(),
{
    if !is_bounded(t.shape()) {
        return None;
    }
    let data = transpose_array(t.shape(), t.data());
    proof {
        lemma_size_reverse(t@.shape);
    }
    Tensor::new(reversed(t.shape()), data)
}

/// The elements of the array `t` under the shape `shape`, where the shape has as many
/// positions as the array has elements.
pub open spec fn reshape_of(t: TensorView, shape: Seq<usize>) -> Option<TensorView> {
    if size(shape) == t.data.len() {
        Some(TensorView { shape, data: t.data })
    } else {
        None
    }
}

/// The elements of the array `t` under the shape `shape`, where the shape has as many
/// positions as the array has elements.
pub fn reshape(t: &Tensor, shape: &Vec<usize>) -> (r: Option<Tensor>)
    requires
        t@.wf(),
    ensures
        r is Some <==> reshape_of(t@, shape@) is Some,
        r matches Some(out) ==> Some(out@) == reshape_of(t@, shape@) && out@.wf(),
{
    Tensor::new(shape.clone(), t.data().clone())
}

/// The array `t` as it stands in for an array of the shape `shape`: an array with fewer
/// axes becomes the array of that shape filled with its first element, where it has one;
/// any other array stays.
pub open spec fn expand_of(t: TensorView, shape: Seq<usize>) -> Option<TensorView> {
    if t.shape.len() < shape.len() {
        if t.data.len() > 0 && fits(shape) {
            Some(TensorView::filled(shape, t.data[0]))
        } else {
            None
        }
    } else {
        Some(t)
    }
}

/// The array `t` as it stands in for an array of the shape `shape`.
pub fn expand(t: &Tensor, shape: &Vec<usize>) -> (r: Option<Tensor>)
    requires
        t@.wf(),
    ensures
        r is Some <==> expand_of(t@, shape@) is Some,
        r matches Some(out) ==> Some(out@) == expand_of(t@, shape@) && out@.wf(),
{
    if t.ndim() < shape.len() {
        if t.len() > 0 && checked_size(shape).is_some() {
            Some(Tensor::filled(shape.clone(), t.data()[0]))
        } else {
            None
        }
    } else {
        Some(t.copy())
    }
}

} // verus!

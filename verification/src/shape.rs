//! Shapes of dense row-major arrays: a shape is the list of its axis lengths,
//! the empty list being the shape of a scalar.

use vstd::prelude::*;

verus! {

/// Number of elements of an array of the given shape: the product of its axis lengths.
pub open spec fn size(shape: Seq<usize>) -> nat
    decreases shape.len(),
{
    if shape.len() == 0 {
        1
    } else {
        size(shape.drop_last()) * (shape.last() as nat)
    }
}

/// A shape whose element count can be held in a machine word.
pub open spec fn fits(shape: Seq<usize>) -> bool {
    size(shape) <= usize::MAX
}

/// Shape of an elementwise binary operation: the left operand decides unless it is a scalar.
pub open spec fn elementwise(left: Seq<usize>, right: Seq<usize>) -> Seq<usize> {
    if left.len() != 0 {
        left
    } else {
        right
    }
}

/// Shape of a selection: the first non-scalar shape among the true branch, the false branch
/// and the condition, in that order.
pub open spec fn select(condition: Seq<usize>, when_true: Seq<usize>, when_false: Seq<usize>) -> Seq<
    usize,
> {
    if when_true.len() > 0 {
        when_true
    } else if when_false.len() > 0 {
        when_false
    } else {
        condition
    }
}

/// Every listed axis exists in an array of the given rank.
pub open spec fn axes_within(axes: Seq<usize>, rank: nat) -> bool {
    forall|i: int| 0 <= i < axes.len() ==> axes[i] < rank
}

/// Shape after summing over the listed axes: each of them collapses to length one, the rank stays.
pub open spec fn reduced(shape: Seq<usize>, axes: Seq<usize>) -> Seq<usize> {
    Seq::new(
        shape.len(),
        |i: int|
            if axes.contains(i as usize) {
                1usize
            } else {
                shape[i]
            },
    )
}

/// Positions `offset + i` of the axes `i` of `shape` from `start` on that have length one.
pub open spec fn unit_axes(shape: Seq<usize>, start: int, offset: int) -> Seq<usize>
    decreases shape.len() - start,
{
    if start < 0 || start >= shape.len() {
        Seq::empty()
    } else if shape[start] == 1 {
        seq![(offset + start) as usize] + unit_axes(shape, start + 1, offset)
    } else {
        unit_axes(shape, start + 1, offset)
    }
}

/// The axes over which an array of shape `from` was repeated to reach rank `rank`: the
/// leading axes that `from` lacks, followed by those of its own axes that have length one.
pub open spec fn broadcast_axes(from: Seq<usize>, rank: nat) -> Seq<usize>
    recommends
        from.len() <= rank,
{
    let missing = rank - from.len();
    Seq::new(missing as nat, |j: int| j as usize) + unit_axes(from, 0, missing)
}

/// An array with an axis of length zero has no elements.
pub proof fn lemma_size_zero(shape: Seq<usize>, i: int)
    requires
        0 <= i < shape.len(),
        shape[i] == 0,
    ensures
        size(shape) == 0,
    decreases shape.len(),
{
    if i == shape.len() - 1 {
        assert(size(shape.drop_last()) * 0 == 0);
    } else {
        lemma_size_zero(shape.drop_last(), i);
        assert(0 * (shape.last() as nat) == 0);
    }
}

/// Without an axis of length zero, a prefix of a shape has no more elements than the shape.
pub proof fn lemma_size_prefix(shape: Seq<usize>, n: int)
    requires
        0 <= n <= shape.len(),
        forall|i: int| 0 <= i < shape.len() ==> shape[i] >= 1,
    ensures
        1 <= size(shape.take(n)) <= size(shape),
    decreases shape.len() - n,
{
    lemma_size_positive(shape.take(n));
    if n == shape.len() {
        assert(shape.take(n) == shape);
    } else {
        lemma_size_prefix(shape, n + 1);
        assert(shape.take(n + 1).drop_last() == shape.take(n));
        let a = size(shape.take(n));
        let d = shape[n] as nat;
        assert(shape.take(n + 1).last() == shape[n]);
        assert(a * d >= a) by (nonlinear_arith)
            requires
                d >= 1,
                a >= 0,
        ;
    }
}

pub proof fn lemma_size_positive(shape: Seq<usize>)
    requires
        forall|i: int| 0 <= i < shape.len() ==> shape[i] >= 1,
    ensures
        size(shape) >= 1,
    decreases shape.len(),
{
    if shape.len() > 0 {
        lemma_size_positive(shape.drop_last());
        let a = size(shape.drop_last());
        let d = shape.last() as nat;
        assert(a * d >= 1) by (nonlinear_arith)
            requires
                d >= 1,
                a >= 1,
        ;
    }
}

/// Reversing the order of the axes keeps the number of elements.
pub proof fn lemma_size_reverse(shape: Seq<usize>)
    ensures
        size(shape.reverse()) == size(shape),
    decreases shape.len(),
{
    if shape.len() > 0 {
        let r = shape.reverse();
        let rest = shape.drop_last();
        // r is the last axis followed by the reverse of the rest
        assert(r == seq![shape.last()] + rest.reverse());
        lemma_size_reverse(rest);
        lemma_size_concat(seq![shape.last()], rest.reverse());
        let one = seq![shape.last()];
        assert(one.drop_last() =~= Seq::<usize>::empty());
        assert(size(one.drop_last()) == 1);
        assert(size(one) == 1 * (one.last() as nat));
        assert(size(r) == (shape.last() as nat) * size(rest));
        assert((shape.last() as nat) * size(rest) == size(rest) * (shape.last() as nat))
            by (nonlinear_arith);
    } else {
        assert(shape.reverse() == shape);
    }
}

/// The element count of a concatenation of axis lists is the product of the two counts.
pub proof fn lemma_size_concat(a: Seq<usize>, b: Seq<usize>)
    ensures
        size(a + b) == size(a) * size(b),
    decreases b.len(),
{
    if b.len() == 0 {
        assert(a + b == a);
        assert(size(a) * 1 == size(a));
    } else {
        assert((a + b).drop_last() == a + b.drop_last());
        assert((a + b).last() == b.last());
        lemma_size_concat(a, b.drop_last());
        let x = size(a);
        let y = size(b.drop_last());
        let d = b.last() as nat;
        assert((x * y) * d == x * (y * d)) by (nonlinear_arith);
    }
}

/// Number of elements of an array of this shape, if a machine word can hold it.
pub fn checked_size(shape: &Vec<usize>) -> (r: Option<usize>)
    ensures
        r is Some <==> fits(shape@),
        r is Some ==> r->0 == size(shape@),
{
    let n: usize = shape.len();
    let mut i: usize = 0;
    while i < n
        invariant
            n == shape.len(),
            i <= n,
            forall|j: int| 0 <= j < i ==> shape[j] >= 1,
        decreases n - i,
    {
        if shape[i] == 0 {
            proof {
                lemma_size_zero(shape@, i as int);
            }
            return Some(0);
        }
        i += 1;
    }
    let mut count: usize = 1;
    let mut k: usize = 0;
    while k < n
        invariant
            n == shape.len(),
            k <= n,
            forall|j: int| 0 <= j < n ==> shape[j] >= 1,
            count == size(shape@.take(k as int)),
        decreases n - k,
    {
        proof {
            assert(shape@.take(k + 1).drop_last() == shape@.take(k as int));
            assert(shape@.take(k + 1).last() == shape[k as int]);
        }
        match count.checked_mul(shape[k]) {
            Some(next) => {
                count = next;
            },
            None => {
                proof {
                    lemma_size_prefix(shape@, k + 1);
                }
                return None;
            },
        }
        k += 1;
    }
    proof {
        assert(shape@.take(n as int) == shape@);
    }
    Some(count)
}

/// Whether two shapes are the same list of axis lengths.
pub fn same(a: &Vec<usize>, b: &Vec<usize>) -> (r: bool)
    ensures
        r == (a@ == b@),
{
    if a.len() != b.len() {
        return false;
    }
    let n: usize = a.len();
    let mut i: usize = 0;
    while i < n
        invariant
            n == a.len(),
            n == b.len(),
            i <= n,
            forall|j: int| 0 <= j < i ==> a[j] == b[j],
        decreases n - i,
    {
        if a[i] != b[i] {
            return false;
        }
        i += 1;
    }
    assert(a@ =~= b@);
    true
}

/// The shape with its axes in the opposite order.
pub fn reversed(shape: &Vec<usize>) -> (r: Vec<usize>)
    ensures
        r@ == shape@.reverse(),
{
    let n: usize = shape.len();
    let mut out: Vec<usize> = Vec::new();
    let mut i: usize = 0;
    while i < n
        invariant
            n == shape.len(),
            i <= n,
            out.len() == i,
            forall|j: int| 0 <= j < i ==> out[j] == shape[n - 1 - j],
        decreases n - i,
    {
        out.push(shape[n - 1 - i]);
        i += 1;
    }
    assert(out@ =~= shape@.reverse());
    out
}

/// Whether `axis` occurs in `axes`.
pub fn has_axis(axes: &Vec<usize>, axis: usize) -> (r: bool)
    ensures
        r == axes@.contains(axis),
{
    let n: usize = axes.len();
    let mut i: usize = 0;
    while i < n
        invariant
            n == axes.len(),
            i <= n,
            forall|j: int| 0 <= j < i ==> axes[j] != axis,
        decreases n - i,
    {
        if axes[i] == axis {
            return true;
        }
        i += 1;
    }
    false
}

/// Whether every listed axis exists in an array of rank `rank`.
pub fn check_axes(axes: &Vec<usize>, rank: usize) -> (r: bool)
    ensures
        r == axes_within(axes@, rank as nat),
{
    let n: usize = axes.len();
    let mut i: usize = 0;
    while i < n
        invariant
            n == axes.len(),
            i <= n,
            forall|j: int| 0 <= j < i ==> axes[j] < rank,
        decreases n - i,
    {
        if axes[i] >= rank {
            return false;
        }
        i += 1;
    }
    true
}

/// Collapses each listed axis of `shape` to length one.
pub fn reduce(shape: &Vec<usize>, axes: &Vec<usize>) -> (r: Vec<usize>)
    ensures
        r@ == reduced(shape@, axes@),
{
    let n: usize = shape.len();
    let mut out: Vec<usize> = Vec::new();
    let mut i: usize = 0;
    while i < n
        invariant
            n == shape.len(),
            i <= n,
            out.len() == i,
            forall|j: int| 0 <= j < i ==> out[j] == reduced(shape@, axes@)[j],
        decreases n - i,
    {
        if has_axis(axes, i) {
            out.push(1);
        } else {
            out.push(shape[i]);
        }
        i += 1;
    }
    assert(out@ =~= reduced(shape@, axes@));
    out
}

/// The axes over which an array of shape `from` was repeated to reach rank `rank`.
pub fn repeated_axes(from: &Vec<usize>, rank: usize) -> (r: Vec<usize>)
    requires
        from.len() <= rank,
    ensures
        r@ == broadcast_axes(from@, rank as nat),
{
    let missing: usize = rank - from.len();
    let mut out: Vec<usize> = Vec::new();
    let mut j: usize = 0;
    while j < missing
        invariant
            j <= missing,
            out.len() == j,
            forall|p: int| 0 <= p < j ==> out[p] == p,
        decreases missing - j,
    {
        out.push(j);
        j += 1;
    }
    let ghost lead = out@;
    assert(lead =~= Seq::new(missing as nat, |j: int| j as usize));
    let n: usize = from.len();
    let mut i: usize = 0;
    while i < n
        invariant
            n == from.len(),
            i <= n,
            missing + n == rank,
            out@ + unit_axes(from@, i as int, missing as int) == lead + unit_axes(
                from@,
                0,
                missing as int,
            ),
        decreases n - i,
    {
        if from[i] == 1 {
            assert(out@.push((missing + i) as usize) + unit_axes(
                from@,
                i + 1,
                missing as int,
            ) =~= out@ + unit_axes(from@, i as int, missing as int));
            out.push(missing + i);
        }
        i += 1;
    }
    assert(unit_axes(from@, n as int, missing as int) == Seq::<usize>::empty());
    assert(out@ + Seq::<usize>::empty() =~= out@);
    out
}

} // verus!

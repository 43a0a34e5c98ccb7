//! Dense row-major arrays of single-precision numbers.
//!
//! An element is held as its IEEE-754 binary32 bit pattern. The engine moves
//! elements around and recognises zero and one; all arithmetic on them is left
//! to the numeric kernel that the caller supplies.

use vstd::prelude::*;
use crate::shape::{checked_size, fits, size};

verus! {

/// Bit pattern of `0.0`.
pub const ZERO: u32 = 0x0000_0000;

/// Bit pattern of `-0.0`, which compares equal to `0.0`.
pub const NEGATIVE_ZERO: u32 = 0x8000_0000;

/// Bit pattern of `1.0`.
pub const ONE: u32 = 0x3F80_0000;

/// Bit pattern of `-1.0`.
pub const MINUS_ONE: u32 = 0xBF80_0000;

/// Bit pattern of `2.0`.
pub const TWO: u32 = 0x4000_0000;

/// Bit pattern of `0.5`.
pub const HALF: u32 = 0x3F00_0000;

/// Whether an element compares equal to zero.
pub open spec fn is_zero(bits: u32) -> bool {
    bits == ZERO || bits == NEGATIVE_ZERO
}

/// Whether an element compares equal to one.
pub open spec fn is_one(bits: u32) -> bool {
    bits == ONE
}

/// What a tensor is: its shape and its elements in row-major order.
pub struct TensorView {
    pub shape: Seq<usize>,
    pub data: Seq<u32>,
}

impl TensorView {
    /// There is exactly one element for each position of the shape, and a machine word
    /// can count them.
    pub open spec fn wf(self) -> bool {
        &&& self.data.len() == size(self.shape)
        &&& fits(self.shape)
    }

    /// The tensor of the given shape whose elements all are `bits`.
    pub open spec fn filled(shape: Seq<usize>, bits: u32) -> TensorView {
        TensorView { shape, data: Seq::new(size(shape), |i: int| bits) }
    }

    /// Every element compares equal to zero.
    pub open spec fn is_zeros(self) -> bool {
        forall|i: int| 0 <= i < self.data.len() ==> is_zero(#[trigger] self.data[i])
    }

    /// Every element compares equal to one.
    pub open spec fn is_ones(self) -> bool {
        forall|i: int| 0 <= i < self.data.len() ==> is_one(#[trigger] self.data[i])
    }
}

/// A dense row-major array.
#[derive(Clone, Debug)]
pub struct Tensor {
    shape: Vec<usize>,
    data: Vec<u32>,
}

impl View for Tensor {
    type V = TensorView;

    closed spec fn view(&self) -> TensorView {
        TensorView { shape: self.shape@, data: self.data@ }
    }
}

/// The views of a list of tensors, in order.
pub open spec fn views(tensors: Seq<Tensor>) -> Seq<TensorView> {
    Seq::new(tensors.len(), |i: int| tensors[i]@)
}

/// The shapes of a list of tensors, in order.
pub open spec fn shapes(tensors: Seq<TensorView>) -> Seq<Seq<usize>> {
    Seq::new(tensors.len(), |i: int| tensors[i].shape)
}

impl Tensor {
    /// A tensor from its shape and its elements in row-major order, if there is exactly one
    /// element for each position of the shape.
    pub fn new(shape: Vec<usize>, data: Vec<u32>) -> (r: Option<Tensor>)
        ensures
            r is Some <==> data.len() == size(shape@),
            r is Some ==> r->0@ == (TensorView { shape: shape@, data: data@ }),
            r is Some ==> r->0@.wf(),
    {
        match checked_size(&shape) {
            Some(n) => {
                if n == data.len() {
                    Some(Tensor { shape, data })
                } else {
                    None
                }
            },
            None => None,
        }
    }

    /// The scalar holding `bits`.
    pub fn scalar(bits: u32) -> (r: Tensor)
        ensures
            r@ == TensorView::filled(Seq::empty(), bits),
            r@.wf(),
    {
        let mut data: Vec<u32> = Vec::new();
        data.push(bits);
        let r = Tensor { shape: Vec::new(), data };
        assert(r@.data =~= TensorView::filled(Seq::empty(), bits).data);
        r
    }

    /// The vector of the given elements.
    pub fn vector(data: Vec<u32>) -> (r: Tensor)
        ensures
            r@ == (TensorView { shape: seq![data.len()], data: data@ }),
            r@.wf(),
    {
        let mut shape: Vec<usize> = Vec::new();
        shape.push(data.len());
        proof {
            let one = seq![data.len()];
            assert(shape@ =~= one);
            assert(one.drop_last() =~= Seq::<usize>::empty());
            assert(size(Seq::<usize>::empty()) == 1);
            assert(size(one) == 1 * data.len());
        }
        Tensor { shape, data }
    }

    /// The tensor of the given shape whose elements all are `bits`.
    pub fn filled(shape: Vec<usize>, bits: u32) -> (r: Tensor)
        requires
            fits(shape@),
        ensures
            r@ == TensorView::filled(shape@, bits),
            r@.wf(),
    {
        let n: usize = match checked_size(&shape) {
            Some(n) => n,
            None => unreached(),
        };
        let mut data: Vec<u32> = Vec::new();
        let mut i: usize = 0;
        while i < n
            invariant
                i <= n,
                data.len() == i,
                forall|j: int| 0 <= j < i ==> data[j] == bits,
            decreases n - i,
        {
            data.push(bits);
            i += 1;
        }
        let r = Tensor { shape, data };
        assert(r@.data =~= TensorView::filled(shape@, bits).data);
        r
    }

    /// The tensor of the given shape whose elements all are `0.0`.
    pub fn zeros(shape: Vec<usize>) -> (r: Tensor)
        requires
            fits(shape@),
        ensures
            r@ == TensorView::filled(shape@, ZERO),
            r@.wf(),
    {
        Tensor::filled(shape, ZERO)
    }

    /// The tensor of the given shape whose elements all are `1.0`.
    pub fn ones(shape: Vec<usize>) -> (r: Tensor)
        requires
            fits(shape@),
        ensures
            r@ == TensorView::filled(shape@, ONE),
            r@.wf(),
    {
        Tensor::filled(shape, ONE)
    }

    /// The axis lengths.
    pub fn shape(&self) -> (r: &Vec<usize>)
        ensures
            r@ == self@.shape,
    {
        &self.shape
    }

    /// The elements in row-major order.
    pub fn data(&self) -> (r: &Vec<u32>)
        ensures
            r@ == self@.data,
    {
        &self.data
    }

    /// The number of axes.
    pub fn ndim(&self) -> (r: usize)
        ensures
            r == self@.shape.len(),
    {
        self.shape.len()
    }

    /// The number of elements held.
    pub fn len(&self) -> (r: usize)
        ensures
            r == self@.data.len(),
    {
        self.data.len()
    }

    /// A copy with the same shape and elements.
    pub fn copy(&self) -> (r: Tensor)
        ensures
            r@ == self@,
    {
        Tensor { shape: self.shape.clone(), data: self.data.clone() }
    }

    /// Overwrites the elements with those of `other`, which has the same shape; the
    /// storage is kept.
    pub fn assign(&mut self, other: &Tensor)
        requires
            old(self)@.wf(),
            other@.wf(),
            old(self)@.shape == other@.shape,
        ensures
            final(self)@ == other@,
    {
        let n: usize = self.data.len();
        let mut i: usize = 0;
        while i < n
            invariant
                n == self.data.len(),
                n == other.data.len(),
                self.shape == old(self).shape,
                i <= n,
                forall|j: int| 0 <= j < i ==> self.data[j] == other.data[j],
            decreases n - i,
        {
            self.data[i] = other.data[i];
            i += 1;
        }
        assert(self.data@ =~= other.data@);
    }

    /// Whether every element compares equal to zero.
    pub fn is_zeros(&self) -> (r: bool)
        ensures
            r == self@.is_zeros(),
    {
        let n: usize = self.data.len();
        let mut i: usize = 0;
        while i < n
            invariant
                n == self.data.len(),
                i <= n,
                forall|j: int| 0 <= j < i ==> is_zero(#[trigger] self.data[j]),
            decreases n - i,
        {
            if self.data[i] != ZERO && self.data[i] != NEGATIVE_ZERO {
                assert(!is_zero(self@.data[i as int]));
                return false;
            }
            i += 1;
        }
        true
    }

    /// Whether every element compares equal to one.
    pub fn is_ones(&self) -> (r: bool)
        ensures
            r == self@.is_ones(),
    {
        let n: usize = self.data.len();
        let mut i: usize = 0;
        while i < n
            invariant
                n == self.data.len(),
                i <= n,
                forall|j: int| 0 <= j < i ==> is_one(#[trigger] self.data[j]),
            decreases n - i,
        {
            if self.data[i] != ONE {
                assert(!is_one(self@.data[i as int]));
                return false;
            }
            i += 1;
        }
        true
    }

    /// Whether both tensors have the same shape and the same bit patterns.
    pub fn same_bits(&self, other: &Tensor) -> (r: bool)
        ensures
            r == (self@ == other@),
    {
        if !crate::shape::same(&self.shape, &other.shape) {
            return false;
        }
        if self.data.len() != other.data.len() {
            return false;
        }
        let n: usize = self.data.len();
        let mut i: usize = 0;
        while i < n
            invariant
                n == self.data.len(),
                n == other.data.len(),
                i <= n,
                forall|j: int| 0 <= j < i ==> self.data[j] == other.data[j],
            decreases n - i,
        {
            if self.data[i] != other.data[i] {
                return false;
            }
            i += 1;
        }
        assert(self.data@ =~= other.data@);
        true
    }
}

} // verus!

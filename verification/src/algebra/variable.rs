//! Value cells: the mutable arrays that variables read.

use vstd::prelude::*;
use crate::tensor::{Tensor, TensorView};

verus! {

/// A cell holding one array, the current value of every variable bound to it.
#[derive(Clone, Debug)]
pub struct VariableValue {
    value: Tensor,
}

impl View for VariableValue {
    type V = TensorView;

    closed spec fn view(&self) -> TensorView {
        self.value@
    }
}

impl VariableValue {
    /// The array held.
    pub closed spec fn held(&self) -> Tensor {
        self.value
    }

    /// A cell holding `a`.
    pub fn new(a: Tensor) -> (r: VariableValue)
        ensures
            r@ == a@,
    {
        VariableValue { value: a }
    }

    /// Replaces the array held.
    pub fn set(&mut self, a: Tensor)
        ensures
            final(self)@ == a@,
    {
        self.value = a;
    }

    /// Replaces the array held by what `f` makes of it.
    pub fn mutate<F: FnOnce(Tensor) -> Tensor>(&mut self, f: F)
        requires
            f.requires((old(self).held(),)),
        ensures
            f.ensures((old(self).held(),), final(self).held()),
    {
        let mut taken = Tensor::scalar(crate::tensor::ZERO);
        std::mem::swap(&mut self.value, &mut taken);
        self.value = f(taken);
    }

    /// The axis lengths of the array held.
    pub fn shape(&self) -> (r: Vec<usize>)
        ensures
            r@ == self@.shape,
    {
        self.value.shape().clone()
    }

    /// A copy of the array held.
    pub fn get(&self) -> (r: Tensor)
        ensures
            r@ == self@,
    {
        self.value.copy()
    }
}

} // verus!

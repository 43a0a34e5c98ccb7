//! Comparison operators of the elementwise comparison.

use vstd::prelude::*;
use crate::algebra::arena::{Arena, Expr};
use crate::algebra::construct::{binary, lemma_admits_elementwise, ternary};
use crate::algebra::operation::{Operation, OperationView};
use crate::algebra::tree::Tree;
use crate::scalar::{equal, less, less_than, same_number};

verus! {

/// The relation that an elementwise comparison tests: each element of the result is one
/// where the relation holds and zero where it does not.
#[derive(Clone, Copy, Debug, PartialEq, Eq, Structural)]
pub enum Op {
    Less,
    LessOrEqual,
    Greater,
    GreaterOrEqual,
    Equal,
    NotEqual,
}

impl Op {
    /// Whether the relation holds between the numbers with the bit patterns `left` and
    /// `right`.
    pub open spec fn relates(self, left: u32, right: u32) -> bool {
        match self {
            Op::Less => less(left, right),
            Op::LessOrEqual => less(left, right) || equal(left, right),
            Op::Greater => less(right, left),
            Op::GreaterOrEqual => less(right, left) || equal(left, right),
            Op::Equal => equal(left, right),
            Op::NotEqual => !equal(left, right),
        }
    }

    /// Whether the relation holds between the numbers with the bit patterns `left` and
    /// `right`.
    pub fn cmp(&self, left: u32, right: u32) -> (r: bool)
        ensures
            r == self.relates(left, right),
    {
        match self {
            Op::Less => less_than(left, right),
            Op::LessOrEqual => less_than(left, right) || same_number(left, right),
            Op::Greater => less_than(right, left),
            Op::GreaterOrEqual => less_than(right, left) || same_number(left, right),
            Op::Equal => same_number(left, right),
            Op::NotEqual => !same_number(left, right),
        }
    }
}

/// The elementwise comparison of `left` and `right`: one where `op` holds, zero elsewhere.
pub fn cmp(arena: &mut Arena, left: Expr, op: Op, right: Expr) -> (e: Expr)
    requires
        old(arena)@.wf(),
        old(arena)@.contains(left),
        old(arena)@.contains(right),
    ensures
        final(arena)@.wf(),
        final(arena)@.extends(old(arena)@),
        final(arena)@.cells == old(arena)@.cells,
        final(arena)@.terms.len() == old(arena)@.terms.len() + 1,
        e.id == old(arena)@.terms.len(),
        final(arena)@.of(e) == Tree::binary(
            OperationView::Compare { op },
            old(arena)@.of(left),
            old(arena)@.of(right),
        ),
{
    proof {
        lemma_admits_elementwise(arena@, OperationView::Compare { op }, left, right);
    }
    binary(arena, Operation::Compare { op }, left, right)
}

impl Expr {
    /// The elementwise maximum of `self` and `b`: `b` where `self` is less, `self` elsewhere.
    pub fn max(&self, arena: &mut Arena, b: Expr) -> (e: Expr)
        requires
            old(arena)@.wf(),
            old(arena)@.contains(*self),
            old(arena)@.contains(b),
        ensures
            final(arena)@.wf(),
            final(arena)@.extends(old(arena)@),
            final(arena)@.cells == old(arena)@.cells,
            final(arena)@.terms.len() == old(arena)@.terms.len() + 2,
            final(arena)@.contains(e),
            final(arena)@.of(e) == Tree::ternary(
                OperationView::Ternary,
                Tree::binary(
                    OperationView::Compare { op: Op::Less },
                    old(arena)@.of(*self),
                    old(arena)@.of(b),
                ),
                old(arena)@.of(b),
                old(arena)@.of(*self),
            ),
    {
        let less = cmp(arena, *self, Op::Less, b);
        proof {
            crate::algebra::tree::lemma_of_extends(old(arena)@, arena@, *self);
            crate::algebra::tree::lemma_of_extends(old(arena)@, arena@, b);
        }
        ternary(arena, less, b, *self)
    }
}

} // verus!

//! Constancy and constant propagation.

use vstd::prelude::*;
use crate::algebra::arena::{ids, Arena, Expr};
use crate::algebra::construct::expr;
use crate::algebra::kernel::{
    kernel_ok, kernel_value, lemma_kernel_value, lemma_valued, value, valued,
};
use crate::algebra::operation::{Operation, OperationView};
use crate::algebra::tree::{lemma_node, lemma_of_extends, Tree};
use crate::scalar::{count_bits, equal, same_number, scalar_count};
use crate::tensor::{is_zero, views, Tensor, TensorView, ONE, ZERO};

verus! {

/// How the elements of a condition divide, judged by their sum.
pub enum Census {
    /// The sum equals the number of elements: every element counts as true.
    All,
    /// The sum equals zero: every element counts as false.
    Nothing,
    /// Neither.
    Mixed,
}

/// The census of the array `c`, from the sum that the kernel gives for it.
pub open spec fn census<K: Fn(&Operation, &Vec<Tensor>) -> Tensor>(c: TensorView, k: K) -> Census {
    let sum = kernel_value(k, OperationView::Sum, seq![c]).data[0];
    if equal(sum, count_bits(c.data.len()) as u32) {
        Census::All
    } else if is_zero(sum) {
        Census::Nothing
    } else {
        Census::Mixed
    }
}

/// Whether the value of the expression is taken to be fixed: a constant is; a variable and
/// a placeholder are not; a product (elementwise or of matrices) is where both factors are,
/// or where the one that is has only zeros; a quotient is where the numerator is and either
/// the denominator is or the numerator has only zeros; a selection is where its condition is
/// and so are the branches that the census of the condition can select; any other term is
/// where all its inputs are.
pub open spec fn constant<K: Fn(&Operation, &Vec<Tensor>) -> Tensor>(
    t: Tree,
    cells: Seq<TensorView>,
    k: K,
) -> bool
    decreases t,
{
    if t.inputs.len() != t.operation.arity() {
        false
    } else {
        match t.operation {
            OperationView::Constant { .. } => true,
            OperationView::Variable { .. } => false,
            OperationView::Unevaluable { .. } => false,
            OperationView::Mul | OperationView::MatMul | OperationView::MatVecMul => {
                let left = constant(t.inputs[0], cells, k);
                let right = constant(t.inputs[1], cells, k);
                if left && right {
                    true
                } else if left {
                    value(t.inputs[0], cells, k).is_zeros()
                } else if right {
                    value(t.inputs[1], cells, k).is_zeros()
                } else {
                    false
                }
            },
            OperationView::Div => constant(t.inputs[0], cells, k) && (constant(
                t.inputs[1],
                cells,
                k,
            ) || value(t.inputs[0], cells, k).is_zeros()),
            OperationView::Ternary => {
                if !constant(t.inputs[0], cells, k) {
                    false
                } else {
                    match census(value(t.inputs[0], cells, k), k) {
                        Census::All => constant(t.inputs[1], cells, k),
                        Census::Nothing => constant(t.inputs[2], cells, k),
                        Census::Mixed => constant(t.inputs[1], cells, k) && constant(
                            t.inputs[2],
                            cells,
                            k,
                        ),
                    }
                }
            },
            _ => {
                &&& t.inputs.len() >= 1 ==> constant(t.inputs[0], cells, k)
                &&& t.inputs.len() >= 2 ==> constant(t.inputs[1], cells, k)
            },
        }
    }
}

/// A measure that decreases along constant propagation.
pub open spec fn weight(t: Tree) -> nat
    decreases t,
{
    let own: nat = if t.operation is Ternary {
        8
    } else {
        1
    };
    own + (if t.inputs.len() > 0 {
        weight(t.inputs[0])
    } else {
        0
    }) + (if t.inputs.len() > 1 {
        weight(t.inputs[1])
    } else {
        0
    }) + (if t.inputs.len() > 2 {
        weight(t.inputs[2])
    } else {
        0
    })
}

/// The constant expression holding `value`.
pub open spec fn literal(value: TensorView) -> Tree {
    Tree::leaf(OperationView::Constant { value })
}

/// The blend `c * a + (1 - c) * b` that stands in for a selection by the constant `c`.
pub open spec fn blend(c: TensorView, a: Tree, b: Tree) -> Tree {
    Tree::binary(
        OperationView::Add,
        Tree::binary(OperationView::Mul, literal(c), a),
        Tree::binary(
            OperationView::Mul,
            Tree::binary(
                OperationView::Sub,
                literal(TensorView::filled(Seq::empty(), ONE)),
                literal(c),
            ),
            b,
        ),
    )
}

/// The weight of a blend is that of its branches and seven more.
pub proof fn lemma_blend_weight(c: TensorView, a: Tree, b: Tree)
    ensures
        weight(blend(c, a, b)) == 7 + weight(a) + weight(b),
{
    let one = literal(TensorView::filled(Seq::empty(), ONE));
    let lit = literal(c);
    assert(weight(lit) == 1);
    assert(weight(one) == 1);
    let left = Tree::binary(OperationView::Mul, lit, a);
    assert(weight(left) == 2 + weight(a));
    let less = Tree::binary(OperationView::Sub, one, lit);
    assert(weight(less) == 3);
    let right = Tree::binary(OperationView::Mul, less, b);
    assert(weight(right) == 4 + weight(b));
    assert(blend(c, a, b) == Tree::binary(OperationView::Add, left, right));
}

/// The term of `t` over the simplified inputs of `t`, where each input has a simplified
/// form.
pub open spec fn rebuilt<K: Fn(&Operation, &Vec<Tensor>) -> Tensor>(
    t: Tree,
    cells: Seq<TensorView>,
    k: K,
) -> Option<Tree>
    decreases weight(t), 0nat,
{
    let n = t.inputs.len();
    if n == 0 {
        Some(Tree { operation: t.operation, inputs: Seq::empty() })
    } else if n == 1 {
        match simplified(t.inputs[0], cells, k) {
            Some(a) => Some(Tree { operation: t.operation, inputs: seq![a] }),
            None => None,
        }
    } else if n == 2 {
        match (simplified(t.inputs[0], cells, k), simplified(t.inputs[1], cells, k)) {
            (Some(a), Some(b)) => Some(Tree { operation: t.operation, inputs: seq![a, b] }),
            _ => None,
        }
    } else if n == 3 {
        match (
            simplified(t.inputs[0], cells, k),
            simplified(t.inputs[1], cells, k),
            simplified(t.inputs[2], cells, k),
        ) {
            (Some(a), Some(b), Some(c)) => Some(
                Tree { operation: t.operation, inputs: seq![a, b, c] },
            ),
            _ => None,
        }
    } else {
        None
    }
}

/// Whether the value of the expression is taken to be fixed and has only zeros.
pub open spec fn fixed_at_zero<K: Fn(&Operation, &Vec<Tensor>) -> Tensor>(
    t: Tree,
    cells: Seq<TensorView>,
    k: K,
) -> bool {
    constant(t, cells, k) && value(t, cells, k).is_zeros()
}

/// Whether the value of the expression is taken to be fixed and has only ones.
pub open spec fn fixed_at_one<K: Fn(&Operation, &Vec<Tensor>) -> Tensor>(
    t: Tree,
    cells: Seq<TensorView>,
    k: K,
) -> bool {
    constant(t, cells, k) && value(t, cells, k).is_ones()
}

/// The operand that is left of a term whose other operand changes nothing, where there is
/// one: a sum loses an operand that is fixed at zero, a difference and a sum with a bias
/// lose a right operand fixed at zero, a product loses a factor fixed at one, and a
/// quotient a denominator fixed at one, each where the operand that is left has the shape
/// of the whole.
pub open spec fn kept<K: Fn(&Operation, &Vec<Tensor>) -> Tensor>(
    t: Tree,
    cells: Seq<TensorView>,
    k: K,
) -> Option<int> {
    if t.inputs.len() != 2 {
        None
    } else {
        let left = t.inputs[0];
        let right = t.inputs[1];
        match t.operation {
            OperationView::Add => if fixed_at_zero(left, cells, k) && t.shape() == right.shape() {
                Some(1)
            } else if fixed_at_zero(right, cells, k) && t.shape() == left.shape() {
                Some(0)
            } else {
                None
            },
            OperationView::Sub | OperationView::BiasAdd => if fixed_at_zero(right, cells, k)
                && t.shape() == left.shape() {
                Some(0)
            } else {
                None
            },
            OperationView::Mul => if fixed_at_one(left, cells, k) && t.shape() == right.shape() {
                Some(1)
            } else if fixed_at_one(right, cells, k) && t.shape() == left.shape() {
                Some(0)
            } else {
                None
            },
            OperationView::Div => if fixed_at_one(right, cells, k) && t.shape() == left.shape() {
                Some(0)
            } else {
                None
            },
            _ => None,
        }
    }
}

/// The simplified form of an expression, where it has one.
///
/// An expression whose value is fixed becomes the constant holding that value. Otherwise:
/// a term whose other operand changes nothing becomes the simplified form of the operand
/// that is left; a selection by a fixed condition becomes the simplified blend of its
/// branches; and every other term is rebuilt over its simplified inputs. The simplified
/// form has the shape of the expression; where the rules would give another shape there is
/// none.
pub open spec fn simplified<K: Fn(&Operation, &Vec<Tensor>) -> Tensor>(
    t: Tree,
    cells: Seq<TensorView>,
    k: K,
) -> Option<Tree>
    decreases weight(t), 1nat,
{
    if t.inputs.len() != t.operation.arity() {
        None
    } else {
        let raw: Option<Tree> = if constant(t, cells, k) {
            Some(literal(value(t, cells, k)))
        } else {
            match kept(t, cells, k) {
                Some(j) => if j == 0 {
                    simplified(t.inputs[0], cells, k)
                } else {
                    simplified(t.inputs[1], cells, k)
                },
                None => if t.operation is Ternary && constant(t.inputs[0], cells, k) {
                    proof {
                        lemma_blend_weight(value(t.inputs[0], cells, k), t.inputs[1], t.inputs[2]);
                    }
                    simplified(
                        blend(value(t.inputs[0], cells, k), t.inputs[1], t.inputs[2]),
                        cells,
                        k,
                    )
                } else {
                    rebuilt(t, cells, k)
                },
            }
        };
        match raw {
            Some(s) => if s.shape() == t.shape() {
                Some(s)
            } else {
                None
            },
            None => None,
        }
    }
}

/// An expression without variables, every term of which has a value, is taken to be
/// fixed.
pub proof fn lemma_variable_free_constant<K: Fn(&Operation, &Vec<Tensor>) -> Tensor>(
    t: Tree,
    cells: Seq<TensorView>,
    k: K,
)
    requires
        kernel_ok(k),
        t.wf(),
        t.variable_free(),
        valued(t, cells, k),
    ensures
        constant(t, cells, k),
    decreases t,
{
    crate::algebra::tree::lemma_variable_free_bound(t, cells);
    lemma_valued(t, cells, k);
    assert forall|j: int| 0 <= j < t.inputs.len() implies constant(
        #[trigger] t.inputs[j],
        cells,
        k,
    ) by {
        lemma_variable_free_constant(t.inputs[j], cells, k);
    }
}

/// Simplification preserves the value of an expression without variables: where every
/// term of such an expression has a value, its simplified form is the constant that holds
/// the value of the expression, and so has the same value.
pub proof fn lemma_simplified_preserves_value<K: Fn(&Operation, &Vec<Tensor>) -> Tensor>(
    t: Tree,
    cells: Seq<TensorView>,
    k: K,
)
    requires
        kernel_ok(k),
        t.wf(),
        t.variable_free(),
        valued(t, cells, k),
    ensures
        simplified(t, cells, k) == Some(literal(value(t, cells, k))),
        value(simplified(t, cells, k)->0, cells, k) == value(t, cells, k),
{
    crate::algebra::tree::lemma_variable_free_bound(t, cells);
    lemma_valued(t, cells, k);
    lemma_variable_free_constant(t, cells, k);
    let v = value(t, cells, k);
    let lit = literal(v);
    assert(lit.input_shapes() =~= Seq::<Seq<usize>>::empty());
    assert(lit.shape() == v.shape);
}

/// Whether no selection by a fixed condition is left to be blended in the expression:
/// every selection in it whose condition is taken to be fixed is itself taken to be fixed.
pub open spec fn settled_selections<K: Fn(&Operation, &Vec<Tensor>) -> Tensor>(
    t: Tree,
    cells: Seq<TensorView>,
    k: K,
) -> bool
    decreases t,
{
    &&& t.operation is Ternary && t.inputs.len() == 3 && constant(t.inputs[0], cells, k)
        ==> constant(t, cells, k)
    &&& forall|j: int|
        0 <= j < t.inputs.len() ==> settled_selections(#[trigger] t.inputs[j], cells, k)
}

/// Whether the expression `b` can stand for the expression `a`: they have the same shape,
/// both or neither are taken to be fixed, and where they are, they have the same value.
pub open spec fn stands_for<K: Fn(&Operation, &Vec<Tensor>) -> Tensor>(
    b: Tree,
    a: Tree,
    cells: Seq<TensorView>,
    k: K,
) -> bool {
    &&& b.shape() == a.shape()
    &&& constant(b, cells, k) == constant(a, cells, k)
    &&& constant(a, cells, k) ==> value(b, cells, k) == value(a, cells, k)
}

/// Whether `r` is the term of `t` over inputs that can stand for those of `t`.
pub open spec fn rebuilt_alike<K: Fn(&Operation, &Vec<Tensor>) -> Tensor>(
    r: Tree,
    t: Tree,
    cells: Seq<TensorView>,
    k: K,
) -> bool {
    &&& r.operation == t.operation
    &&& r.inputs.len() == t.inputs.len()
    &&& forall|j: int|
        0 <= j < t.inputs.len() ==> stands_for(#[trigger] r.inputs[j], t.inputs[j], cells, k)
}

/// A term over inputs that can stand for those of another has the shape of the other.
proof fn lemma_alike_shape<K: Fn(&Operation, &Vec<Tensor>) -> Tensor>(
    r: Tree,
    t: Tree,
    cells: Seq<TensorView>,
    k: K,
)
    requires
        rebuilt_alike(r, t, cells, k),
    ensures
        r.shape() == t.shape(),
{
    assert forall|j: int| 0 <= j < t.inputs.len() implies r.input_shapes()[j]
        == t.input_shapes()[j] by {
        assert(stands_for(r.inputs[j], t.inputs[j], cells, k));
    }
    assert(r.input_shapes() =~= t.input_shapes());
}

/// A term over inputs that can stand for those of another is taken to be fixed where the
/// other is.
proof fn lemma_alike_constant<K: Fn(&Operation, &Vec<Tensor>) -> Tensor>(
    r: Tree,
    t: Tree,
    cells: Seq<TensorView>,
    k: K,
)
    requires
        rebuilt_alike(r, t, cells, k),
    ensures
        constant(r, cells, k) == constant(t, cells, k),
{
    if t.inputs.len() == t.operation.arity() {
        if t.inputs.len() >= 1 {
            assert(stands_for(r.inputs[0], t.inputs[0], cells, k));
        }
        if t.inputs.len() >= 2 {
            assert(stands_for(r.inputs[1], t.inputs[1], cells, k));
        }
        if t.inputs.len() >= 3 {
            assert(stands_for(r.inputs[2], t.inputs[2], cells, k));
        }
    }
}

/// A term over inputs that can stand for those of another loses an operand where the
/// other does.
proof fn lemma_alike_kept<K: Fn(&Operation, &Vec<Tensor>) -> Tensor>(
    r: Tree,
    t: Tree,
    cells: Seq<TensorView>,
    k: K,
)
    requires
        rebuilt_alike(r, t, cells, k),
    ensures
        kept(r, cells, k) == kept(t, cells, k),
{
    lemma_alike_shape(r, t, cells, k);
    if t.inputs.len() == 2 {
        assert(stands_for(r.inputs[0], t.inputs[0], cells, k));
        assert(stands_for(r.inputs[1], t.inputs[1], cells, k));
    }
}

/// A term that is rebuilt over inputs which are their own simplified forms, and which
/// neither is taken to be fixed nor loses an operand nor is a selection by a fixed
/// condition, is its own simplified form.
proof fn lemma_rebuilt_steady<K: Fn(&Operation, &Vec<Tensor>) -> Tensor>(
    r: Tree,
    cells: Seq<TensorView>,
    k: K,
)
    requires
        r.inputs.len() == r.operation.arity(),
        !constant(r, cells, k),
        kept(r, cells, k) is None,
        !(r.operation is Ternary && constant(r.inputs[0], cells, k)),
        forall|j: int|
            0 <= j < r.inputs.len() ==> simplified(#[trigger] r.inputs[j], cells, k) == Some(
                r.inputs[j],
            ),
    ensures
        simplified(r, cells, k) == Some(r),
{
    let n = r.inputs.len();
    if n >= 1 {
        assert(simplified(r.inputs[0], cells, k) == Some(r.inputs[0]));
    }
    if n >= 2 {
        assert(simplified(r.inputs[1], cells, k) == Some(r.inputs[1]));
    }
    if n >= 3 {
        assert(simplified(r.inputs[2], cells, k) == Some(r.inputs[2]));
    }
    assert(rebuilt(r, cells, k) is Some);
    assert(rebuilt(r, cells, k)->0.inputs =~= r.inputs);
    assert(rebuilt(r, cells, k) == Some(r));
}

/// What the rebuilt term of an expression is made of.
proof fn lemma_rebuilt_inputs<K: Fn(&Operation, &Vec<Tensor>) -> Tensor>(
    t: Tree,
    cells: Seq<TensorView>,
    k: K,
)
    requires
        rebuilt(t, cells, k) is Some,
    ensures
        rebuilt(t, cells, k)->0.operation == t.operation,
        rebuilt(t, cells, k)->0.inputs.len() == t.inputs.len(),
        forall|j: int|
            0 <= j < t.inputs.len() ==> simplified(#[trigger] t.inputs[j], cells, k) == Some(
                rebuilt(t, cells, k)->0.inputs[j],
            ),
{
    let n = t.inputs.len();
    let r = rebuilt(t, cells, k)->0;
    if n == 0 {
    } else if n == 1 {
        let a = simplified(t.inputs[0], cells, k);
        assert(a is Some);
        assert(r.inputs == seq![a->0]);
    } else if n == 2 {
        let a = simplified(t.inputs[0], cells, k);
        let b = simplified(t.inputs[1], cells, k);
        assert(a is Some && b is Some);
        assert(r.inputs == seq![a->0, b->0]);
    } else if n == 3 {
        let a = simplified(t.inputs[0], cells, k);
        let b = simplified(t.inputs[1], cells, k);
        let c = simplified(t.inputs[2], cells, k);
        assert(a is Some && b is Some && c is Some);
        assert(r.inputs == seq![a->0, b->0, c->0]);
    }
}

/// What simplification keeps of an expression without a selection that is left to be
/// blended: its shape and whether it is taken to be fixed; and the simplified form has no
/// such selection either and is its own simplified form.
proof fn lemma_simplified_steady<K: Fn(&Operation, &Vec<Tensor>) -> Tensor>(
    t: Tree,
    cells: Seq<TensorView>,
    k: K,
)
    requires
        settled_selections(t, cells, k),
        simplified(t, cells, k) is Some,
    ensures
        simplified(simplified(t, cells, k)->0, cells, k) == simplified(t, cells, k),
        stands_for(simplified(t, cells, k)->0, t, cells, k),
        settled_selections(simplified(t, cells, k)->0, cells, k),
    decreases t,
{
    let s = simplified(t, cells, k)->0;
    if constant(t, cells, k) {
        assert(s == literal(value(t, cells, k)));
        assert(constant(s, cells, k));
        assert(value(s, cells, k) == value(t, cells, k));
    } else {
        match kept(t, cells, k) {
            Some(j) => {
                if j == 0 {
                    lemma_simplified_steady(t.inputs[0], cells, k);
                } else {
                    lemma_simplified_steady(t.inputs[1], cells, k);
                }
            },
            None => {
                let r = rebuilt(t, cells, k)->0;
                assert(s == r);
                lemma_rebuilt_inputs(t, cells, k);
                assert forall|j: int| 0 <= j < t.inputs.len() implies {
                    &&& simplified(#[trigger] r.inputs[j], cells, k) == Some(r.inputs[j])
                    &&& stands_for(r.inputs[j], t.inputs[j], cells, k)
                    &&& settled_selections(r.inputs[j], cells, k)
                } by {
                    lemma_simplified_steady(t.inputs[j], cells, k);
                }
                assert(rebuilt_alike(r, t, cells, k));
                lemma_alike_shape(r, t, cells, k);
                lemma_alike_constant(r, t, cells, k);
                lemma_alike_kept(r, t, cells, k);
                if r.operation is Ternary {
                    assert(stands_for(r.inputs[0], t.inputs[0], cells, k));
                }
                lemma_rebuilt_steady(r, cells, k);
            },
        }
    }
}

/// Simplification is idempotent on an expression without a selection that is left to be
/// blended: the simplified form of such an expression is its own simplified form.
pub proof fn lemma_simplified_idempotent<K: Fn(&Operation, &Vec<Tensor>) -> Tensor>(
    t: Tree,
    cells: Seq<TensorView>,
    k: K,
)
    requires
        settled_selections(t, cells, k),
        simplified(t, cells, k) is Some,
    ensures
        simplified(simplified(t, cells, k)->0, cells, k) == simplified(t, cells, k),
{
    lemma_simplified_steady(t, cells, k);
}

/// The census of the array `c`.
pub fn census_of<K: Fn(&Operation, &Vec<Tensor>) -> Tensor>(c: &Tensor, kernel: &K) -> (r: Census)
    requires
        c@.wf(),
        kernel_ok(*kernel),
    ensures
        r == census(c@, *kernel),
{
    let count: u32 = scalar_count(c.len());
    let inputs: Vec<Tensor> = vec![c.copy()];
    proof {
        assert(views(inputs@) =~= seq![c@]);
        assert(crate::tensor::shapes(views(inputs@)) =~= seq![c@.shape]);
        crate::algebra::construct::lemma_scalar_fits();
    }
    let operation = Operation::Sum;
    let sum = kernel(&operation, &inputs);
    proof {
        lemma_kernel_value(*kernel, operation, inputs, sum);
        assert(sum@.shape =~= Seq::<usize>::empty());
    }
    let s: u32 = sum.data()[0];
    if same_number(s, count) {
        Census::All
    } else if s == ZERO || s == crate::tensor::NEGATIVE_ZERO {
        Census::Nothing
    } else {
        Census::Mixed
    }
}

impl Expr {
    /// Whether the value of the expression is taken to be fixed.
    pub fn is_constant<K: Fn(&Operation, &Vec<Tensor>) -> Tensor>(
        &self,
        arena: &Arena,
        kernel: &K,
    ) -> (r: bool)
        requires
            arena@.wf(),
            arena@.contains(*self),
            kernel_ok(*kernel),
        ensures
            r == constant(arena@.of(*self), arena@.cells, *kernel),
        decreases self.id,
    {
        proof {
            lemma_node(arena@, *self);
        }
        let inputs = arena.inputs(*self);
        let n: usize = inputs.len();
        proof {
            assert forall|j: int| 0 <= j < n implies (#[trigger] inputs[j]).id < self.id
                && arena@.of(*self).inputs[j] == arena@.of(inputs[j]) by {
                assert(ids(inputs@)[j] == inputs[j].id);
            }
        }
        match arena.operation(*self) {
            Operation::Constant { .. } => true,
            Operation::Variable { .. } => false,
            Operation::Unevaluable { .. } => false,
            Operation::Mul | Operation::MatMul | Operation::MatVecMul => {
                let left: bool = inputs[0].is_constant(arena, kernel);
                let right: bool = inputs[1].is_constant(arena, kernel);
                if left && right {
                    true
                } else if left {
                    inputs[0].eval(arena, kernel).is_zeros()
                } else if right {
                    inputs[1].eval(arena, kernel).is_zeros()
                } else {
                    false
                }
            },
            Operation::Div => {
                if !inputs[0].is_constant(arena, kernel) {
                    return false;
                }
                let numerator = inputs[0].eval(arena, kernel);
                inputs[1].is_constant(arena, kernel) || numerator.is_zeros()
            },
            Operation::Ternary => {
                if !inputs[0].is_constant(arena, kernel) {
                    return false;
                }
                let condition = inputs[0].eval(arena, kernel);
                match census_of(&condition, kernel) {
                    Census::All => inputs[1].is_constant(arena, kernel),
                    Census::Nothing => inputs[2].is_constant(arena, kernel),
                    Census::Mixed => inputs[1].is_constant(arena, kernel) && inputs[2].is_constant(
                        arena,
                        kernel,
                    ),
                }
            },
            _ => {
                if n >= 1 && !inputs[0].is_constant(arena, kernel) {
                    return false;
                }
                if n >= 2 && !inputs[1].is_constant(arena, kernel) {
                    return false;
                }
                true
            },
        }
    }

    /// The term of this expression over the simplified inputs, where each input has a
    /// simplified form.
    pub fn rebuild<K: Fn(&Operation, &Vec<Tensor>) -> Tensor>(
        &self,
        arena: &mut Arena,
        kernel: &K,
    ) -> (r: Option<Expr>)
        requires
            old(arena)@.wf(),
            old(arena)@.contains(*self),
            kernel_ok(*kernel),
        ensures
            final(arena)@.wf(),
            final(arena)@.extends(old(arena)@),
            final(arena)@.cells == old(arena)@.cells,
            r is Some <==> rebuilt(old(arena)@.of(*self), old(arena)@.cells, *kernel) is Some,
            r matches Some(e) ==> final(arena)@.contains(e) && Some(final(arena)@.of(e))
                == rebuilt(old(arena)@.of(*self), old(arena)@.cells, *kernel)
                && final(arena)@.of(e).shape() == old(arena)@.of(*self).shape(),
        decreases weight(old(arena)@.of(*self)), 0nat,
    {
        let ghost before = arena@;
        let ghost t = arena@.of(*self);
        let ghost cells = arena@.cells;
        proof {
            lemma_node(before, *self);
        }
        let inputs = self.inputs(arena);
        let operation = arena.operation(*self).copy();
        let n: usize = inputs.len();
        let mut fresh: Vec<Expr> = Vec::new();
        let mut j: usize = 0;
        proof {
            assert forall|p: int| 0 <= p < n implies before.of(#[trigger] inputs[p]) == t.inputs[p]
                && before.contains(inputs[p]) by {
                assert(before.trees(ids(inputs@))[p] == before.tree(ids(inputs@)[p] as int));
            }
        }
        while j < n
            invariant
                before.wf(),
                before.contains(*self),
                before == old(arena)@,
                t == before.of(*self),
                cells == before.cells,
                kernel_ok(*kernel),
                arena@.wf(),
                arena@.extends(before),
                arena@.cells == cells,
                n == inputs.len(),
                n == t.inputs.len(),
                n <= 3,
                j <= n,
                fresh.len() == j,
                forall|p: int|
                    0 <= p < n ==> before.of(#[trigger] inputs[p]) == t.inputs[p]
                        && before.contains(inputs[p]),
                forall|p: int|
                    0 <= p < j ==> arena@.contains(#[trigger] fresh[p]) && Some(
                        arena@.of(fresh[p]),
                    ) == simplified(t.inputs[p], cells, *kernel),
            decreases n - j,
        {
            let ghost middle = arena@;
            proof {
                lemma_of_extends(before, middle, inputs[j as int]);
            }
            match inputs[j].try_propagate_constants(arena, kernel) {
                Some(e) => {
                    proof {
                        assert forall|p: int| 0 <= p < j implies arena@.contains(
                            #[trigger] fresh[p],
                        ) && Some(arena@.of(fresh[p])) == simplified(
                            t.inputs[p],
                            cells,
                            *kernel,
                        ) by {
                            lemma_of_extends(middle, arena@, fresh[p]);
                        }
                    }
                    fresh.push(e);
                },
                None => {
                    return None;
                },
            }
            j += 1;
        }
        proof {
            let a = arena@;
            let term = before.terms[self.id as int];
            assert(before.term_wf(self.id as int));
            assert(a.input_shapes(ids(fresh@)) =~= before.input_shapes(term.inputs)) by {
                assert forall|p: int| 0 <= p < n implies a.input_shapes(ids(fresh@))[p]
                    == before.input_shapes(term.inputs)[p] by {
                    lemma_node(a, fresh[p]);
                    assert(ids(fresh@)[p] == fresh[p].id);
                    assert(simplified(t.inputs[p], cells, *kernel) is Some);
                    assert(a.of(fresh[p]).shape() == t.inputs[p].shape());
                    assert(t.input_shapes()[p] == t.inputs[p].shape());
                }
            }
            assert forall|p: int| 0 <= p < ids(fresh@).len() implies ids(fresh@)[p]
                < a.terms.len() by {
                assert(a.contains(fresh[p]));
            }
            assert(a.trees(ids(fresh@)) =~= Seq::new(
                n as nat,
                |p: int| simplified(t.inputs[p], cells, *kernel)->0,
            )) by {
                assert forall|p: int| 0 <= p < n implies a.trees(ids(fresh@))[p] == simplified(
                    t.inputs[p],
                    cells,
                    *kernel,
                )->0 by {
                    assert(ids(fresh@)[p] == fresh[p].id);
                    assert(Some(a.of(fresh[p])) == simplified(t.inputs[p], cells, *kernel));
                }
            }
        }
        let ghost a = arena@;
        let e = Expr::new(arena, operation, fresh);
        proof {
            lemma_node(arena@, e);
            let made = arena@.of(e);
            let want = rebuilt(t, cells, *kernel);
            assert(want is Some);
            assert(made.inputs =~= want->0.inputs);
            assert(made == want->0);
        }
        Some(e)
    }

    /// The simplified form of the expression, where it has one; new terms are appended to
    /// the arena for it. Where it has none, the terms made on the way stay in the arena.
    pub fn try_propagate_constants<K: Fn(&Operation, &Vec<Tensor>) -> Tensor>(
        &self,
        arena: &mut Arena,
        kernel: &K,
    ) -> (r: Option<Expr>)
        requires
            old(arena)@.wf(),
            old(arena)@.contains(*self),
            kernel_ok(*kernel),
        ensures
            final(arena)@.wf(),
            final(arena)@.extends(old(arena)@),
            final(arena)@.cells == old(arena)@.cells,
            r is Some <==> simplified(old(arena)@.of(*self), old(arena)@.cells, *kernel) is Some,
            r matches Some(e) ==> final(arena)@.contains(e) && Some(final(arena)@.of(e))
                == simplified(old(arena)@.of(*self), old(arena)@.cells, *kernel),
        decreases weight(old(arena)@.of(*self)), 1nat,
    {
        let ghost before = arena@;
        let ghost t = arena@.of(*self);
        let ghost cells = arena@.cells;
        proof {
            lemma_node(before, *self);
        }
        let inputs = self.inputs(arena);
        let n: usize = inputs.len();
        proof {
            assert forall|p: int| 0 <= p < n implies before.of(#[trigger] inputs[p]) == t.inputs[p]
                && before.contains(inputs[p]) by {
                assert(before.trees(ids(inputs@))[p] == before.tree(ids(inputs@)[p] as int));
            }
        }
        let raw: Option<Expr> = if self.is_constant(arena, kernel) {
            let v = self.eval(arena, kernel);
            Some(expr(arena, v))
        } else {
            let operation = arena.operation(*self).copy();
            match operation {
                Operation::Add => {
                    if inputs[0].is_constant(arena, kernel) && inputs[0].eval(
                        arena,
                        kernel,
                    ).is_zeros() && crate::shape::same(arena.shape(*self), arena.shape(inputs[1])) {
                        proof {
                            lemma_node(before, inputs[1]);
                        }
                        inputs[1].try_propagate_constants(arena, kernel)
                    } else if inputs[1].is_constant(arena, kernel) && inputs[1].eval(
                        arena,
                        kernel,
                    ).is_zeros() && crate::shape::same(arena.shape(*self), arena.shape(inputs[0])) {
                        proof {
                            lemma_node(before, inputs[0]);
                            lemma_node(before, inputs[1]);
                        }
                        inputs[0].try_propagate_constants(arena, kernel)
                    } else {
                        proof {
                            lemma_node(before, inputs[0]);
                            lemma_node(before, inputs[1]);
                        }
                        self.rebuild(arena, kernel)
                    }
                },
                Operation::Sub => {
                    proof {
                        lemma_node(before, inputs[0]);
                    }
                    if inputs[1].is_constant(arena, kernel) && inputs[1].eval(
                        arena,
                        kernel,
                    ).is_zeros() && crate::shape::same(arena.shape(*self), arena.shape(inputs[0])) {
                        inputs[0].try_propagate_constants(arena, kernel)
                    } else {
                        self.rebuild(arena, kernel)
                    }
                },
                Operation::Mul => {
                    proof {
                        lemma_node(before, inputs[0]);
                        lemma_node(before, inputs[1]);
                    }
                    if inputs[0].is_constant(arena, kernel) && inputs[0].eval(
                        arena,
                        kernel,
                    ).is_ones() && crate::shape::same(arena.shape(*self), arena.shape(inputs[1])) {
                        inputs[1].try_propagate_constants(arena, kernel)
                    } else if inputs[1].is_constant(arena, kernel) && inputs[1].eval(
                        arena,
                        kernel,
                    ).is_ones() && crate::shape::same(arena.shape(*self), arena.shape(inputs[0])) {
                        inputs[0].try_propagate_constants(arena, kernel)
                    } else {
                        self.rebuild(arena, kernel)
                    }
                },
                Operation::BiasAdd => {
                    proof {
                        lemma_node(before, inputs[0]);
                    }
                    if inputs[1].is_constant(arena, kernel) && inputs[1].eval(
                        arena,
                        kernel,
                    ).is_zeros() && crate::shape::same(arena.shape(*self), arena.shape(inputs[0])) {
                        inputs[0].try_propagate_constants(arena, kernel)
                    } else {
                        self.rebuild(arena, kernel)
                    }
                },
                Operation::Div => {
                    proof {
                        lemma_node(before, inputs[0]);
                    }
                    if inputs[1].is_constant(arena, kernel) && inputs[1].eval(
                        arena,
                        kernel,
                    ).is_ones() && crate::shape::same(arena.shape(*self), arena.shape(inputs[0])) {
                        inputs[0].try_propagate_constants(arena, kernel)
                    } else {
                        self.rebuild(arena, kernel)
                    }
                },
                Operation::Ternary => {
                    if inputs[0].is_constant(arena, kernel) {
                        let c = inputs[0].eval(arena, kernel);
                        let ghost cv = c@;
                        let held = expr(arena, c);
                        let ghost a1 = arena@;
                        proof {
                            lemma_of_extends(before, a1, inputs[1]);
                        }
                        let left = held.mul(arena, inputs[1]);
                        let ghost a2 = arena@;
                        let one = expr(arena, Tensor::scalar(ONE));
                        let ghost a3 = arena@;
                        proof {
                            lemma_of_extends(a1, a2, held);
                            lemma_of_extends(a2, a3, held);
                        }
                        let less = one.sub(arena, held);
                        let ghost a4 = arena@;
                        proof {
                            crate::algebra::tree::lemma_extends_trans(before, a1, a2);
                            crate::algebra::tree::lemma_extends_trans(before, a2, a3);
                            crate::algebra::tree::lemma_extends_trans(before, a3, a4);
                            lemma_of_extends(before, a4, inputs[2]);
                        }
                        let right = less.mul(arena, inputs[2]);
                        let ghost a5 = arena@;
                        proof {
                            lemma_of_extends(a2, a3, left);
                            lemma_of_extends(a3, a4, left);
                            lemma_of_extends(a4, a5, left);
                        }
                        let blended = left.add(arena, right);
                        proof {
                            crate::algebra::tree::lemma_extends_trans(before, a4, a5);
                            crate::algebra::tree::lemma_extends_trans(before, a5, arena@);
                            assert(arena@.of(blended) == blend(cv, t.inputs[1], t.inputs[2]));
                            lemma_blend_weight(cv, t.inputs[1], t.inputs[2]);
                        }
                        blended.try_propagate_constants(arena, kernel)
                    } else {
                        self.rebuild(arena, kernel)
                    }
                },
                _ => self.rebuild(arena, kernel),
            }
        };
        match raw {
            Some(s) => {
                proof {
                    lemma_node(arena@, s);
                    lemma_of_extends(before, arena@, *self);
                    lemma_node(arena@, *self);
                }
                if crate::shape::same(arena.shape(s), arena.shape(*self)) {
                    Some(s)
                } else {
                    None
                }
            },
            None => None,
        }
    }

    /// The simplified form of the expression; new terms are appended to the arena for it.
    pub fn propagate_constants<K: Fn(&Operation, &Vec<Tensor>) -> Tensor>(
        &self,
        arena: &mut Arena,
        kernel: &K,
    ) -> (e: Expr)
        requires
            old(arena)@.wf(),
            old(arena)@.contains(*self),
            kernel_ok(*kernel),
            simplified(old(arena)@.of(*self), old(arena)@.cells, *kernel) is Some,
        ensures
            final(arena)@.wf(),
            final(arena)@.extends(old(arena)@),
            final(arena)@.cells == old(arena)@.cells,
            final(arena)@.contains(e),
            Some(final(arena)@.of(e)) == simplified(
                old(arena)@.of(*self),
                old(arena)@.cells,
                *kernel,
            ),
    {
        match self.try_propagate_constants(arena, kernel) {
            Some(e) => e,
            None => unreached(),
        }
    }

    /// The simplified form of the expression; new terms are appended to the arena for it.
    pub fn simplified<K: Fn(&Operation, &Vec<Tensor>) -> Tensor>(
        &self,
        arena: &mut Arena,
        kernel: &K,
    ) -> (e: Expr)
        requires
            old(arena)@.wf(),
            old(arena)@.contains(*self),
            kernel_ok(*kernel),
            simplified(old(arena)@.of(*self), old(arena)@.cells, *kernel) is Some,
        ensures
            final(arena)@.wf(),
            final(arena)@.extends(old(arena)@),
            final(arena)@.cells == old(arena)@.cells,
            final(arena)@.contains(e),
            Some(final(arena)@.of(e)) == simplified(
                old(arena)@.of(*self),
                old(arena)@.cells,
                *kernel,
            ),
    {
        self.propagate_constants(arena, kernel)
    }
}

} // verus!

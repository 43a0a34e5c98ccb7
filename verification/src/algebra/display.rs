//! Expressions as text.

use vstd::prelude::*;
use vstd::string::StringExecFns;
use crate::algebra::arena::{ids, Arena, Expr};
use crate::algebra::comparison::Op;
use crate::algebra::operation::{Operation, OperationView, Padding};
use crate::algebra::tree::{lemma_node, Tree};
use crate::tensor::{Tensor, TensorView};

verus! {

/// The text of a decimal digit.
pub open spec fn digit_text(d: nat) -> Seq<char> {
    if d == 0 {
        "0"@
    } else if d == 1 {
        "1"@
    } else if d == 2 {
        "2"@
    } else if d == 3 {
        "3"@
    } else if d == 4 {
        "4"@
    } else if d == 5 {
        "5"@
    } else if d == 6 {
        "6"@
    } else if d == 7 {
        "7"@
    } else if d == 8 {
        "8"@
    } else {
        "9"@
    }
}

/// The decimal text of a number, without leading zeros.
pub open spec fn decimal_text(n: nat) -> Seq<char>
    decreases n,
{
    if n < 10 {
        digit_text(n)
    } else {
        decimal_text(n / 10) + digit_text(n % 10)
    }
}

/// The text of the numbers from position `from` on, each but the first of the list
/// preceded by a comma and a space.
pub open spec fn items_text(list: Seq<usize>, upto: int) -> Seq<char>
    decreases upto,
{
    if upto <= 0 || upto > list.len() {
        Seq::empty()
    } else if upto == 1 {
        decimal_text(list[0] as nat)
    } else {
        items_text(list, upto - 1) + ", "@ + decimal_text(list[upto - 1] as nat)
    }
}

/// The text of a list of numbers: the numbers in brackets, separated by commas.
pub open spec fn list_text(list: Seq<usize>) -> Seq<char> {
    "["@ + items_text(list, list.len() as int) + "]"@
}

/// The sign of a comparison.
pub open spec fn op_text(op: Op) -> Seq<char> {
    match op {
        Op::Less => "<"@,
        Op::LessOrEqual => "<="@,
        Op::Greater => ">"@,
        Op::GreaterOrEqual => ">="@,
        Op::Equal => "="@,
        Op::NotEqual => "!="@,
    }
}

/// The name of a padding.
pub open spec fn padding_text(padding: Padding) -> Seq<char> {
    match padding {
        Padding::Same => "SAME"@,
        Padding::Valid => "VALID"@,
    }
}

/// What the printer of literals asks of the function that prints one: it can be called on
/// every array, and what it returns depends on the array alone.
pub open spec fn printer_ok<F: Fn(&Tensor) -> String>(f: F) -> bool {
    &&& forall|t: &Tensor| #[trigger] f.requires((t,))
    &&& forall|t1: &Tensor, r1: String, t2: &Tensor, r2: String|
        #[trigger] f.ensures((t1,), r1) && #[trigger] f.ensures((t2,), r2) && t1@ == t2@ ==> r1@
            == r2@
}

/// Whether the function `f` can return the text `s` for the array `v`.
pub open spec fn prints<F: Fn(&Tensor) -> String>(f: F, v: TensorView, s: Seq<char>) -> bool {
    exists|t: Tensor, r: String| t@ == v && #[trigger] f.ensures((&t,), r) && r@ == s
}

/// The text that the function `f` gives for the array `v`.
pub open spec fn literal_text<F: Fn(&Tensor) -> String>(f: F, v: TensorView) -> Seq<char> {
    choose|s: Seq<char>| prints(f, v, s)
}

/// The text `a` between `before` and `after`.
pub open spec fn around1(before: Seq<char>, a: Seq<char>, after: Seq<char>) -> Seq<char> {
    before + a + after
}

/// The texts `a` and `b` between `before`, `between` and `after`.
pub open spec fn around2(
    before: Seq<char>,
    a: Seq<char>,
    between: Seq<char>,
    b: Seq<char>,
    after: Seq<char>,
) -> Seq<char> {
    before + a + between + b + after
}

/// The text of an expression: a variable is its name, a constant what `f` gives for its
/// array, an arithmetic operation its operands in parentheses around the sign, and any
/// other operation its name before its operands in parentheses.
pub open spec fn rendered<F: Fn(&Tensor) -> String>(t: Tree, f: F) -> Seq<char>
    decreases t,
{
    if t.inputs.len() != t.operation.arity() {
        Seq::empty()
    } else {
        match t.operation {
            OperationView::Constant { value } => literal_text(f, value),
            OperationView::Variable { name, .. } => name,
            OperationView::Unevaluable { reason, .. } => around1("unevaluable("@, reason, ")"@),
            OperationView::Add => around2(
                "("@,
                rendered(t.inputs[0], f),
                " + "@,
                rendered(t.inputs[1], f),
                ")"@,
            ),
            OperationView::Sub => around2(
                "("@,
                rendered(t.inputs[0], f),
                " - "@,
                rendered(t.inputs[1], f),
                ")"@,
            ),
            OperationView::Mul => around2(
                "("@,
                rendered(t.inputs[0], f),
                " * "@,
                rendered(t.inputs[1], f),
                ")"@,
            ),
            OperationView::Div => around2(
                "("@,
                rendered(t.inputs[0], f),
                " / "@,
                rendered(t.inputs[1], f),
                ")"@,
            ),
            OperationView::Compare { op } => around2(
                "("@,
                rendered(t.inputs[0], f),
                around1(" "@, op_text(op), " "@),
                rendered(t.inputs[1], f),
                ")"@,
            ),
            OperationView::Ternary => around2(
                "("@,
                rendered(t.inputs[0], f),
                " ? "@,
                rendered(t.inputs[1], f),
                around1(" : "@, rendered(t.inputs[2], f), ")"@),
            ),
            OperationView::Exp => around1("exp("@, rendered(t.inputs[0], f), ")"@),
            OperationView::Ln => around1("ln("@, rendered(t.inputs[0], f), ")"@),
            OperationView::Square => around1("square("@, rendered(t.inputs[0], f), ")"@),
            OperationView::Sqrt => around1("sqrt("@, rendered(t.inputs[0], f), ")"@),
            OperationView::Sum => around1("sum("@, rendered(t.inputs[0], f), ")"@),
            OperationView::ReduceSum { axes } => around1(
                "reduce_sum("@,
                rendered(t.inputs[0], f),
                around1(", "@, list_text(axes), ")"@),
            ),
            OperationView::BroadcastTo { shape } => around1(
                "broadcast_to("@,
                rendered(t.inputs[0], f),
                around1(", "@, list_text(shape), ")"@),
            ),
            OperationView::Reshape { .. } => around1("reshape("@, rendered(t.inputs[0], f), ")"@),
            OperationView::Transpose => around1(
                "transpose("@,
                rendered(t.inputs[0], f),
                ")"@,
            ),
            OperationView::MatMul => around2(
                "("@,
                rendered(t.inputs[0], f),
                " \u{b7} "@,
                rendered(t.inputs[1], f),
                ")"@,
            ),
            OperationView::MatVecMul => around2(
                "("@,
                rendered(t.inputs[0], f),
                " \u{b7} "@,
                rendered(t.inputs[1], f),
                ")"@,
            ),
            OperationView::Conv2D { stride, padding } => around2(
                "conv2d("@,
                rendered(t.inputs[0], f),
                ", "@,
                rendered(t.inputs[1], f),
                around2(", "@, decimal_text(stride as nat), ", "@, padding_text(padding), ")"@),
            ),
            OperationView::BiasAdd => around2(
                "bias_add("@,
                rendered(t.inputs[0], f),
                ", "@,
                rendered(t.inputs[1], f),
                ")"@,
            ),
            OperationView::Softmax => around1("softmax("@, rendered(t.inputs[0], f), ")"@),
        }
    }
}

/// The text of a decimal digit.
fn digit(d: usize) -> (r: &'static str)
    requires
        d < 10,
    ensures
        r@ == digit_text(d as nat),
{
    if d == 0 {
        "0"
    } else if d == 1 {
        "1"
    } else if d == 2 {
        "2"
    } else if d == 3 {
        "3"
    } else if d == 4 {
        "4"
    } else if d == 5 {
        "5"
    } else if d == 6 {
        "6"
    } else if d == 7 {
        "7"
    } else if d == 8 {
        "8"
    } else {
        "9"
    }
}

/// Appends the decimal text of `n` to `out`.
pub fn append_decimal(out: &mut String, n: usize)
    ensures
        final(out)@ == old(out)@ + decimal_text(n as nat),
    decreases n,
{
    if n < 10 {
        out.append(digit(n));
    } else {
        append_decimal(out, n / 10);
        out.append(digit(n % 10));
        assert(old(out)@ + decimal_text((n / 10) as nat) + digit_text((n % 10) as nat) =~= old(
            out,
        )@ + (decimal_text((n / 10) as nat) + digit_text((n % 10) as nat)));
    }
}

/// Appends the text of a list of numbers to `out`.
pub fn append_list(out: &mut String, list: &Vec<usize>)
    ensures
        final(out)@ == old(out)@ + list_text(list@),
{
    out.append("[");
    let ghost start = out@;
    let n: usize = list.len();
    let mut i: usize = 0;
    proof {
        assert(start + items_text(list@, 0) =~= start);
    }
    while i < n
        invariant
            n == list.len(),
            i <= n,
            start == old(out)@ + "["@,
            out@ == start + items_text(list@, i as int),
        decreases n - i,
    {
        if i > 0 {
            out.append(", ");
        }
        append_decimal(out, list[i]);
        proof {
            if i > 0 {
                assert(start + items_text(list@, i as int) + ", "@ + decimal_text(
                    list[i as int] as nat,
                ) =~= start + items_text(list@, i + 1));
            } else {
                assert(start + items_text(list@, 0) + decimal_text(list[0] as nat) =~= start
                    + items_text(list@, 1));
            }
        }
        i += 1;
    }
    out.append("]");
    proof {
        assert(old(out)@ + "["@ + items_text(list@, n as int) + "]"@ =~= old(out)@ + list_text(
            list@,
        ));
    }
}

/// The sign of a comparison.
fn op_sign(op: Op) -> (r: &'static str)
    ensures
        r@ == op_text(op),
{
    match op {
        Op::Less => "<",
        Op::LessOrEqual => "<=",
        Op::Greater => ">",
        Op::GreaterOrEqual => ">=",
        Op::Equal => "=",
        Op::NotEqual => "!=",
    }
}

/// The name of a padding.
fn padding_name(padding: Padding) -> (r: &'static str)
    ensures
        r@ == padding_text(padding),
{
    match padding {
        Padding::Same => "SAME",
        Padding::Valid => "VALID",
    }
}

/// The greater of two indices.
pub open spec fn greater(a: usize, b: usize) -> usize {
    if a > b {
        a
    } else {
        b
    }
}

/// The text `middle` between `before` and `after`.
fn joined(before: &str, middle: &str, after: &str) -> (r: String)
    ensures
        r@ == around1(before@, middle@, after@),
{
    let mut r = String::from_str(before);
    r.append(middle);
    r.append(after);
    r
}

/// Appends the text of `a` between `before` and `after` to `out`.
fn write1<F: Fn(&Tensor) -> String>(
    arena: &Arena,
    literal: &F,
    before: &str,
    a: Expr,
    after: &str,
    out: &mut String,
)
    requires
        arena@.wf(),
        arena@.contains(a),
        printer_ok(*literal),
    ensures
        final(out)@ == old(out)@ + around1(before@, rendered(arena@.of(a), *literal), after@),
    decreases a.id, 1nat,
{
    out.append(before);
    a.append_text(arena, literal, out);
    out.append(after);
    assert(out@ =~= old(out)@ + around1(before@, rendered(arena@.of(a), *literal), after@));
}

/// Appends the texts of `a` and `b` between `before`, `between` and `after` to `out`.
fn write2<F: Fn(&Tensor) -> String>(
    arena: &Arena,
    literal: &F,
    before: &str,
    a: Expr,
    between: &str,
    b: Expr,
    after: &str,
    out: &mut String,
)
    requires
        arena@.wf(),
        arena@.contains(a),
        arena@.contains(b),
        printer_ok(*literal),
    ensures
        final(out)@ == old(out)@ + around2(
            before@,
            rendered(arena@.of(a), *literal),
            between@,
            rendered(arena@.of(b), *literal),
            after@,
        ),
    decreases greater(a.id, b.id), 1nat,
{
    out.append(before);
    a.append_text(arena, literal, out);
    out.append(between);
    b.append_text(arena, literal, out);
    out.append(after);
    assert(out@ =~= old(out)@ + around2(
        before@,
        rendered(arena@.of(a), *literal),
        between@,
        rendered(arena@.of(b), *literal),
        after@,
    ));
}

impl Expr {
    /// Appends the text of the expression to `out`.
    pub fn append_text<F: Fn(&Tensor) -> String>(&self, arena: &Arena, literal: &F, out: &mut String)
        requires
            arena@.wf(),
            arena@.contains(*self),
            printer_ok(*literal),
        ensures
            final(out)@ == old(out)@ + rendered(arena@.of(*self), *literal),
        decreases self.id, 0nat,
    {
        proof {
            lemma_node(arena@, *self);
        }
        let ghost t = arena@.of(*self);
        let inputs = arena.inputs(*self);
        let n: usize = inputs.len();
        proof {
            assert forall|p: int| 0 <= p < n implies (#[trigger] inputs[p]).id < self.id
                && arena@.of(inputs[p]) == t.inputs[p] by {
                assert(ids(inputs@)[p] == inputs[p].id);
            }
        }
        match arena.operation(*self) {
            Operation::Constant { value } => {
                let text = literal(value);
                proof {
                    assert(prints(*literal, value@, text@));
                    let s = literal_text(*literal, value@);
                    assert(prints(*literal, value@, s));
                    let (t2, r2) = choose|t2: Tensor, r2: String|
                        t2@ == value@ && #[trigger] literal.ensures((&t2,), r2) && r2@ == s;
                    assert(literal.ensures((&t2,), r2));
                }
                out.append(text.as_str());
            },
            Operation::Variable { name, .. } => {
                out.append(name.as_str());
            },
            Operation::Unevaluable { reason, .. } => {
                let text = joined("unevaluable(", reason.as_str(), ")");
                out.append(text.as_str());
            },
            Operation::Add => write2(arena, literal, "(", inputs[0], " + ", inputs[1], ")", out),
            Operation::Sub => write2(arena, literal, "(", inputs[0], " - ", inputs[1], ")", out),
            Operation::Mul => write2(arena, literal, "(", inputs[0], " * ", inputs[1], ")", out),
            Operation::Div => write2(arena, literal, "(", inputs[0], " / ", inputs[1], ")", out),
            Operation::Compare { op } => {
                let sign = joined(" ", op_sign(*op), " ");
                write2(arena, literal, "(", inputs[0], sign.as_str(), inputs[1], ")", out)
            },
            Operation::Ternary => {
                let mut last = String::new();
                write1(arena, literal, " : ", inputs[2], ")", &mut last);
                assert(last@ =~= around1(" : "@, rendered(t.inputs[2], *literal), ")"@));
                write2(arena, literal, "(", inputs[0], " ? ", inputs[1], last.as_str(), out)
            },
            Operation::Exp => write1(arena, literal, "exp(", inputs[0], ")", out),
            Operation::Ln => write1(arena, literal, "ln(", inputs[0], ")", out),
            Operation::Square => write1(arena, literal, "square(", inputs[0], ")", out),
            Operation::Sqrt => write1(arena, literal, "sqrt(", inputs[0], ")", out),
            Operation::Sum => write1(arena, literal, "sum(", inputs[0], ")", out),
            Operation::ReduceSum { axes } => {
                let mut list = String::new();
                append_list(&mut list, axes);
                assert(list@ =~= list_text(axes@));
                let last = joined(", ", list.as_str(), ")");
                write1(arena, literal, "reduce_sum(", inputs[0], last.as_str(), out)
            },
            Operation::BroadcastTo { shape } => {
                let mut list = String::new();
                append_list(&mut list, shape);
                assert(list@ =~= list_text(shape@));
                let last = joined(", ", list.as_str(), ")");
                write1(arena, literal, "broadcast_to(", inputs[0], last.as_str(), out)
            },
            Operation::Reshape { .. } => write1(arena, literal, "reshape(", inputs[0], ")", out),
            Operation::Transpose => write1(arena, literal, "transpose(", inputs[0], ")", out),
            Operation::MatMul => write2(
                arena,
                literal,
                "(",
                inputs[0],
                " \u{b7} ",
                inputs[1],
                ")",
                out,
            ),
            Operation::MatVecMul => write2(
                arena,
                literal,
                "(",
                inputs[0],
                " \u{b7} ",
                inputs[1],
                ")",
                out,
            ),
            Operation::Conv2D { stride, padding } => {
                let mut last = String::from_str(", ");
                append_decimal(&mut last, *stride);
                last.append(", ");
                last.append(padding_name(*padding));
                last.append(")");
                assert(last@ =~= around2(
                    ", "@,
                    decimal_text(*stride as nat),
                    ", "@,
                    padding_text(*padding),
                    ")"@,
                ));
                write2(arena, literal, "conv2d(", inputs[0], ", ", inputs[1], last.as_str(), out)
            },
            Operation::BiasAdd => write2(
                arena,
                literal,
                "bias_add(",
                inputs[0],
                ", ",
                inputs[1],
                ")",
                out,
            ),
            Operation::Softmax => write1(arena, literal, "softmax(", inputs[0], ")", out),
        }
    }

    /// The text of the expression; `literal` prints the array of a constant.
    pub fn to_string<F: Fn(&Tensor) -> String>(&self, arena: &Arena, literal: &F) -> (r: String)
        requires
            arena@.wf(),
            arena@.contains(*self),
            printer_ok(*literal),
        ensures
            r@ == rendered(arena@.of(*self), *literal),
    {
        let mut out = String::new();
        self.append_text(arena, literal, &mut out);
        assert(Seq::<char>::empty() + rendered(arena@.of(*self), *literal) =~= rendered(
            arena@.of(*self),
            *literal,
        ));
        out
    }
}

} // verus!

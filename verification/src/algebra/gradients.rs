//! The table of gradients by variable name.

use vstd::prelude::*;
use crate::algebra::arena::Expr;

verus! {

/// What a list of names and a list of handles associate: each name with the handle at its
/// position, a later position overriding an earlier one.
pub open spec fn associated(names: Seq<String>, expressions: Seq<Expr>) -> Map<Seq<char>, Expr>
    decreases names.len(),
{
    if names.len() == 0 || expressions.len() != names.len() {
        Map::empty()
    } else {
        associated(names.drop_last(), expressions.drop_last()).insert(
            names.last()@,
            expressions.last(),
        )
    }
}

/// No name occurs at two positions.
pub open spec fn distinct(names: Seq<String>) -> bool {
    forall|i: int, j: int|
        0 <= i < names.len() && 0 <= j < names.len() && i != j ==> (#[trigger] names[i])@
            != (#[trigger] names[j])@
}

proof fn lemma_associated(names: Seq<String>, expressions: Seq<Expr>)
    requires
        names.len() == expressions.len(),
        distinct(names),
    ensures
        forall|i: int|
            0 <= i < names.len() ==> associated(names, expressions).contains_key(
                (#[trigger] names[i])@,
            ) && associated(names, expressions)[names[i]@] == expressions[i],
        forall|n: Seq<char>| #[trigger]
            associated(names, expressions).contains_key(n) ==> exists|i: int|
                0 <= i < names.len() && (#[trigger] names[i])@ == n,
    decreases names.len(),
{
    if names.len() > 0 {
        let front = names.drop_last();
        let heads = expressions.drop_last();
        lemma_associated(front, heads);
        assert forall|i: int| 0 <= i < names.len() implies associated(
            names,
            expressions,
        ).contains_key((#[trigger] names[i])@) && associated(names, expressions)[names[i]@]
            == expressions[i] by {
            if i < names.len() - 1 {
                assert(front[i] == names[i]);
                assert(names[i]@ != names.last()@);
            }
        }
        assert forall|n: Seq<char>| #[trigger]
            associated(names, expressions).contains_key(n) implies exists|i: int|
            0 <= i < names.len() && (#[trigger] names[i])@ == n by {
            if n == names.last()@ {
                assert(names[names.len() - 1]@ == n);
            } else {
                assert(associated(front, heads).contains_key(n));
                let i = choose|i: int| 0 <= i < front.len() && (#[trigger] front[i])@ == n;
                assert(names[i]@ == n);
            }
        }
    }
}

proof fn lemma_associated_update(names: Seq<String>, expressions: Seq<Expr>, i: int, e: Expr)
    requires
        names.len() == expressions.len(),
        distinct(names),
        0 <= i < names.len(),
    ensures
        associated(names, expressions.update(i, e)) == associated(names, expressions).insert(
            names[i]@,
            e,
        ),
    decreases names.len(),
{
    let front = names.drop_last();
    let heads = expressions.drop_last();
    if i == names.len() - 1 {
        assert(expressions.update(i, e).drop_last() == heads);
        assert(associated(names, expressions.update(i, e)) =~= associated(
            names,
            expressions,
        ).insert(names[i]@, e));
    } else {
        lemma_associated_update(front, heads, i, e);
        assert(expressions.update(i, e).drop_last() == heads.update(i, e));
        assert(front[i] == names[i]);
        assert(names[i]@ != names.last()@);
        assert(associated(names, expressions.update(i, e)) =~= associated(
            names,
            expressions,
        ).insert(names[i]@, e));
    }
}

/// Gradient expressions by variable name.
pub struct Gradients {
    names: Vec<String>,
    expressions: Vec<Expr>,
}

impl View for Gradients {
    type V = Map<Seq<char>, Expr>;

    closed spec fn view(&self) -> Map<Seq<char>, Expr> {
        associated(self.names@, self.expressions@)
    }
}

impl Gradients {
    /// The invariant of the table: one handle for each name, and no name twice.
    pub closed spec fn wf(&self) -> bool {
        &&& self.names.len() == self.expressions.len()
        &&& distinct(self.names@)
    }

    /// The names in the table, in the order in which they were first inserted.
    pub closed spec fn names(&self) -> Seq<Seq<char>> {
        Seq::new(self.names.len() as nat, |i: int| self.names[i]@)
    }

    /// An empty table.
    pub fn new() -> (r: Gradients)
        ensures
            r.wf(),
            r@ == Map::<Seq<char>, Expr>::empty(),
    {
        Gradients { names: Vec::new(), expressions: Vec::new() }
    }

    /// The number of names in the table.
    pub fn len(&self) -> (r: usize)
        requires
            self.wf(),
        ensures
            r == self.names().len(),
    {
        self.names.len()
    }

    /// The name at position `i`.
    pub fn name(&self, i: usize) -> (r: &String)
        requires
            self.wf(),
            i < self.names().len(),
        ensures
            r@ == self.names()[i as int],
            self@.contains_key(r@),
    {
        proof {
            lemma_associated(self.names@, self.expressions@);
        }
        &self.names[i]
    }

    /// The gradient under `name`, if there is one.
    pub fn get(&self, name: &str) -> (r: Option<Expr>)
        requires
            self.wf(),
        ensures
            r is Some <==> self@.contains_key(name@),
            r matches Some(e) ==> self@[name@] == e,
    {
        proof {
            lemma_associated(self.names@, self.expressions@);
        }
        let wanted: String = name.to_owned();
        let n: usize = self.names.len();
        let mut i: usize = 0;
        while i < n
            invariant
                self.wf(),
                wanted@ == name@,
                n == self.names.len(),
                i <= n,
                forall|j: int| 0 <= j < i ==> (#[trigger] self.names[j])@ != name@,
                forall|j: int|
                    0 <= j < self.names.len() ==> self@.contains_key((#[trigger] self.names[j])@)
                        && self@[self.names[j]@] == self.expressions[j],
            decreases n - i,
        {
            if self.names[i].eq(&wanted) {
                return Some(self.expressions[i]);
            }
            i += 1;
        }
        proof {
            if self@.contains_key(name@) {
                let j = choose|j: int| 0 <= j < self.names.len() && (#[trigger] self.names[j])@
                    == name@;
                assert(false);
            }
        }
        None
    }

    /// Puts `e` under `name`, in place of what was there.
    pub fn insert(&mut self, name: String, e: Expr)
        requires
            old(self).wf(),
        ensures
            final(self).wf(),
            final(self)@ == old(self)@.insert(name@, e),
    {
        proof {
            lemma_associated(self.names@, self.expressions@);
        }
        let n: usize = self.names.len();
        let mut i: usize = 0;
        while i < n
            invariant
                *self == *old(self),
                self.wf(),
                n == self.names.len(),
                i <= n,
                forall|j: int| 0 <= j < i ==> (#[trigger] self.names[j])@ != name@,
            decreases n - i,
        {
            if self.names[i].eq(&name) {
                proof {
                    lemma_associated_update(self.names@, self.expressions@, i as int, e);
                }
                self.expressions.set(i, e);
                return ;
            }
            i += 1;
        }
        proof {
            let names = self.names@.push(name);
            let expressions = self.expressions@.push(e);
            assert(names.drop_last() == self.names@);
            assert(expressions.drop_last() == self.expressions@);
        }
        self.names.push(name);
        self.expressions.push(e);
    }
}

} // verus!

//! The evaluation graph: a cache over the terms of any number of expressions that holds
//! each term once, however many expressions share it, and computes each term at most once
//! in a pass.

use vstd::prelude::*;
use std::collections::HashMap;
use crate::algebra::arena::{ids, Arena, ArenaView, Expr};
use crate::algebra::kernel::{kernel_ok, value, valued, values};
use crate::algebra::operation::Operation;
use crate::algebra::tree::{lemma_node, Tree};
use crate::tensor::{Tensor, TensorView, ZERO};

verus! {

/// The cache entry of one term.
pub struct Node {
    expr: Expr,
    inputs: Vec<Tensor>,
    input_node_ids: Vec<usize>,
    output: Tensor,
    output_generation: usize,
}

/// A cache entry as mathematical values.
pub struct NodeView {
    /// The expression whose root term the entry caches.
    pub expr: Expr,
    /// The buffers that take the values of the inputs.
    pub inputs: Seq<TensorView>,
    /// The entries of the inputs, in the order of the inputs.
    pub input_node_ids: Seq<usize>,
    /// What the entry last computed.
    pub output: TensorView,
    /// The pass in which it did.
    pub output_generation: usize,
}

impl View for Node {
    type V = NodeView;

    closed spec fn view(&self) -> NodeView {
        NodeView {
            expr: self.expr,
            inputs: crate::tensor::views(self.inputs@),
            input_node_ids: self.input_node_ids@,
            output: self.output@,
            output_generation: self.output_generation,
        }
    }
}

/// Whether the term `e` occurs in the expression whose root term is `root`: it is the
/// root, or it occurs in one of the inputs of the root.
pub open spec fn occurs(a: ArenaView, root: int, e: int) -> bool
    decreases root,
{
    root == e || (0 <= root < a.terms.len() && exists|j: int|
        0 <= j < a.terms[root].inputs.len() && (#[trigger] a.terms[root].inputs[j]) < root
            && occurs(a, a.terms[root].inputs[j] as int, e))
}

/// Whether the entry `n` is as it is made: it never computed, and its output holds zeros of
/// the shape of its term.
pub open spec fn untouched(a: ArenaView, node: NodeView) -> bool {
    &&& node.output_generation == 0
    &&& node.output == TensorView::filled(a.terms[node.expr.id as int].shape, ZERO)
}

/// The evaluation graph.
pub struct Graph {
    nodes: Vec<Node>,
    expr_to_node_ids: HashMap<usize, usize>,
    generation: usize,
    top_level_node_ids: Vec<usize>,
}

/// An evaluation graph as mathematical values.
pub struct GraphView {
    pub nodes: Seq<NodeView>,
    pub expr_to_node_ids: Map<usize, usize>,
    pub generation: usize,
    pub top_level_node_ids: Seq<usize>,
}

impl View for Graph {
    type V = GraphView;

    closed spec fn view(&self) -> GraphView {
        GraphView {
            nodes: Seq::new(self.nodes.len() as nat, |n: int| self.nodes[n]@),
            expr_to_node_ids: self.expr_to_node_ids@,
            generation: self.generation,
            top_level_node_ids: self.top_level_node_ids@,
        }
    }
}

impl GraphView {
    /// The entry `n` caches a term of the arena: its inputs are cached by earlier entries,
    /// its buffers have the shapes of the inputs and of the term, and the index leads from
    /// the term to the entry.
    pub open spec fn node_wf(self, a: ArenaView, n: int) -> bool {
        let node = self.nodes[n];
        let term = a.terms[node.expr.id as int];
        &&& a.contains(node.expr)
        &&& node.input_node_ids.len() == term.inputs.len()
        &&& node.inputs.len() == term.inputs.len()
        &&& forall|j: int|
            0 <= j < term.inputs.len() ==> {
                &&& (#[trigger] node.input_node_ids[j]) < n
                &&& self.nodes[node.input_node_ids[j] as int].expr.id == term.inputs[j]
            }
        &&& forall|j: int|
            0 <= j < term.inputs.len() ==> {
                &&& (#[trigger] node.inputs[j]).wf()
                &&& node.inputs[j].shape == a.terms[term.inputs[j] as int].shape
            }
        &&& node.output.wf()
        &&& node.output.shape == term.shape
        &&& node.output_generation <= self.generation
        &&& self.expr_to_node_ids.contains_key(node.expr.id)
        &&& self.expr_to_node_ids[node.expr.id] == n
    }

    /// The invariant of an evaluation graph over the terms of an arena.
    pub open spec fn wf(self, a: ArenaView) -> bool {
        &&& forall|n: int| 0 <= n < self.nodes.len() ==> self.node_wf(a, n)
        &&& forall|id: usize| #[trigger]
            self.expr_to_node_ids.contains_key(id) ==> self.expr_to_node_ids[id]
                < self.nodes.len() && self.nodes[self.expr_to_node_ids[id] as int].expr.id == id
        &&& forall|i: int|
            0 <= i < self.top_level_node_ids.len() ==> (#[trigger] self.top_level_node_ids[i])
                < self.nodes.len()
    }

    /// Whether `self` came from `before` by registering expressions: the entries of
    /// `before` are where they were, the index has what it had, and no pass was made.
    pub open spec fn registered_after(self, before: GraphView) -> bool {
        &&& before.nodes.len() <= self.nodes.len()
        &&& forall|n: int| 0 <= n < before.nodes.len() ==> self.nodes[n] == before.nodes[n]
        &&& forall|id: usize| #[trigger]
            before.expr_to_node_ids.contains_key(id) ==> self.expr_to_node_ids.contains_key(id)
                && self.expr_to_node_ids[id] == before.expr_to_node_ids[id]
        &&& self.generation == before.generation
    }

    /// Whether the expression `e` has an entry.
    pub open spec fn has(self, e: Expr) -> bool {
        self.expr_to_node_ids.contains_key(e.id)
    }
}

/// Each expression has one entry: two entries cache the same expression only if they are
/// the same entry. Expressions that are built apart have entries apart, whatever they
/// compute.
pub proof fn lemma_one_entry_each(g: GraphView, a: ArenaView, n: int, m: int)
    requires
        g.wf(a),
        0 <= n < g.nodes.len(),
        0 <= m < g.nodes.len(),
    ensures
        g.nodes[n].expr == g.nodes[m].expr <==> n == m,
{
    assert(g.node_wf(a, n));
    assert(g.node_wf(a, m));
}

/// Appending terms to the arena, or changing what its cells hold, leaves an evaluation
/// graph over it well formed.
pub proof fn lemma_wf_extends(g: GraphView, before: ArenaView, after: ArenaView)
    requires
        g.wf(before),
        before.terms.len() <= after.terms.len(),
        forall|i: int| 0 <= i < before.terms.len() ==> after.terms[i] == before.terms[i],
    ensures
        g.wf(after),
{
    assert forall|n: int| 0 <= n < g.nodes.len() implies g.node_wf(after, n) by {
        assert(g.node_wf(before, n));
        let node = g.nodes[n];
        let term = before.terms[node.expr.id as int];
        assert forall|j: int| 0 <= j < term.inputs.len() implies {
            &&& (#[trigger] node.inputs[j]).wf()
            &&& node.inputs[j].shape == after.terms[term.inputs[j] as int].shape
        } by {
            assert(node.input_node_ids[j] < n);
            assert(g.node_wf(before, node.input_node_ids[j] as int));
        }
    }
}

impl Graph {
    /// A graph without entries.
    pub fn new() -> (r: Graph)
        ensures
            r@.nodes.len() == 0,
            r@.generation == 0,
            r@.top_level_node_ids.len() == 0,
            r@.expr_to_node_ids == Map::<usize, usize>::empty(),
            forall|a: ArenaView| r@.wf(a),
    {
        Graph {
            nodes: Vec::new(),
            expr_to_node_ids: HashMap::new(),
            generation: 0,
            top_level_node_ids: Vec::new(),
        }
    }

    /// The number of entries.
    pub fn len(&self) -> (r: usize)
        ensures
            r == self@.nodes.len(),
    {
        self.nodes.len()
    }

    /// The number of passes made.
    pub fn generation(&self) -> (r: usize)
        ensures
            r == self@.generation,
    {
        self.generation
    }

    /// The expression that the entry `id` caches.
    pub fn node_expr(&self, id: usize) -> (r: Expr)
        requires
            id < self@.nodes.len(),
        ensures
            r == self@.nodes[id as int].expr,
    {
        self.nodes[id].expr
    }

    /// The pass in which the entry `id` last computed its output.
    pub fn node_generation(&self, id: usize) -> (r: usize)
        requires
            id < self@.nodes.len(),
        ensures
            r == self@.nodes[id as int].output_generation,
    {
        self.nodes[id].output_generation
    }

    /// What the entry `id` last computed: zeros if it never did.
    pub fn node_output(&self, id: usize) -> (r: &Tensor)
        requires
            id < self@.nodes.len(),
        ensures
            r@ == self@.nodes[id as int].output,
    {
        &self.nodes[id].output
    }

    /// The entries that were registered as roots, in the order of their registration.
    pub fn top_level(&self) -> (r: &Vec<usize>)
        ensures
            r@ == self@.top_level_node_ids,
    {
        &self.top_level_node_ids
    }

    /// Registers the expression `expr` as a root and returns its entry. An expression that
    /// has an entry keeps it and nothing changes. Otherwise the inputs of its root term
    /// are registered first (not as roots), and a new entry is appended for the root term.
    pub fn add(&mut self, arena: &Arena, expr: Expr) -> (id: usize)
        requires
            arena@.wf(),
            old(self)@.wf(arena@),
            arena@.contains(expr),
        ensures
            final(self)@.wf(arena@),
            final(self)@.registered_after(old(self)@),
            id < final(self)@.nodes.len(),
            final(self)@.nodes[id as int].expr == expr,
            final(self)@.has(expr),
            final(self)@.expr_to_node_ids[expr.id] == id,
            old(self)@.has(expr) ==> final(self)@ == old(self)@,
            !old(self)@.has(expr) ==> id == final(self)@.nodes.len() - 1
                && final(self)@.top_level_node_ids == old(self)@.top_level_node_ids.push(id),
            forall|n: int|
                old(self)@.nodes.len() <= n < final(self)@.nodes.len() ==> occurs(
                    arena@,
                    expr.id as int,
                    (#[trigger] final(self)@.nodes[n]).expr.id as int,
                ) && untouched(arena@, final(self)@.nodes[n]),
    {
        self.add_impl(arena, expr, true)
    }

    fn add_impl(&mut self, arena: &Arena, expr: Expr, top: bool) -> (id: usize)
        requires
            arena@.wf(),
            old(self)@.wf(arena@),
            arena@.contains(expr),
        ensures
            final(self)@.wf(arena@),
            final(self)@.registered_after(old(self)@),
            id < final(self)@.nodes.len(),
            final(self)@.nodes[id as int].expr == expr,
            final(self)@.has(expr),
            final(self)@.expr_to_node_ids[expr.id] == id,
            old(self)@.has(expr) ==> final(self)@ == old(self)@,
            !old(self)@.has(expr) ==> id == final(self)@.nodes.len() - 1,
            final(self)@.top_level_node_ids == if !old(self)@.has(expr) && top {
                old(self)@.top_level_node_ids.push(id)
            } else {
                old(self)@.top_level_node_ids
            },
            forall|k: usize| #[trigger]
                final(self)@.expr_to_node_ids.contains_key(k) ==> old(
                    self,
                )@.expr_to_node_ids.contains_key(k) || k <= expr.id,
            forall|n: int|
                old(self)@.nodes.len() <= n < final(self)@.nodes.len() ==> occurs(
                    arena@,
                    expr.id as int,
                    (#[trigger] final(self)@.nodes[n]).expr.id as int,
                ) && untouched(arena@, final(self)@.nodes[n]),
        decreases expr.id,
    {
        let ghost before = self@;
        let found: Option<usize> = match self.expr_to_node_ids.get(&expr.id) {
            Some(id) => Some(*id),
            None => None,
        };
        match found {
            Some(id) => {
                proof {
                    assert(before.expr_to_node_ids.contains_key(expr.id));
                    assert(before.node_wf(arena@, id as int));
                }
                id
            },
            None => {
                proof {
                    assert(arena@.term_wf(expr.id as int));
                }
                let inputs = arena.inputs(expr);
                let n: usize = inputs.len();
                let mut input_node_ids: Vec<usize> = Vec::new();
                let mut buffers: Vec<Tensor> = Vec::new();
                let mut j: usize = 0;
                while j < n
                    invariant
                        arena@.wf(),
                        arena@.contains(expr),
                        arena@.term_wf(expr.id as int),
                        self@.wf(arena@),
                        self@.registered_after(before),
                        self@.top_level_node_ids == before.top_level_node_ids,
                        !before.expr_to_node_ids.contains_key(expr.id),
                        forall|k: usize| #[trigger]
                            self@.expr_to_node_ids.contains_key(k)
                                ==> before.expr_to_node_ids.contains_key(k) || k < expr.id,
                        n == inputs.len(),
                        ids(inputs@) == arena@.terms[expr.id as int].inputs,
                        j <= n,
                        forall|m: int|
                            before.nodes.len() <= m < self@.nodes.len() ==> occurs(
                                arena@,
                                expr.id as int,
                                (#[trigger] self@.nodes[m]).expr.id as int,
                            ) && untouched(arena@, self@.nodes[m]),
                        input_node_ids.len() == j,
                        buffers.len() == j,
                        forall|p: int|
                            0 <= p < j ==> {
                                &&& (#[trigger] input_node_ids[p]) < self@.nodes.len()
                                &&& self@.nodes[input_node_ids[p] as int].expr == inputs[p]
                            },
                        forall|p: int|
                            0 <= p < j ==> {
                                &&& (#[trigger] buffers[p])@.wf()
                                &&& buffers[p]@.shape == arena@.terms[inputs[p].id as int].shape
                            },
                    decreases n - j,
                {
                    let input: Expr = inputs[j];
                    proof {
                        assert(ids(inputs@)[j as int] == input.id);
                        assert(arena@.term_wf(input.id as int));
                    }
                    let ghost middle = self@;
                    let input_id: usize = self.add_impl(arena, input, false);
                    proof {
                        assert forall|m: int|
                            before.nodes.len() <= m < self@.nodes.len() implies occurs(
                            arena@,
                            expr.id as int,
                            (#[trigger] self@.nodes[m]).expr.id as int,
                        ) && untouched(arena@, self@.nodes[m]) by {
                            if m < middle.nodes.len() {
                                assert(self@.nodes[m] == middle.nodes[m]);
                            } else {
                                assert(arena@.terms[expr.id as int].inputs[j as int] == input.id);
                                assert(occurs(arena@, input.id as int, self@.nodes[m].expr.id as int));
                            }
                        }
                    }
                    input_node_ids.push(input_id);
                    buffers.push(Tensor::zeros(arena.shape(input).clone()));
                    j += 1;
                }
                let id: usize = self.nodes.len();
                let ghost middle = self@;
                proof {
                    assert(arena@.term_wf(expr.id as int));
                }
                let output = Tensor::zeros(arena.shape(expr).clone());
                self.expr_to_node_ids.insert(expr.id, id);
                let node = Node {
                    expr,
                    inputs: buffers,
                    input_node_ids,
                    output,
                    output_generation: 0,
                };
                self.nodes.push(node);
                if top {
                    self.top_level_node_ids.push(id);
                }
                proof {
                    let after = self@;
                    let term = arena@.terms[expr.id as int];
                    assert(after.expr_to_node_ids == middle.expr_to_node_ids.insert(expr.id, id));
                    assert forall|k: usize| #[trigger]
                        after.expr_to_node_ids.contains_key(k) implies before.expr_to_node_ids.contains_key(
                        k,
                    ) || k <= expr.id by {
                        if k != expr.id {
                            assert(middle.expr_to_node_ids.contains_key(k));
                        }
                    }
                    assert forall|m: int|
                        before.nodes.len() <= m < after.nodes.len() implies occurs(
                        arena@,
                        expr.id as int,
                        (#[trigger] after.nodes[m]).expr.id as int,
                    ) && untouched(arena@, after.nodes[m]) by {
                        if m < id {
                            assert(after.nodes[m] == middle.nodes[m]);
                        } else {
                            assert(after.nodes[m].expr == expr);
                            assert(after.nodes[m].output == output@);
                        }
                    }
                    assert forall|m: int| 0 <= m < after.nodes.len() implies after.node_wf(
                        arena@,
                        m,
                    ) by {
                        if m < id {
                            assert(middle.node_wf(arena@, m));
                            assert(after.nodes[m] == middle.nodes[m]);
                        } else {
                            assert forall|p: int| 0 <= p < term.inputs.len() implies {
                                &&& (#[trigger] after.nodes[m].input_node_ids[p]) < m
                                &&& after.nodes[after.nodes[m].input_node_ids[p] as int].expr.id
                                    == term.inputs[p]
                            } by {
                                assert(ids(inputs@)[p] == inputs[p].id);
                            }
                            assert forall|p: int| 0 <= p < term.inputs.len() implies {
                                &&& (#[trigger] after.nodes[m].inputs[p]).wf()
                                &&& after.nodes[m].inputs[p].shape
                                    == arena@.terms[term.inputs[p] as int].shape
                            } by {
                                assert(ids(inputs@)[p] == inputs[p].id);
                                assert(after.nodes[m].inputs[p] == buffers[p]@);
                            }
                        }
                    }
                    assert forall|k: usize| #[trigger]
                        after.expr_to_node_ids.contains_key(k) implies after.expr_to_node_ids[k]
                        < after.nodes.len() && after.nodes[after.expr_to_node_ids[k] as int].expr.id
                        == k by {
                        if k != expr.id {
                            assert(middle.expr_to_node_ids.contains_key(k));
                        }
                    }
                }
                id
            },
        }
    }
}

impl GraphView {
    /// Whether the entry `n` computed its output in the current pass.
    pub open spec fn fresh(self, n: int) -> bool {
        self.nodes[n].output_generation == self.generation
    }

    /// Whether `self` has the entries of `before`: each caches the same expression and has
    /// the same input entries, and the index and the roots are the same.
    pub open spec fn same_entries(self, before: GraphView) -> bool {
        &&& self.nodes.len() == before.nodes.len()
        &&& forall|n: int|
            0 <= n < self.nodes.len() ==> (#[trigger] self.nodes[n]).expr == before.nodes[n].expr
                && self.nodes[n].input_node_ids == before.nodes[n].input_node_ids
        &&& self.expr_to_node_ids == before.expr_to_node_ids
        &&& self.top_level_node_ids == before.top_level_node_ids
    }

    /// The input entries of `id` with index below `upto` that have not computed their
    /// output in the current pass, in the order of the inputs.
    pub open spec fn stale_inputs(self, id: int, upto: int) -> Seq<usize>
        decreases upto,
    {
        if upto <= 0 || upto > self.nodes[id].input_node_ids.len() {
            Seq::empty()
        } else {
            let rest = self.stale_inputs(id, upto - 1);
            let input = self.nodes[id].input_node_ids[upto - 1];
            if self.fresh(input as int) {
                rest
            } else {
                rest.push(input)
            }
        }
    }

    /// Whether the entry `n` is needed for the entry `root`: it is `root`, or it is needed
    /// for one of the input entries of `root`.
    pub open spec fn needs(self, root: int, n: int) -> bool
        decreases root,
    {
        root == n || (0 <= root < self.nodes.len() && exists|j: int|
            0 <= j < self.nodes[root].input_node_ids.len() && (
            #[trigger] self.nodes[root].input_node_ids[j]) < root && self.needs(
                self.nodes[root].input_node_ids[j] as int,
                n,
            ))
    }

    /// Whether the entry `n` is needed for one of the entries `wanted`.
    pub open spec fn asked(self, wanted: Seq<usize>, n: usize) -> bool {
        exists|i: int| 0 <= i < wanted.len() && self.needs(#[trigger] wanted[i] as int, n as int)
    }

    /// Whether each entry on the list is needed for one of the entries `wanted`.
    pub open spec fn all_asked(self, wanted: Seq<usize>, list: Seq<usize>) -> bool {
        forall|p: int| 0 <= p < list.len() ==> self.asked(wanted, #[trigger] list[p])
    }

    /// Whether the output of the entry `n` is the value of the expression that it caches.
    pub open spec fn cached<K: Fn(&Operation, &Vec<Tensor>) -> Tensor>(
        self,
        a: ArenaView,
        k: K,
        n: int,
    ) -> bool {
        &&& self.nodes[n].output == value(a.of(self.nodes[n].expr), a.cells, k)
        &&& valued(a.of(self.nodes[n].expr), a.cells, k)
    }

    /// Whether every input entry of each entry on the list stands before it on the list.
    pub open spec fn in_order(self, computed: Seq<usize>) -> bool {
        forall|p: int, j: int|
            0 <= p < computed.len() && 0 <= j < self.nodes[computed[p] as int].input_node_ids.len()
                ==> earlier(
                computed,
                p,
                #[trigger] self.nodes[computed[p] as int].input_node_ids[j],
            )
    }

    /// Whether each entry on the list that waits for its inputs has each of them either
    /// computed in the current pass or further up on the list.
    pub open spec fn awaited(self, stack: Seq<usize>, waiting: Seq<bool>) -> bool {
        forall|p: int, j: int|
            0 <= p < stack.len() && waiting[p] && 0 <= j < self.nodes[stack[p] as int].input_node_ids.len()
                ==> self.fresh(self.nodes[stack[p] as int].input_node_ids[j] as int) || later(
                stack,
                p,
                #[trigger] self.nodes[stack[p] as int].input_node_ids[j],
            )
    }

    /// Whether the list holds the entries that computed their output in the current pass,
    /// and no others.
    pub open spec fn lists_fresh(self, computed: Seq<usize>) -> bool {
        forall|x: usize| #[trigger]
            computed.contains(x) <==> (x < self.nodes.len() && self.fresh(x as int))
    }

    /// The number of nodes of the expression that the entry `n` caches.
    pub open spec fn cost(self, a: ArenaView, n: usize) -> nat {
        a.of(self.nodes[n as int].expr).count()
    }

    /// The cost of the entries on a list.
    pub open spec fn sum_cost(self, a: ArenaView, entries: Seq<usize>) -> nat
        decreases entries.len(),
    {
        if entries.len() == 0 {
            0
        } else {
            self.sum_cost(a, entries.drop_last()) + self.cost(a, entries.last())
        }
    }

    /// The cost of the entries on the list that do not wait for their inputs yet.
    pub open spec fn potential(self, a: ArenaView, stack: Seq<usize>, waiting: Seq<bool>) -> nat
        decreases stack.len(),
    {
        if stack.len() == 0 || waiting.len() != stack.len() {
            0
        } else {
            self.potential(a, stack.drop_last(), waiting.drop_last()) + if waiting.last() {
                0nat
            } else {
                self.cost(a, stack.last())
            }
        }
    }
}

/// Whether `x` stands on the list before position `p`.
pub open spec fn earlier(list: Seq<usize>, p: int, x: usize) -> bool {
    exists|q: int| 0 <= q < p && q < list.len() && #[trigger] list[q] == x
}

/// Whether `x` stands on the list after position `p`.
pub open spec fn later(list: Seq<usize>, p: int, x: usize) -> bool {
    exists|q: int| p < q < list.len() && #[trigger] list[q] == x
}

/// The potential of a list that was extended by entries that do not wait.
proof fn lemma_potential_extended(
    g: GraphView,
    a: ArenaView,
    stack: Seq<usize>,
    waiting: Seq<bool>,
    extra: Seq<usize>,
)
    requires
        stack.len() == waiting.len(),
    ensures
        g.potential(a, stack + extra, waiting + Seq::new(extra.len(), |i: int| false))
            == g.potential(a, stack, waiting) + g.sum_cost(a, extra),
    decreases extra.len(),
{
    let flags = Seq::new(extra.len(), |i: int| false);
    if extra.len() == 0 {
        assert(stack + extra =~= stack);
        assert(waiting + flags =~= waiting);
    } else {
        let fewer = extra.drop_last();
        assert((stack + extra).drop_last() =~= stack + fewer);
        assert((waiting + flags).drop_last() =~= waiting + Seq::new(fewer.len(), |i: int| false));
        lemma_potential_extended(g, a, stack, waiting, fewer);
    }
}

/// The stale inputs of an entry cost less than the entry, and each input of the entry is
/// computed in the current pass or among them.
proof fn lemma_stale_inputs(g: GraphView, a: ArenaView, id: int, upto: int)
    requires
        a.wf(),
        g.wf(a),
        0 <= id < g.nodes.len(),
        0 <= upto <= g.nodes[id].input_node_ids.len(),
    ensures
        g.sum_cost(a, g.stale_inputs(id, upto)) <= Tree::count_all(
            a.of(g.nodes[id].expr).inputs.take(upto),
        ),
        forall|j: int|
            0 <= j < upto ==> g.fresh(g.nodes[id].input_node_ids[j] as int) || g.stale_inputs(
                id,
                upto,
            ).contains(#[trigger] g.nodes[id].input_node_ids[j]),
        forall|q: int|
            0 <= q < g.stale_inputs(id, upto).len() ==> #[trigger] g.stale_inputs(id, upto)[q]
                < id,
    decreases upto,
{
    let node = g.nodes[id];
    let t = a.of(node.expr);
    assert(g.node_wf(a, id));
    lemma_node(a, node.expr);
    if upto > 0 {
        lemma_stale_inputs(g, a, id, upto - 1);
        let input = node.input_node_ids[upto - 1];
        let below = g.stale_inputs(id, upto - 1);
        assert(t.inputs.take(upto).drop_last() =~= t.inputs.take(upto - 1));
        assert(t.inputs.take(upto).last() == t.inputs[upto - 1]);
        assert(g.nodes[input as int].expr.id == a.terms[node.expr.id as int].inputs[upto - 1]);
        assert(a.of(g.nodes[input as int].expr) == t.inputs[upto - 1]);
        if !g.fresh(input as int) {
            assert(below.push(input).drop_last() =~= below);
            assert(below.push(input)[below.len() as int] == input);
        }
        assert forall|j: int| 0 <= j < upto implies g.fresh(node.input_node_ids[j] as int)
            || g.stale_inputs(id, upto).contains(#[trigger] node.input_node_ids[j]) by {
            if j < upto - 1 {
                if !g.fresh(node.input_node_ids[j] as int) {
                    let q = choose|q: int|
                        0 <= q < below.len() && below[q] == node.input_node_ids[j];
                    assert(g.stale_inputs(id, upto)[q] == node.input_node_ids[j]);
                }
            }
        }
    }
}

/// The cost of all inputs of an entry is less than the cost of the entry.
proof fn lemma_inputs_cost_less(g: GraphView, a: ArenaView, id: int)
    requires
        a.wf(),
        g.wf(a),
        0 <= id < g.nodes.len(),
    ensures
        Tree::count_all(
            a.of(g.nodes[id].expr).inputs.take(g.nodes[id].input_node_ids.len() as int),
        ) < g.cost(a, id as usize),
{
    let node = g.nodes[id];
    let t = a.of(node.expr);
    assert(g.node_wf(a, id));
    lemma_node(a, node.expr);
    assert(t.inputs.take(t.inputs.len() as int) =~= t.inputs);
}

/// What is needed for an entry needs the inputs of the entry too.
proof fn lemma_needs_input(g: GraphView, root: int, id: int, j: int)
    requires
        g.needs(root, id),
        0 <= id < g.nodes.len(),
        0 <= j < g.nodes[id].input_node_ids.len(),
        g.nodes[id].input_node_ids[j] < id,
    ensures
        g.needs(root, g.nodes[id].input_node_ids[j] as int),
    decreases root,
{
    let x = g.nodes[id].input_node_ids[j];
    if root == id {
        assert(g.needs(x as int, x as int));
    } else {
        let p = choose|p: int|
            0 <= p < g.nodes[root].input_node_ids.len() && (
            #[trigger] g.nodes[root].input_node_ids[p]) < root && g.needs(
                g.nodes[root].input_node_ids[p] as int,
                id,
            );
        lemma_needs_input(g, g.nodes[root].input_node_ids[p] as int, id, j);
    }
}

/// The stale inputs of an entry that is needed for one of the entries `wanted` are needed
/// for it too.
proof fn lemma_stale_asked(
    g: GraphView,
    before: GraphView,
    a: ArenaView,
    wanted: Seq<usize>,
    id: int,
    upto: int,
)
    requires
        g.wf(a),
        g.same_entries(before),
        0 <= id < g.nodes.len(),
        0 <= upto <= g.nodes[id].input_node_ids.len(),
        before.asked(wanted, id as usize),
    ensures
        before.all_asked(wanted, g.stale_inputs(id, upto)),
    decreases upto,
{
    if upto > 0 {
        lemma_stale_asked(g, before, a, wanted, id, upto - 1);
        let input = g.nodes[id].input_node_ids[upto - 1];
        let rest = g.stale_inputs(id, upto - 1);
        assert(g.node_wf(a, id));
        let i = choose|i: int|
            0 <= i < wanted.len() && before.needs(#[trigger] wanted[i] as int, id);
        assert(before.nodes[id].input_node_ids == g.nodes[id].input_node_ids);
        lemma_needs_input(before, wanted[i] as int, id, upto - 1);
        assert(before.asked(wanted, input));
        if !g.fresh(input as int) {
            assert forall|p: int| 0 <= p < rest.push(input).len() implies before.asked(
                wanted,
                #[trigger] rest.push(input)[p],
            ) by {
                if p < rest.len() {
                    assert(rest.push(input)[p] == rest[p]);
                }
            }
        }
    }
}

impl Graph {
    /// Puts on the list `ids` each input entry of `id` that has not computed its output in
    /// the current pass, and says whether there was none.
    fn push_stale_inputs(&self, id: usize, ids: &mut Vec<usize>) -> (is_ready: bool)
        requires
            id < self@.nodes.len(),
            forall|j: int|
                0 <= j < self@.nodes[id as int].input_node_ids.len()
                    ==> #[trigger] self@.nodes[id as int].input_node_ids[j] < self@.nodes.len(),
        ensures
            final(ids)@ == old(ids)@ + self@.stale_inputs(
                id as int,
                self@.nodes[id as int].input_node_ids.len() as int,
            ),
            is_ready <==> self@.stale_inputs(
                id as int,
                self@.nodes[id as int].input_node_ids.len() as int,
            ).len() == 0,
            is_ready <==> forall|j: int|
                0 <= j < self@.nodes[id as int].input_node_ids.len() ==> self@.fresh(
                    #[trigger] self@.nodes[id as int].input_node_ids[j] as int,
                ),
    {
        let n: usize = self.nodes[id].input_node_ids.len();
        let mut is_ready: bool = true;
        let mut j: usize = 0;
        proof {
            assert(old(ids)@ + self@.stale_inputs(id as int, 0) =~= old(ids)@);
        }
        while j < n
            invariant
                id < self@.nodes.len(),
                n == self@.nodes[id as int].input_node_ids.len(),
                forall|p: int|
                    0 <= p < n ==> #[trigger] self@.nodes[id as int].input_node_ids[p]
                        < self@.nodes.len(),
                j <= n,
                ids@ == old(ids)@ + self@.stale_inputs(id as int, j as int),
                is_ready <==> self@.stale_inputs(id as int, j as int).len() == 0,
                is_ready <==> forall|p: int|
                    0 <= p < j ==> self@.fresh(
                        #[trigger] self@.nodes[id as int].input_node_ids[p] as int,
                    ),
            decreases n - j,
        {
            let input: usize = self.nodes[id].input_node_ids[j];
            assert(input == self@.nodes[id as int].input_node_ids[j as int]);
            if self.nodes[input].output_generation != self.generation {
                is_ready = false;
                proof {
                    assert(old(ids)@ + self@.stale_inputs(id as int, j + 1) =~= ids@.push(input));
                    assert(!self@.fresh(self@.nodes[id as int].input_node_ids[j as int] as int));
                }
                ids.push(input);
            }
            j += 1;
        }
        is_ready
    }

    /// Computes the output of the entry `id`, all of whose input entries hold the values
    /// of their expressions: their outputs are copied into the buffers of the entry, the
    /// value of the term is computed from the buffers, and the entry is marked as computed
    /// in the current pass. `tmp` is empty before and after.
    fn compute<K: Fn(&Operation, &Vec<Tensor>) -> Tensor>(
        &mut self,
        arena: &Arena,
        id: usize,
        tmp: &mut Vec<Tensor>,
        kernel: &K,
    )
        requires
            arena@.wf(),
            kernel_ok(*kernel),
            old(self)@.wf(arena@),
            id < old(self)@.nodes.len(),
            old(tmp).len() == 0,
            forall|j: int|
                0 <= j < old(self)@.nodes[id as int].input_node_ids.len() ==> old(self)@.cached(
                    arena@,
                    *kernel,
                    #[trigger] old(self)@.nodes[id as int].input_node_ids[j] as int,
                ),
        ensures
            final(self)@.wf(arena@),
            final(self)@.same_entries(old(self)@),
            final(self)@.generation == old(self)@.generation,
            final(tmp).len() == 0,
            final(self)@.fresh(id as int),
            final(self)@.cached(arena@, *kernel, id as int),
            forall|m: int|
                0 <= m < old(self)@.nodes.len() && m != id ==> final(self)@.nodes[m] == old(
                    self,
                )@.nodes[m],
    {
        let ghost before = self@;
        let ghost a = arena@;
        let ghost node = before.nodes[id as int];
        let ghost term = a.terms[node.expr.id as int];
        let ghost t = a.of(node.expr);
        proof {
            assert(before.node_wf(a, id as int));
            lemma_node(a, node.expr);
        }
        std::mem::swap(&mut self.nodes[id].inputs, tmp);
        let n: usize = self.nodes[id].input_node_ids.len();
        let mut i: usize = 0;
        proof {
            assert(tmp.len() == n);
            assert forall|j: int| 0 <= j < n implies (#[trigger] tmp[j])@.wf() && tmp[j]@.shape
                == a.terms[term.inputs[j] as int].shape by {
                assert(node.inputs[j] == tmp[j]@);
            }
        }
        while i < n
            invariant
                a == arena@,
                a.wf(),
                before.wf(a),
                id < before.nodes.len(),
                node == before.nodes[id as int],
                term == a.terms[node.expr.id as int],
                before.node_wf(a, id as int),
                self.nodes.len() == before.nodes.len(),
                self.generation == before.generation,
                self.expr_to_node_ids@ == before.expr_to_node_ids,
                self.top_level_node_ids@ == before.top_level_node_ids,
                forall|m: int|
                    0 <= m < before.nodes.len() && m != id ==> (#[trigger] self.nodes[m])@
                        == before.nodes[m],
                self.nodes[id as int].expr == node.expr,
                self.nodes[id as int].input_node_ids@ == node.input_node_ids,
                self.nodes[id as int].output@ == node.output,
                self.nodes[id as int].output_generation == node.output_generation,
                self.nodes[id as int].inputs.len() == 0,
                n == node.input_node_ids.len(),
                tmp.len() == n,
                i <= n,
                forall|j: int|
                    0 <= j < n ==> (#[trigger] tmp[j])@.wf() && tmp[j]@.shape
                        == a.terms[term.inputs[j] as int].shape,
                forall|j: int|
                    0 <= j < i ==> (#[trigger] tmp[j])@ == before.nodes[node.input_node_ids[j] as int].output,
            decreases n - i,
        {
            let input: usize = self.nodes[id].input_node_ids[i];
            proof {
                assert(input == node.input_node_ids[i as int]);
                assert(input < id);
                assert(before.node_wf(a, input as int));
                assert(self.nodes[input as int]@ == before.nodes[input as int]);
            }
            tmp[i].assign(&self.nodes[input].output);
            i += 1;
        }
        proof {
            assert(crate::tensor::shapes(crate::tensor::views(tmp@)) =~= a.input_shapes(
                term.inputs,
            ));
        }
        let expr: Expr = self.nodes[id].expr;
        let output = expr.eval_inputs(arena, tmp, kernel);
        proof {
            // the buffers hold the values of the inputs, so the output is the value of the term
            let ins = crate::tensor::views(tmp@);
            assert(ins =~= values(t.inputs, a.cells, *kernel)) by {
                assert forall|j: int| 0 <= j < n implies ins[j] == value(
                    t.inputs[j],
                    a.cells,
                    *kernel,
                ) by {
                    let input = node.input_node_ids[j];
                    assert(before.cached(a, *kernel, input as int));
                    assert(before.nodes[input as int].expr.id == term.inputs[j]);
                    assert(a.of(before.nodes[input as int].expr) == t.inputs[j]);
                }
            }
            assert(output@ == value(t, a.cells, *kernel));
            assert(valued(t, a.cells, *kernel)) by {
                assert forall|j: int| 0 <= j < t.inputs.len() implies valued(
                    #[trigger] t.inputs[j],
                    a.cells,
                    *kernel,
                ) by {
                    let input = node.input_node_ids[j];
                    assert(before.cached(a, *kernel, input as int));
                    assert(before.nodes[input as int].expr.id == term.inputs[j]);
                    assert(a.of(before.nodes[input as int].expr) == t.inputs[j]);
                }
            }
        }
        self.nodes[id].output = output;
        self.nodes[id].output_generation = self.generation;
        std::mem::swap(&mut self.nodes[id].inputs, tmp);
        proof {
            let after = self@;
            assert(after.expr_to_node_ids == before.expr_to_node_ids);
            assert forall|m: int| 0 <= m < after.nodes.len() implies after.node_wf(a, m) by {
                assert(before.node_wf(a, m));
                if m != id {
                    assert(after.nodes[m] == before.nodes[m]);
                    assert forall|j: int|
                        0 <= j < a.terms[after.nodes[m].expr.id as int].inputs.len() implies {
                        &&& (#[trigger] after.nodes[m].input_node_ids[j]) < m
                        &&& after.nodes[after.nodes[m].input_node_ids[j] as int].expr.id
                            == a.terms[after.nodes[m].expr.id as int].inputs[j]
                    } by {
                        let c = before.nodes[m].input_node_ids[j];
                        assert(c < m);
                        assert(after.nodes[c as int].expr == before.nodes[c as int].expr);
                    }
                } else {
                    assert forall|j: int| 0 <= j < term.inputs.len() implies {
                        &&& (#[trigger] after.nodes[m].input_node_ids[j]) < m
                        &&& after.nodes[after.nodes[m].input_node_ids[j] as int].expr.id
                            == term.inputs[j]
                    } by {
                        let c = before.nodes[m].input_node_ids[j];
                        assert(c < m);
                        assert(after.nodes[c as int] == before.nodes[c as int]);
                    }
                }
            }
            assert forall|k: usize| #[trigger]
                after.expr_to_node_ids.contains_key(k) implies after.expr_to_node_ids[k]
                < after.nodes.len() && after.nodes[after.expr_to_node_ids[k] as int].expr.id
                == k by {
                assert(before.expr_to_node_ids.contains_key(k));
                let m = before.expr_to_node_ids[k];
                assert(after.nodes[m as int].expr == before.nodes[m as int].expr);
            }
        }
    }
}

impl Graph {
    /// Makes a pass over the roots: see `eval_nodes`.
    pub fn eval<K: Fn(&Operation, &Vec<Tensor>) -> Tensor>(
        &mut self,
        arena: &Arena,
        kernel: &K,
    ) -> (computed: Vec<usize>)
        requires
            arena@.wf(),
            kernel_ok(*kernel),
            old(self)@.wf(arena@),
            old(self)@.generation < usize::MAX,
        ensures
            final(self)@.wf(arena@),
            final(self)@.same_entries(old(self)@),
            final(self)@.generation == old(self)@.generation + 1,
            computed@.no_duplicates(),
            final(self)@.in_order(computed@),
            final(self)@.lists_fresh(computed@),
            forall|n: int|
                0 <= n < final(self)@.nodes.len() && final(self)@.fresh(n) ==> final(self)@.cached(arena@, *kernel, n),
            forall|n: int|
                0 <= n < final(self)@.nodes.len() && !final(self)@.fresh(n) ==> final(self)@.nodes[n] == old(self)@.nodes[n],
            forall|i: int|
                0 <= i < old(self)@.top_level_node_ids.len() ==> final(self)@.fresh(
                    #[trigger] old(self)@.top_level_node_ids[i] as int,
                ),
            old(self)@.all_asked(old(self)@.top_level_node_ids, computed@),
    {
        let ids = self.top_level_node_ids.clone();
        self.eval_nodes(arena, ids, kernel)
    }

    /// Makes a pass over the entries `ids`: the pass counter goes up by one, and each of
    /// the entries, and each entry that one of them needs, computes its output once, after
    /// all its input entries have computed theirs. The other entries keep what they held.
    /// Returns the entries that computed their output, in the order in which they did.
    ///
    /// The entries still to be dealt with are kept on a list of their own: an entry whose
    /// inputs are not all computed stays on the list below those of its inputs that are
    /// not, and is looked at again when they are done.
    pub fn eval_nodes<K: Fn(&Operation, &Vec<Tensor>) -> Tensor>(
        &mut self,
        arena: &Arena,
        ids: Vec<usize>,
        kernel: &K,
    ) -> (computed: Vec<usize>)
        requires
            arena@.wf(),
            kernel_ok(*kernel),
            old(self)@.wf(arena@),
            old(self)@.generation < usize::MAX,
            forall|i: int| 0 <= i < ids.len() ==> (#[trigger] ids[i]) < old(self)@.nodes.len(),
        ensures
            final(self)@.wf(arena@),
            final(self)@.same_entries(old(self)@),
            final(self)@.generation == old(self)@.generation + 1,
            computed@.no_duplicates(),
            final(self)@.in_order(computed@),
            final(self)@.lists_fresh(computed@),
            forall|n: int|
                0 <= n < final(self)@.nodes.len() && final(self)@.fresh(n) ==> final(self)@.cached(arena@, *kernel, n),
            forall|n: int|
                0 <= n < final(self)@.nodes.len() && !final(self)@.fresh(n) ==> final(self)@.nodes[n] == old(self)@.nodes[n],
            forall|i: int| 0 <= i < ids.len() ==> final(self)@.fresh(#[trigger] ids[i] as int),
            old(self)@.all_asked(ids@, computed@),
    {
        let ghost before = self@;
        let ghost a = arena@;
        let ghost wanted = ids@;
        let mut ids = ids;
        self.generation += 1;
        let mut tmp: Vec<Tensor> = Vec::new();
        let mut computed: Vec<usize> = Vec::new();
        let ghost mut waiting: Seq<bool> = Seq::new(ids.len() as nat, |i: int| false);
        proof {
            let g = self@;
            assert(g.nodes =~= before.nodes);
            assert forall|n: int| 0 <= n < g.nodes.len() implies g.node_wf(a, n) by {
                assert(before.node_wf(a, n));
            }
            assert forall|n: int| 0 <= n < g.nodes.len() implies !g.fresh(n) by {
                assert(before.node_wf(a, n));
            }
            assert forall|k: usize| #[trigger]
                g.expr_to_node_ids.contains_key(k) implies g.expr_to_node_ids[k] < g.nodes.len()
                && g.nodes[g.expr_to_node_ids[k] as int].expr.id == k by {
                assert(before.expr_to_node_ids.contains_key(k));
            }
            assert forall|i: int| 0 <= i < wanted.len() implies ids@.contains(
                #[trigger] wanted[i],
            ) by {
                assert(ids@[i] == wanted[i]);
            }
            assert forall|i: int| 0 <= i < g.top_level_node_ids.len() implies (
            #[trigger] g.top_level_node_ids[i]) < g.nodes.len() by {
                assert(before.top_level_node_ids[i] < before.nodes.len());
            }
            assert(g.wf(a));
            assert forall|p: int| 0 <= p < ids@.len() implies before.asked(
                wanted,
                #[trigger] ids@[p],
            ) by {
                assert(before.needs(wanted[p] as int, ids@[p] as int));
            }
        }
        while ids.len() > 0
            invariant
                a == arena@,
                before.all_asked(wanted, ids@),
                before.all_asked(wanted, computed@),
                a.wf(),
                kernel_ok(*kernel),
                before.wf(a),
                self@.wf(a),
                self@.same_entries(before),
                self@.generation == before.generation + 1,
                tmp.len() == 0,
                waiting.len() == ids.len(),
                forall|i: int| 0 <= i < wanted.len() ==> (#[trigger] wanted[i]) < before.nodes.len(),
                forall|p: int| 0 <= p < ids.len() ==> (#[trigger] ids[p]) < self@.nodes.len(),
                self@.awaited(ids@, waiting),
                forall|n: int|
                    0 <= n < self@.nodes.len() && self@.fresh(n) ==> self@.cached(a, *kernel, n),
                self@.lists_fresh(computed@),
                computed@.no_duplicates(),
                self@.in_order(computed@),
                forall|n: int|
                    0 <= n < self@.nodes.len() && !self@.fresh(n) ==> self@.nodes[n]
                        == before.nodes[n],
                forall|i: int|
                    0 <= i < wanted.len() ==> self@.fresh(wanted[i] as int) || ids@.contains(
                        #[trigger] wanted[i],
                    ),
            decreases before.potential(a, ids@, waiting), ids.len(),
        {
            let ghost g0 = self@;
            let ghost stack0 = ids@;
            let ghost waiting0 = waiting;
            let top: usize = ids.len() - 1;
            let id: usize = ids[top];
            if self.nodes[id].output_generation == self.generation {
                ids.pop();
                proof {
                    waiting = waiting0.drop_last();
                    lemma_popped(g0, stack0, waiting0, wanted);
                }
            } else {
                proof {
                    assert(g0.node_wf(a, id as int));
                }
                let is_ready: bool = self.push_stale_inputs(id, &mut ids);
                let ghost n = g0.nodes[id as int].input_node_ids.len() as int;
                let ghost stale = g0.stale_inputs(id as int, n);
                proof {
                    assert(before.asked(wanted, stack0[top as int]));
                    lemma_stale_asked(g0, before, a, wanted, id as int, n);
                    assert forall|p: int| 0 <= p < ids@.len() implies before.asked(
                        wanted,
                        #[trigger] ids@[p],
                    ) by {
                        if p < stack0.len() {
                            assert(ids@[p] == stack0[p]);
                        } else {
                            assert(ids@[p] == stale[p - stack0.len()]);
                        }
                    }
                }
                if is_ready {
                    proof {
                        assert(ids@ =~= stack0);
                        assert forall|j: int| 0 <= j < n implies g0.cached(
                            a,
                            *kernel,
                            #[trigger] g0.nodes[id as int].input_node_ids[j] as int,
                        ) by {
                            assert(g0.fresh(g0.nodes[id as int].input_node_ids[j] as int));
                        }
                    }
                    self.compute(arena, id, &mut tmp, kernel);
                    let ghost g1 = self@;
                    proof {
                        lemma_computed(g0, g1, a, id, computed@);
                    }
                    computed.push(id);
                    ids.pop();
                    proof {
                        waiting = waiting0.drop_last();
                        lemma_awaited_after(g0, g1, a, id, stack0, waiting0);
                        assert forall|p: int| 0 <= p < wanted.len() implies g1.fresh(
                            wanted[p] as int,
                        ) || stack0.contains(#[trigger] wanted[p]) by {
                            if wanted[p] != id && g0.fresh(wanted[p] as int) {
                                assert(before.nodes.len() == g0.nodes.len());
                                assert(g1.nodes[wanted[p] as int] == g0.nodes[wanted[p] as int]);
                            }
                        }
                        lemma_popped(g1, stack0, waiting0, wanted);
                        assert forall|m: int| 0 <= m < g1.nodes.len() && g1.fresh(m) implies g1.cached(
                            a,
                            *kernel,
                            m,
                        ) by {
                            if m != id {
                                assert(g0.fresh(m));
                                assert(g0.cached(a, *kernel, m));
                            }
                        }
                    }
                } else {
                    proof {
                        lemma_stale_inputs(g0, a, id as int, n);
                        lemma_inputs_cost_less(g0, a, id as int);
                        // the entry did not wait yet, or its inputs would all be computed
                        if waiting0[top as int] {
                            assert forall|j: int| 0 <= j < n implies g0.fresh(
                                #[trigger] g0.nodes[id as int].input_node_ids[j] as int,
                            ) by {
                                let x = g0.nodes[id as int].input_node_ids[j];
                                assert(g0.fresh(x as int) || later(stack0, top as int, x));
                            }
                            assert(false);
                        }
                        let marked = waiting0.update(top as int, true);
                        waiting = marked + Seq::new(stale.len(), |i: int| false);
                        lemma_potential_extended(before, a, stack0, marked, stale);
                        lemma_same_cost(before, g0, a, stale);
                        assert(marked.drop_last() =~= waiting0.drop_last());
                        assert forall|p: int, j: int|
                            0 <= p < ids@.len() && waiting[p] && 0 <= j < g0.nodes[ids@[p] as int].input_node_ids.len() implies g0.fresh(
                            g0.nodes[ids@[p] as int].input_node_ids[j] as int,
                        ) || later(
                            ids@,
                            p,
                            #[trigger] g0.nodes[ids@[p] as int].input_node_ids[j],
                        ) by {
                            let x = g0.nodes[ids@[p] as int].input_node_ids[j];
                            if !g0.fresh(x as int) {
                                if p == top {
                                    assert(stale.contains(x));
                                    let q = choose|q: int| 0 <= q < stale.len() && stale[q] == x;
                                    assert(ids@[stack0.len() + q] == x);
                                } else {
                                    assert(p < top);
                                    assert(waiting0[p]);
                                    assert(stack0[p] == ids@[p]);
                                    assert(later(stack0, p, x));
                                    let q = choose|q: int|
                                        p < q < stack0.len() && #[trigger] stack0[q] == x;
                                    assert(ids@[q] == x);
                                }
                            }
                        }
                        assert forall|p: int| 0 <= p < wanted.len() implies g0.fresh(
                            wanted[p] as int,
                        ) || ids@.contains(#[trigger] wanted[p]) by {
                            if !g0.fresh(wanted[p] as int) {
                                assert(stack0.contains(wanted[p]));
                                let q = choose|q: int|
                                    0 <= q < stack0.len() && stack0[q] == wanted[p];
                                assert(ids@[q] == wanted[p]);
                            }
                        }
                    }
                }
            }
        }
        proof {
            assert forall|i: int| 0 <= i < wanted.len() implies self@.fresh(
                #[trigger] wanted[i] as int,
            ) by {
                assert(!ids@.contains(wanted[i]));
            }
        }
        computed
    }
}

/// The cost of entries does not depend on what they hold.
proof fn lemma_same_cost(g: GraphView, h: GraphView, a: ArenaView, entries: Seq<usize>)
    requires
        h.same_entries(g),
        forall|q: int| 0 <= q < entries.len() ==> (#[trigger] entries[q]) < g.nodes.len(),
    ensures
        g.sum_cost(a, entries) == h.sum_cost(a, entries),
    decreases entries.len(),
{
    if entries.len() > 0 {
        lemma_same_cost(g, h, a, entries.drop_last());
        assert(h.nodes[entries.last() as int].expr == g.nodes[entries.last() as int].expr);
    }
}

/// After the last entry of the list, which is computed, was taken off: the entries that
/// wait still have their inputs computed or further up, and what was wanted is computed or
/// still on the list.
proof fn lemma_popped(g: GraphView, stack: Seq<usize>, waiting: Seq<bool>, wanted: Seq<usize>)
    requires
        stack.len() > 0,
        stack.len() == waiting.len(),
        g.fresh(stack.last() as int),
        g.awaited(stack, waiting),
        forall|i: int|
            0 <= i < wanted.len() ==> g.fresh(wanted[i] as int) || stack.contains(
                #[trigger] wanted[i],
            ),
    ensures
        g.awaited(stack.drop_last(), waiting.drop_last()),
        forall|i: int|
            0 <= i < wanted.len() ==> g.fresh(wanted[i] as int) || stack.drop_last().contains(
                #[trigger] wanted[i],
            ),
{
    let rest = stack.drop_last();
    let flags = waiting.drop_last();
    assert forall|p: int, j: int|
        0 <= p < rest.len() && flags[p] && 0 <= j < g.nodes[rest[p] as int].input_node_ids.len() implies g.fresh(
        g.nodes[rest[p] as int].input_node_ids[j] as int,
    ) || later(rest, p, #[trigger] g.nodes[rest[p] as int].input_node_ids[j]) by {
        let x = g.nodes[rest[p] as int].input_node_ids[j];
        assert(rest[p] == stack[p]);
        assert(waiting[p]);
        if !g.fresh(x as int) {
            assert(later(stack, p, x));
            let q = choose|q: int| p < q < stack.len() && #[trigger] stack[q] == x;
            assert(q < stack.len() - 1);
            assert(rest[q] == x);
        }
    }
    assert forall|i: int| 0 <= i < wanted.len() implies g.fresh(wanted[i] as int)
        || rest.contains(#[trigger] wanted[i]) by {
        if !g.fresh(wanted[i] as int) {
            let q = choose|q: int| 0 <= q < stack.len() && stack[q] == wanted[i];
            assert(rest[q] == wanted[i]);
        }
    }
}

/// After the entry `id` computed its output, the entries that wait have their inputs
/// computed or further up on the list as before.
proof fn lemma_awaited_after(
    g0: GraphView,
    g1: GraphView,
    a: ArenaView,
    id: usize,
    stack: Seq<usize>,
    waiting: Seq<bool>,
)
    requires
        g0.wf(a),
        g1.same_entries(g0),
        g1.generation == g0.generation,
        id < g0.nodes.len(),
        forall|m: int| 0 <= m < g0.nodes.len() && m != id ==> g1.nodes[m] == g0.nodes[m],
        g1.fresh(id as int),
        forall|p: int| 0 <= p < stack.len() ==> (#[trigger] stack[p]) < g0.nodes.len(),
        stack.len() == waiting.len(),
        g0.awaited(stack, waiting),
    ensures
        g1.awaited(stack, waiting),
{
    assert forall|p: int, j: int|
        0 <= p < stack.len() && waiting[p] && 0 <= j < g1.nodes[stack[p] as int].input_node_ids.len() implies g1.fresh(
        g1.nodes[stack[p] as int].input_node_ids[j] as int,
    ) || later(stack, p, #[trigger] g1.nodes[stack[p] as int].input_node_ids[j]) by {
        let x = g0.nodes[stack[p] as int].input_node_ids[j];
        assert(g1.nodes[stack[p] as int].input_node_ids == g0.nodes[stack[p] as int].input_node_ids);
        assert(g0.node_wf(a, stack[p] as int));
        assert(x < g0.nodes.len());
        if g0.fresh(x as int) {
            if x != id {
                assert(g1.nodes[x as int] == g0.nodes[x as int]);
            }
        } else {
            assert(later(stack, p, x));
        }
    }
}

/// After the entry `id`, whose inputs were all computed, computed its output and went on
/// the list of computed entries: the list has no entry twice, holds the computed entries,
/// and has the inputs of each entry before it.
proof fn lemma_computed(g0: GraphView, g1: GraphView, a: ArenaView, id: usize, computed: Seq<usize>)
    requires
        g0.wf(a),
        g1.same_entries(g0),
        g1.generation == g0.generation,
        id < g0.nodes.len(),
        !g0.fresh(id as int),
        g1.fresh(id as int),
        forall|m: int| 0 <= m < g0.nodes.len() && m != id ==> g1.nodes[m] == g0.nodes[m],
        forall|j: int|
            0 <= j < g0.nodes[id as int].input_node_ids.len() ==> g0.fresh(
                #[trigger] g0.nodes[id as int].input_node_ids[j] as int,
            ),
        g0.lists_fresh(computed),
        computed.no_duplicates(),
        g0.in_order(computed),
    ensures
        computed.push(id).no_duplicates(),
        g1.in_order(computed.push(id)),
        g1.lists_fresh(computed.push(id)),
{
    let next = computed.push(id);
    assert(!computed.contains(id));
    assert forall|x: usize| #[trigger] next.contains(x) <==> (x < g1.nodes.len() && g1.fresh(
        x as int,
    )) by {
        if x == id {
            assert(next[computed.len() as int] == id);
        } else {
            if x < g1.nodes.len() {
                assert(g1.nodes[x as int] == g0.nodes[x as int]);
            }
            if computed.contains(x) {
                let q = choose|q: int| 0 <= q < computed.len() && computed[q] == x;
                assert(next[q] == x);
            }
            if next.contains(x) {
                let q = choose|q: int| 0 <= q < next.len() && next[q] == x;
                assert(computed[q] == x);
            }
        }
    }
    assert forall|p: int, j: int|
        0 <= p < next.len() && 0 <= j < g1.nodes[next[p] as int].input_node_ids.len() implies earlier(
        next,
        p,
        #[trigger] g1.nodes[next[p] as int].input_node_ids[j],
    ) by {
        if p < computed.len() {
            assert(computed.contains(computed[p]));
        }
        let x = g1.nodes[next[p] as int].input_node_ids[j];
        assert(g1.nodes[next[p] as int].input_node_ids == g0.nodes[next[p] as int].input_node_ids);
        if p < computed.len() {
            assert(next[p] == computed[p]);
            assert(earlier(computed, p, x));
            let q = choose|q: int| 0 <= q < p && q < computed.len() && #[trigger] computed[q] == x;
            assert(next[q] == x);
        } else {
            assert(next[p] == id);
            assert(g0.fresh(x as int));
            assert(g0.node_wf(a, id as int));
            assert(computed.contains(x));
            let q = choose|q: int| 0 <= q < computed.len() && computed[q] == x;
            assert(next[q] == x);
        }
    }
}

/// Two passes leave the same output in the entries of the same expression, where the cells
/// hold the same and the kernel is the same: the output of an entry that was computed is
/// the value of its expression, which depends on nothing else.
pub proof fn lemma_passes_agree<K: Fn(&Operation, &Vec<Tensor>) -> Tensor>(
    first: GraphView,
    second: GraphView,
    a: ArenaView,
    b: ArenaView,
    k: K,
    n: int,
    m: int,
)
    requires
        first.cached(a, k, n),
        second.cached(b, k, m),
        a.of(first.nodes[n].expr) == b.of(second.nodes[m].expr),
        a.cells == b.cells,
    ensures
        first.nodes[n].output == second.nodes[m].output,
{
}

/// An entry that computed its output in a pass stands on the list of the entries that the
/// pass computed at one position and at no other: it was computed once.
pub proof fn lemma_computed_once(g: GraphView, computed: Seq<usize>, n: usize)
    requires
        g.lists_fresh(computed),
        computed.no_duplicates(),
        n < g.nodes.len(),
        g.fresh(n as int),
    ensures
        exists|p: int|
            0 <= p < computed.len() && computed[p] == n && forall|q: int|
                0 <= q < computed.len() && computed[q] == n ==> q == p,
{
    assert(computed.contains(n));
    let p = choose|p: int| 0 <= p < computed.len() && computed[p] == n;
    assert(forall|q: int| 0 <= q < computed.len() && computed[q] == n ==> q == p);
}

} // verus!

//! The reverse pass: a depth-first topological sort over the nodes reachable
//! from a root, followed by a walk of that order from the root down, pushing
//! each node's gradient onto its children's accumulators.
//!
//! The exec code is specified against a functional model: `dfs_model` gives
//! the exact visit order, `apply_rule_model` the exact gradient contributions
//! of one node, and `backward_model` the whole pass. `backward` ensures that
//! the graph afterwards equals the model of the graph before.

use vstd::prelude::*;
use crate::arith::{
    add_bits, div_bits, mul_bits, neg_bits, pow_bits, sub_bits, fadd, fdiv, fmul, fneg, fpow,
    fsub, ONE_BITS,
};
use crate::graph::{graph_wf, node_wf, Graph, Node, Op, Scalar};

verus! {

/// The visited flags and the postorder built by a depth-first visit of `i`:
/// a visited node is skipped; otherwise it is marked, its children are
/// visited left to right, and it is appended after them. The guards `l < i`
/// never fail on a well-formed graph; they keep the definition total.
pub open spec fn dfs_model(s: Seq<Node>, i: usize, vis: Seq<bool>, ord: Seq<usize>) -> (Seq<
    bool,
>, Seq<usize>)
    decreases i,
{
    if vis[i as int] {
        (vis, ord)
    } else {
        let vis1 = vis.update(i as int, true);
        match s[i as int].op {
            Op::Leaf => (vis1, ord.push(i)),
            Op::Add(l, r) | Op::Sub(l, r) | Op::Mul(l, r) | Op::Div(l, r) | Op::Pow(l, r) => {
                let st1 = if l < i {
                    dfs_model(s, l, vis1, ord)
                } else {
                    (vis1, ord)
                };
                let st2 = if r < i {
                    dfs_model(s, r, st1.0, st1.1)
                } else {
                    st1
                };
                (st2.0, st2.1.push(i))
            },
            Op::Exp(c) | Op::Tanh(c) => {
                let st1 = if c < i {
                    dfs_model(s, c, vis1, ord)
                } else {
                    (vis1, ord)
                };
                (st1.0, st1.1.push(i))
            },
        }
    }
}

/// One gradient contribution added into the accumulator of child `c`. The
/// range guard never fails on a well-formed graph; it keeps the model total.
pub open spec fn acc_model(s: Seq<Node>, c: usize, contribution: u64) -> Seq<Node> {
    if c < s.len() {
        s.update(
            c as int,
            (Node { grad: add_bits(s[c as int].grad, contribution), ..s[c as int] }),
        )
    } else {
        s
    }
}

/// The rule table of the engine: the contribution that node `i`'s current
/// gradient pushes onto each of its children, computed from the node's own
/// value and gradient and its children's values. A leaf pushes nothing; a
/// unary operator pushes one contribution.
pub open spec fn rule_contributions(s: Seq<Node>, i: usize) -> (Option<(usize, u64)>, Option<
    (usize, u64),
>) {
    let d = s[i as int].grad;
    match s[i as int].op {
        Op::Leaf => (None, None),
        Op::Add(l, r) => (Some((l, d)), Some((r, d))),
        Op::Sub(l, r) => (Some((l, d)), Some((r, neg_bits(d)))),
        Op::Mul(l, r) => (
            Some((l, mul_bits(s[r as int].value, d))),
            Some((r, mul_bits(s[l as int].value, d))),
        ),
        Op::Div(l, r) => (
            Some((l, div_bits(d, s[r as int].value))),
            Some(
                (
                    r,
                    div_bits(
                        neg_bits(mul_bits(d, s[l as int].value)),
                        mul_bits(s[r as int].value, s[r as int].value),
                    ),
                ),
            ),
        ),
        Op::Pow(l, r) => (
            Some(
                (
                    l,
                    mul_bits(
                        mul_bits(
                            s[r as int].value,
                            pow_bits(s[l as int].value, sub_bits(s[r as int].value, ONE_BITS)),
                        ),
                        d,
                    ),
                ),
            ),
            Some(
                (
                    r,
                    mul_bits(
                        mul_bits(
                            s[l as int].value,
                            pow_bits(s[r as int].value, sub_bits(s[l as int].value, ONE_BITS)),
                        ),
                        d,
                    ),
                ),
            ),
        ),
        Op::Exp(c) => (Some((c, mul_bits(s[i as int].value, d))), None),
        Op::Tanh(c) => (
            Some(
                (c, mul_bits(sub_bits(ONE_BITS, mul_bits(s[i as int].value, s[i as int].value)), d)),
            ),
            None,
        ),
    }
}

/// Adds one optional contribution into its child's accumulator.
pub open spec fn apply_contrib(s: Seq<Node>, cb: Option<(usize, u64)>) -> Seq<Node> {
    match cb {
        Option::Some(p) => acc_model(s, p.0, p.1),
        Option::None => s,
    }
}

/// The gradient rule of node `i`: both contributions from the rule table are
/// added into the children's accumulators, left child first. The
/// contributions are computed from the state before either addition.
pub open spec fn apply_rule_model(s: Seq<Node>, i: usize) -> Seq<Node> {
    let cb = rule_contributions(s, i);
    apply_contrib(apply_contrib(s, cb.0), cb.1)
}

/// The walk of a postorder: the last node of `ord` (the root) propagates
/// first, then the one before it, down to the first.
pub open spec fn walk_model(s: Seq<Node>, ord: Seq<usize>) -> Seq<Node>
    decreases ord.len(),
{
    if ord.len() == 0 {
        s
    } else {
        walk_model(apply_rule_model(s, ord.last()), ord.drop_last())
    }
}

/// The root's gradient seeded to one.
pub open spec fn seed_root(s: Seq<Node>, root: usize) -> Seq<Node> {
    s.update(root as int, (Node { grad: ONE_BITS, ..s[root as int] }))
}

/// The whole reverse pass: sort the nodes reachable from `root`, seed the
/// root's gradient to one, then walk the order from the root down.
pub open spec fn backward_model(s: Seq<Node>, root: usize) -> Seq<Node> {
    let ord = dfs_model(s, root, Seq::new(s.len(), |j: int| false), Seq::empty()).1;
    walk_model(seed_root(s, root), ord)
}

/// The second sequence has the same length as the first, and every node in it
/// keeps its value and its operator; only gradients may differ.
pub open spec fn same_struct(s: Seq<Node>, t: Seq<Node>) -> bool {
    &&& t.len() == s.len()
    &&& forall|j: int|
        0 <= j < s.len() ==> t[j].value == s[j].value && #[trigger] t[j].op == s[j].op
}

/// Adding one contribution changes a gradient accumulator only.
proof fn lemma_contrib_preserves_struct(s: Seq<Node>, cb: Option<(usize, u64)>)
    ensures
        same_struct(s, apply_contrib(s, cb)),
{
    let t = apply_contrib(s, cb);
    assert forall|j: int| 0 <= j < s.len() implies t[j].value == s[j].value && #[trigger] t[j].op
        == s[j].op by {
        match cb {
            Option::Some(p) => {
                if j != p.0 as int {
                    assert(t[j] == s[j]);
                }
            },
            Option::None => {},
        }
    }
}

/// A rule application changes gradients only: every node keeps its value and
/// its operator, and the graph keeps its length.
pub proof fn lemma_apply_preserves_struct(s: Seq<Node>, i: usize)
    ensures
        same_struct(s, apply_rule_model(s, i)),
{
    let cb = rule_contributions(s, i);
    lemma_contrib_preserves_struct(s, cb.0);
    lemma_contrib_preserves_struct(apply_contrib(s, cb.0), cb.1);
}

/// Adds `contribution` into the gradient accumulator of node `c`.
fn accumulate(g: &mut Graph, c: usize, contribution: u64)
    requires
        c < old(g)@.len(),
    ensures
        final(g)@ == acc_model(old(g)@, c, contribution),
{
    let mut n = g.node_at(c);
    n.grad = fadd(n.grad, contribution);
    g.set_node(c, n);
}

/// Propagates the gradient of node `i` onto its children, per its rule.
fn apply_rule(g: &mut Graph, i: usize)
    requires
        i < old(g)@.len(),
        graph_wf(old(g)@),
    ensures
        final(g)@ == apply_rule_model(old(g)@, i),
{
    proof {
        assert(node_wf(g@, i as int));
    }
    let node = g.node_at(i);
    let d = node.grad;
    match node.op {
        Op::Leaf => {},
        Op::Add(l, r) => {
            accumulate(g, l, d);
            accumulate(g, r, d);
        },
        Op::Sub(l, r) => {
            accumulate(g, l, d);
            let nd = fneg(d);
            accumulate(g, r, nd);
        },
        Op::Mul(l, r) => {
            let lv = g.node_at(l).value;
            let rv = g.node_at(r).value;
            let lc = fmul(rv, d);
            let rc = fmul(lv, d);
            accumulate(g, l, lc);
            accumulate(g, r, rc);
        },
        Op::Div(l, r) => {
            let lv = g.node_at(l).value;
            let rv = g.node_at(r).value;
            let lc = fdiv(d, rv);
            let rc = fdiv(fneg(fmul(d, lv)), fmul(rv, rv));
            accumulate(g, l, lc);
            accumulate(g, r, rc);
        },
        Op::Pow(l, r) => {
            let lv = g.node_at(l).value;
            let rv = g.node_at(r).value;
            let lc = fmul(fmul(rv, fpow(lv, fsub(rv, ONE_BITS))), d);
            let rc = fmul(fmul(lv, fpow(rv, fsub(lv, ONE_BITS))), d);
            accumulate(g, l, lc);
            accumulate(g, r, rc);
        },
        Op::Exp(c) => {
            let contribution = fmul(node.value, d);
            accumulate(g, c, contribution);
        },
        Op::Tanh(c) => {
            let contribution = fmul(fsub(ONE_BITS, fmul(node.value, node.value)), d);
            accumulate(g, c, contribution);
        },
    }
}

/// The depth-first visit: mirrors `dfs_model` exactly.
fn visit(g: &Graph, i: usize, visited: &mut Vec<bool>, order: &mut Vec<usize>)
    requires
        graph_wf(g@),
        i < g@.len(),
        old(visited)@.len() == g@.len(),
    ensures
        final(visited)@.len() == g@.len(),
        ({
            let m = dfs_model(g@, i, old(visited)@, old(order)@);
            final(visited)@ == m.0 && final(order)@ == m.1
        }),
        (forall|j: int| 0 <= j < old(order)@.len() ==> old(order)@[j] < g@.len()) ==> (forall|j: int|
            0 <= j < final(order)@.len() ==> final(order)@[j] < g@.len()),
    decreases i,
{
    if !visited[i] {
        visited[i] = true;
        proof {
            assert(node_wf(g@, i as int));
        }
        match g.node_at(i).op {
            Op::Leaf => {},
            Op::Add(l, r) | Op::Sub(l, r) | Op::Mul(l, r) | Op::Div(l, r) | Op::Pow(l, r) => {
                visit(g, l, visited, order);
                visit(g, r, visited, order);
            },
            Op::Exp(c) | Op::Tanh(c) => {
                visit(g, c, visited, order);
            },
        }
        order.push(i);
    }
}

impl Scalar {
    /// The reverse pass from this node: sorts the reachable subgraph
    /// topologically, seeds this node's gradient to one, and walks the order
    /// root first, adding (never assigning) each node's contributions into
    /// its children's accumulators. The graph afterwards is exactly
    /// `backward_model` of the graph before.
    pub fn backward(&self, g: &mut Graph)
        requires
            self.id < old(g)@.len(),
            graph_wf(old(g)@),
        ensures
            final(g)@ == backward_model(old(g)@, self.id),
            graph_wf(final(g)@),
    {
        let n = g.len();
        let mut visited: Vec<bool> = Vec::new();
        while visited.len() < n
            invariant
                visited@.len() <= n,
                forall|j: int| 0 <= j < visited@.len() ==> visited@[j] == false,
            decreases n - visited@.len(),
        {
            visited.push(false);
        }
        proof {
            assert(visited@ =~= Seq::new(g@.len(), |j: int| false));
        }
        let mut order: Vec<usize> = Vec::new();
        visit(g, self.id, &mut visited, &mut order);
        let ghost full_ord = order@;

        let mut root_node = g.node_at(self.id);
        root_node.grad = ONE_BITS;
        g.set_node(self.id, root_node);
        let ghost s0 = g@;
        proof {
            assert(s0 == seed_root(old(g)@, self.id));
            crate::graph::lemma_update_same_op_wf(old(g)@, s0);
            assert(full_ord.subrange(0, full_ord.len() as int) =~= full_ord);
        }

        let mut k: usize = order.len();
        while k > 0
            invariant
                k <= full_ord.len(),
                order@ == full_ord,
                forall|j: int| 0 <= j < full_ord.len() ==> full_ord[j] < s0.len(),
                g@.len() == s0.len(),
                graph_wf(g@),
                walk_model(g@, full_ord.subrange(0, k as int)) == walk_model(s0, full_ord),
            decreases k,
        {
            k = k - 1;
            let i = order[k];
            let ghost pre = g@;
            apply_rule(g, i);
            proof {
                lemma_apply_preserves_struct(pre, i);
                crate::graph::lemma_update_same_op_wf(pre, g@);
                let sub_k = full_ord.subrange(0, k as int + 1);
                assert(sub_k.last() == i);
                assert(sub_k.drop_last() =~= full_ord.subrange(0, k as int));
                assert(walk_model(pre, sub_k) == walk_model(g@, full_ord.subrange(0, k as int)));
            }
        }
        proof {
            assert(full_ord.subrange(0, 0) =~= Seq::<usize>::empty());
            assert(walk_model(g@, full_ord.subrange(0, 0)) == g@);
        }
    }
}

} // verus!

//! Laws of the engine, stated over the functional model that the exec
//! contracts pin down: the reverse pass touches gradients only, a rezeroed
//! graph reproduces the same gradients, and the visit order is a duplicate-free
//! topological order, so every node's gradient is fully accumulated before the
//! node propagates it.

use vstd::prelude::*;
use crate::arith::{add_bits, mul_bits, sub_bits, tanh_bits, ONE_BITS, POS_ZERO_BITS};
use crate::backward::{
    apply_rule_model, backward_model, dfs_model, lemma_apply_preserves_struct, same_struct,
    seed_root, walk_model,
};
use crate::graph::{
    add_node, child_indices, graph_wf, leaf_node, mul_node, node_wf, tanh_node, Node, Op,
};

verus! {

/// Every gradient accumulator in the graph holds zero.
pub open spec fn all_grads_zero(s: Seq<Node>) -> bool {
    forall|j: int| 0 <= j < s.len() ==> #[trigger] s[j].grad == POS_ZERO_BITS
}

/// The graph with every gradient accumulator reset to zero: what a consumer
/// gets by calling `zero_grad` on every node.
pub open spec fn zero_all(s: Seq<Node>) -> Seq<Node> {
    Seq::new(s.len(), |j: int| (Node { grad: POS_ZERO_BITS, ..s[j] }))
}

/// A walk changes gradients only, whatever order it is handed.
pub proof fn lemma_walk_preserves_struct(s: Seq<Node>, ord: Seq<usize>)
    ensures
        same_struct(s, walk_model(s, ord)),
    decreases ord.len(),
{
    if ord.len() > 0 {
        lemma_apply_preserves_struct(s, ord.last());
        lemma_walk_preserves_struct(apply_rule_model(s, ord.last()), ord.drop_last());
    }
}

/// A whole reverse pass changes gradients only: every node keeps its value,
/// its operator and its children.
pub proof fn lemma_backward_preserves_struct(s: Seq<Node>, root: usize)
    requires
        root < s.len(),
    ensures
        same_struct(s, backward_model(s, root)),
{
    let ord = dfs_model(s, root, Seq::new(s.len(), |j: int| false), Seq::empty()).1;
    let seeded = seed_root(s, root);
    assert(same_struct(s, seeded));
    lemma_walk_preserves_struct(seeded, ord);
}

/// Repeated-pass correctness: run a reverse pass on a graph whose gradients
/// are all zero, then reset every touched accumulator to zero; a second pass
/// over the unmodified graph reproduces exactly the gradients of the first.
pub proof fn lemma_second_pass_matches(s: Seq<Node>, root: usize)
    requires
        root < s.len(),
        all_grads_zero(s),
    ensures
        backward_model(zero_all(backward_model(s, root)), root) == backward_model(s, root),
{
    lemma_backward_preserves_struct(s, root);
    let t = backward_model(s, root);
    assert forall|j: int| 0 <= j < s.len() implies zero_all(t)[j] == s[j] by {
        assert(t[j].op == s[j].op && t[j].value == s[j].value);
        assert(s[j].grad == POS_ZERO_BITS);
    }
    assert(zero_all(t) =~= s);
}

/// Both operands of the node listed at position `p` of the order appear at
/// strictly earlier positions.
pub open spec fn children_listed_before(s: Seq<Node>, ord: Seq<usize>, p: int) -> bool {
    match child_indices(s[ord[p] as int].op) {
        (Some(l), Some(r)) => (exists|q: int| 0 <= q < p && ord[q] == l) && (exists|q: int|
            0 <= q < p && ord[q] == r),
        (Some(c), None) => exists|q: int| 0 <= q < p && ord[q] == c,
        (None, _) => true,
    }
}

/// The order is topological: reading it from the end (as the reverse walk
/// does), every node is processed before each of its operands, so every
/// contribution to a node's gradient lands before that node propagates.
pub open spec fn ord_closed(s: Seq<Node>, ord: Seq<usize>) -> bool {
    forall|p: int| 0 <= p < ord.len() ==> #[trigger] children_listed_before(s, ord, p)
}

/// The inductive heart of the traversal proof: one depth-first visit extends
/// the order without disturbing it, finishes every node it marks, appends
/// duplicates of nothing, and keeps the order topologically closed.
proof fn lemma_dfs_topo(s: Seq<Node>, i: usize, vis: Seq<bool>, ord: Seq<usize>)
    requires
        graph_wf(s),
        i < s.len(),
        vis.len() == s.len(),
        forall|j: int| 0 <= j <= i && #[trigger] vis[j] ==> ord.contains(j as usize),
        forall|p: int| 0 <= p < ord.len() ==> vis[#[trigger] ord[p] as int] && ord[p] < s.len(),
        ord.no_duplicates(),
        ord_closed(s, ord),
    ensures
        ({
            let m = dfs_model(s, i, vis, ord);
            &&& m.0.len() == vis.len()
            &&& ord.len() <= m.1.len()
            &&& forall|p: int| 0 <= p < ord.len() ==> m.1[p] == ord[p]
            &&& m.0[i as int]
            &&& m.1.contains(i)
            &&& forall|j: int| 0 <= j < s.len() && #[trigger] vis[j] ==> m.0[j]
            &&& forall|j: int|
                0 <= j < s.len() && #[trigger] m.0[j] && !vis[j] ==> m.1.contains(j as usize)
                    && j <= i
            &&& forall|p: int|
                0 <= p < m.1.len() ==> m.0[#[trigger] m.1[p] as int] && m.1[p] < s.len()
            &&& forall|p: int| ord.len() <= p < m.1.len() ==> #[trigger] m.1[p] <= i
            &&& m.1.no_duplicates()
            &&& ord_closed(s, m.1)
        }),
    decreases i,
{
    assert(node_wf(s, i as int));
    let m = dfs_model(s, i, vis, ord);
    if vis[i as int] {
        assert(ord.contains(i));
    } else {
        let vis1 = vis.update(i as int, true);
        match s[i as int].op {
            Op::Leaf => {
                let t = ord.push(i);
                assert(t[ord.len() as int] == i);
                assert(t.contains(i));
                lemma_push_finishes(s, i, vis, vis1, ord, ord);
            },
            Op::Add(l, r) | Op::Sub(l, r) | Op::Mul(l, r) | Op::Div(l, r) | Op::Pow(l, r) => {
                lemma_dfs_topo(s, l, vis1, ord);
                let m1 = dfs_model(s, l, vis1, ord);
                lemma_dfs_topo(s, r, m1.0, m1.1);
                let m2 = dfs_model(s, r, m1.0, m1.1);
                assert(m1.1.contains(l));
                lemma_contains_persists(m1.1, m2.1, l);
                assert(m2.1.contains(l));
                assert(m2.1.contains(r));
                assert(vis1[i as int]);
                assert(m1.0[i as int]);
                assert(m2.0[i as int]);
                assert forall|j: int| 0 <= j < s.len() && #[trigger] vis[j] implies m2.0[j] by {
                    assert(vis1[j]);
                    assert(m1.0[j]);
                }
                assert forall|p: int| ord.len() <= p < m2.1.len() implies #[trigger] m2.1[p]
                    < i by {
                    if p < m1.1.len() {
                        assert(m2.1[p] == m1.1[p]);
                        assert(m1.1[p] <= l);
                    } else {
                        assert(m2.1[p] <= r);
                    }
                }
                lemma_push_finishes(s, i, vis, m2.0, ord, m2.1);
                let t = m2.1.push(i);
                assert(t[m2.1.len() as int] == i);
                assert(t.contains(i));
                assert forall|j: int|
                    0 <= j < s.len() && #[trigger] m2.0[j] && !vis[j] implies t.contains(
                    j as usize,
                ) && j <= i by {
                    if j == i {
                    } else if !vis1[j] && m1.0[j] {
                        lemma_contains_persists(m1.1, m2.1, j as usize);
                        lemma_contains_persists(m2.1, t, j as usize);
                    } else if !m1.0[j] {
                        lemma_contains_persists(m2.1, t, j as usize);
                    }
                }
            },
            Op::Exp(c) | Op::Tanh(c) => {
                lemma_dfs_topo(s, c, vis1, ord);
                let m1 = dfs_model(s, c, vis1, ord);
                assert(m1.1.contains(c));
                assert(vis1[i as int]);
                assert(m1.0[i as int]);
                assert forall|j: int| 0 <= j < s.len() && #[trigger] vis[j] implies m1.0[j] by {
                    assert(vis1[j]);
                }
                assert forall|p: int| ord.len() <= p < m1.1.len() implies #[trigger] m1.1[p]
                    < i by {
                    assert(m1.1[p] <= c);
                }
                lemma_push_finishes(s, i, vis, m1.0, ord, m1.1);
                let t = m1.1.push(i);
                assert(t[m1.1.len() as int] == i);
                assert(t.contains(i));
                assert forall|j: int|
                    0 <= j < s.len() && #[trigger] m1.0[j] && !vis[j] implies t.contains(
                    j as usize,
                ) && j <= i by {
                    if j == i {
                    } else if !vis1[j] {
                        lemma_contains_persists(m1.1, t, j as usize);
                    }
                }
            },
        }
    }
}

/// An element of a prefix is an element of every extension.
proof fn lemma_contains_persists(a: Seq<usize>, b: Seq<usize>, x: usize)
    requires
        a.len() <= b.len(),
        forall|p: int| 0 <= p < a.len() ==> b[p] == a[p],
        a.contains(x),
    ensures
        b.contains(x),
{
    let q = choose|q: int| 0 <= q < a.len() && a[q] == x;
    assert(b[q] == x);
}

/// Appending the node being finished keeps the order duplicate free and
/// topologically closed, provided the node was unvisited on entry, every
/// entry appended during its children's visits lies strictly below it, and
/// each of its operands already appears in the order.
proof fn lemma_push_finishes(
    s: Seq<Node>,
    i: usize,
    vis: Seq<bool>,
    vis2: Seq<bool>,
    ord: Seq<usize>,
    ord2: Seq<usize>,
)
    requires
        graph_wf(s),
        i < s.len(),
        !vis[i as int],
        vis2[i as int],
        forall|p: int| 0 <= p < ord.len() ==> vis[#[trigger] ord[p] as int] && ord[p] < s.len(),
        ord.len() <= ord2.len(),
        forall|p: int| 0 <= p < ord.len() ==> ord2[p] == ord[p],
        forall|p: int| 0 <= p < ord2.len() ==> vis2[#[trigger] ord2[p] as int] && ord2[p] < s.len(),
        forall|p: int| ord.len() <= p < ord2.len() ==> #[trigger] ord2[p] < i,
        ord2.no_duplicates(),
        ord_closed(s, ord2),
        ({
            match child_indices(s[i as int].op) {
                (Some(l), Some(r)) => ord2.contains(l) && ord2.contains(r),
                (Some(c), None) => ord2.contains(c),
                (None, _) => true,
            }
        }),
    ensures
        ord2.push(i).no_duplicates(),
        ord_closed(s, ord2.push(i)),
        forall|p: int|
            0 <= p < ord2.push(i).len() ==> vis2[#[trigger] ord2.push(i)[p] as int] && ord2.push(
                i,
            )[p] < s.len(),
{
    let t = ord2.push(i);
    assert forall|p: int| 0 <= p < ord2.len() implies ord2[p] != i by {
        if p < ord.len() {
            assert(vis[ord[p] as int]);
        }
    }
    assert(t.no_duplicates()) by {
        assert forall|p: int, q: int| 0 <= p < q < t.len() implies t[p] != t[q] by {
            if q < ord2.len() {
                assert(ord2[p] != ord2[q]);
            } else {
                assert(t[q] == i && t[p] == ord2[p]);
            }
        }
    }
    assert forall|p: int| 0 <= p < t.len() implies #[trigger] children_listed_before(s, t, p) by {
        if p < ord2.len() {
            assert(children_listed_before(s, ord2, p));
            assert(t[p] == ord2[p]);
            match child_indices(s[ord2[p] as int].op) {
                (Some(l), Some(r)) => {
                    let ql = choose|q: int| 0 <= q < p && ord2[q] == l;
                    let qr = choose|q: int| 0 <= q < p && ord2[q] == r;
                    assert(t[ql] == l && t[qr] == r);
                },
                (Some(c), None) => {
                    let qc = choose|q: int| 0 <= q < p && ord2[q] == c;
                    assert(t[qc] == c);
                },
                (None, _) => {},
            }
        } else {
            assert(t[p] == i);
            match child_indices(s[i as int].op) {
                (Some(l), Some(r)) => {
                    let ql = choose|q: int| 0 <= q < ord2.len() && ord2[q] == l;
                    let qr = choose|q: int| 0 <= q < ord2.len() && ord2[q] == r;
                    assert(t[ql] == l && t[qr] == r);
                },
                (Some(c), None) => {
                    let qc = choose|q: int| 0 <= q < ord2.len() && ord2[q] == c;
                    assert(t[qc] == c);
                },
                (None, _) => {},
            }
        }
    }
}

/// The order that a reverse pass from `root` walks is duplicate free and
/// topologically closed: every reachable node appears exactly once, after
/// each of its operands, so the walk from the end accumulates every
/// contribution to a node's gradient before that node propagates its own.
pub proof fn lemma_backward_order_topological(s: Seq<Node>, root: usize)
    requires
        graph_wf(s),
        root < s.len(),
    ensures
        ({
            let ord = dfs_model(s, root, Seq::new(s.len(), |j: int| false), Seq::empty()).1;
            &&& ord.contains(root)
            &&& ord.no_duplicates()
            &&& ord_closed(s, ord)
            &&& forall|p: int| 0 <= p < ord.len() ==> #[trigger] ord[p] < s.len()
        }),
{
    lemma_dfs_topo(s, root, Seq::new(s.len(), |j: int| false), Seq::empty());
}

/// The sum of two distinct leaves: the sum node's value is the binary64 sum
/// of the leaf values, and a reverse pass leaves on each leaf exactly one
/// contribution of the seed gradient, one.
pub proof fn lemma_add_gradients(va: u64, vb: u64)
    ensures
        ({
            let s = Seq::empty().push(leaf_node(va)).push(leaf_node(vb));
            let t = backward_model(s.push(add_node(s, 0, 1)), 2);
            &&& t.len() == 3
            &&& t[2].value == add_bits(va, vb)
            &&& t[0].grad == add_bits(POS_ZERO_BITS, ONE_BITS)
            &&& t[1].grad == add_bits(POS_ZERO_BITS, ONE_BITS)
        }),
{
    let s = Seq::empty().push(leaf_node(va)).push(leaf_node(vb));
    let s3 = s.push(add_node(s, 0, 1));
    let vis0 = Seq::new(3, |j: int| false);
    reveal_with_fuel(dfs_model, 4);
    reveal_with_fuel(walk_model, 5);
    let m = dfs_model(s3, 2, vis0, Seq::empty());
    assert(m.1 =~= seq![0usize, 1usize, 2usize]);
}

/// The product of two distinct leaves: each leaf's gradient receives the
/// other leaf's value times the seed gradient.
pub proof fn lemma_mul_gradients(va: u64, vb: u64)
    ensures
        ({
            let s = Seq::empty().push(leaf_node(va)).push(leaf_node(vb));
            let t = backward_model(s.push(mul_node(s, 0, 1)), 2);
            &&& t.len() == 3
            &&& t[2].value == mul_bits(va, vb)
            &&& t[0].grad == add_bits(POS_ZERO_BITS, mul_bits(vb, ONE_BITS))
            &&& t[1].grad == add_bits(POS_ZERO_BITS, mul_bits(va, ONE_BITS))
        }),
{
    let s = Seq::empty().push(leaf_node(va)).push(leaf_node(vb));
    let s3 = s.push(mul_node(s, 0, 1));
    let vis0 = Seq::new(3, |j: int| false);
    reveal_with_fuel(dfs_model, 4);
    reveal_with_fuel(walk_model, 5);
    let m = dfs_model(s3, 2, vis0, Seq::empty());
    assert(m.1 =~= seq![0usize, 1usize, 2usize]);
}

/// The chain rule through `tanh` of a product: the gradient reaching each
/// leaf is the other leaf's value times the derivative of the output, one
/// minus the square of the already-computed `tanh` value.
pub proof fn lemma_tanh_chain_rule(va: u64, vb: u64)
    ensures
        ({
            let s = Seq::empty().push(leaf_node(va)).push(leaf_node(vb));
            let s3 = s.push(mul_node(s, 0, 1));
            let t = backward_model(s3.push(tanh_node(s3, 2)), 3);
            let tv = tanh_bits(mul_bits(va, vb));
            let dout = add_bits(
                POS_ZERO_BITS,
                mul_bits(sub_bits(ONE_BITS, mul_bits(tv, tv)), ONE_BITS),
            );
            &&& t.len() == 4
            &&& t[3].value == tv
            &&& t[2].grad == dout
            &&& t[0].grad == add_bits(POS_ZERO_BITS, mul_bits(vb, dout))
            &&& t[1].grad == add_bits(POS_ZERO_BITS, mul_bits(va, dout))
        }),
{
    let s = Seq::empty().push(leaf_node(va)).push(leaf_node(vb));
    let s3 = s.push(mul_node(s, 0, 1));
    let s4 = s3.push(tanh_node(s3, 2));
    let vis0 = Seq::new(4, |j: int| false);
    reveal_with_fuel(dfs_model, 5);
    reveal_with_fuel(walk_model, 6);
    let m = dfs_model(s4, 3, vis0, Seq::empty());
    assert(m.1 =~= seq![0usize, 1usize, 2usize, 3usize]);
}

/// Shared-subexpression accumulation: in `x * x + x` the single leaf is used
/// three times, and its gradient is the sum of all three contributions —
/// one seed gradient from the linear use and the leaf's value times the seed
/// from each side of the square — added, never overwritten.
pub proof fn lemma_shared_use_accumulates(vx: u64)
    ensures
        ({
            let s1 = Seq::empty().push(leaf_node(vx));
            let s2 = s1.push(mul_node(s1, 0, 0));
            let t = backward_model(s2.push(add_node(s2, 1, 0)), 2);
            let g_lin = add_bits(POS_ZERO_BITS, ONE_BITS);
            let g_sq = add_bits(POS_ZERO_BITS, ONE_BITS);
            &&& t.len() == 3
            &&& t[1].value == mul_bits(vx, vx)
            &&& t[2].value == add_bits(mul_bits(vx, vx), vx)
            &&& t[0].grad == add_bits(
                add_bits(g_lin, mul_bits(vx, g_sq)),
                mul_bits(vx, g_sq),
            )
        }),
{
    let s1 = Seq::empty().push(leaf_node(vx));
    let s2 = s1.push(mul_node(s1, 0, 0));
    let s3 = s2.push(add_node(s2, 1, 0));
    let vis0 = Seq::new(3, |j: int| false);
    reveal_with_fuel(dfs_model, 4);
    reveal_with_fuel(walk_model, 5);
    let m = dfs_model(s3, 2, vis0, Seq::empty());
    assert(m.1 =~= seq![0usize, 1usize, 2usize]);
}

} // verus!

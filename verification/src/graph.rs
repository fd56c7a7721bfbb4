//! The computation graph: an arena of nodes addressed by stable indices.
//!
//! Every arithmetic call appends one node (two for `powf`, whose exponent is
//! wrapped as a constant leaf) that records its operand indices, so a node can
//! only refer to nodes that already exist and the graph is acyclic by
//! construction. Values are computed eagerly at construction time; after
//! construction, the gradient accumulator is the only field that changes.

use vstd::prelude::*;
use crate::arith::{
    add_bits, div_bits, exp_bits, mul_bits, pow_bits, sub_bits, tanh_bits, fadd, fdiv, fexp, fmul,
    fpow, fsub, ftanh, POS_ZERO_BITS,
};

verus! {

/// The operator that produced a node, together with the arena indices of its
/// operands. A leaf has no operands; `Pow` keeps its exponent as a constant
/// leaf in the second position, so the binary rule table applies to it. A
/// node with fewer children than its operator's arity is unrepresentable.
#[derive(Clone, Copy, PartialEq, Eq, Structural)]
pub enum Op {
    Leaf,
    Add(usize, usize),
    Sub(usize, usize),
    Mul(usize, usize),
    Div(usize, usize),
    Pow(usize, usize),
    Exp(usize),
    Tanh(usize),
}

/// One node of the computation graph: a value, an accumulated gradient, and
/// the operator (with operands) that produced the value. All fields hold
/// binary64 bit patterns except `op`.
#[derive(Clone, Copy, PartialEq, Eq, Structural)]
pub struct Node {
    pub value: u64,
    pub grad: u64,
    pub op: Op,
}

/// The operand indices of a node, left then right. A leaf has none; a unary
/// operator has a left operand only.
pub open spec fn child_indices(op: Op) -> (Option<usize>, Option<usize>) {
    match op {
        Op::Leaf => (None, None),
        Op::Add(l, r) | Op::Sub(l, r) | Op::Mul(l, r) | Op::Div(l, r) | Op::Pow(l, r) => (
            Some(l),
            Some(r),
        ),
        Op::Exp(c) | Op::Tanh(c) => (Some(c), None),
    }
}

/// A node is well formed at position `i` when all of its operands lie
/// strictly below `i`, and a `Pow` node's exponent operand is a leaf.
pub open spec fn node_wf(s: Seq<Node>, i: int) -> bool {
    match s[i].op {
        Op::Leaf => true,
        Op::Add(l, r) => l < i && r < i,
        Op::Sub(l, r) => l < i && r < i,
        Op::Mul(l, r) => l < i && r < i,
        Op::Div(l, r) => l < i && r < i,
        Op::Pow(l, r) => l < i && r < i && s[r as int].op is Leaf,
        Op::Exp(c) => c < i,
        Op::Tanh(c) => c < i,
    }
}

/// Every node's operands lie strictly below it: the graph is a DAG, and any
/// walk along child edges strictly decreases the index.
pub open spec fn graph_wf(s: Seq<Node>) -> bool {
    forall|i: int| 0 <= i < s.len() ==> #[trigger] node_wf(s, i)
}

/// A fresh leaf holding `value`, with a zeroed gradient accumulator.
pub open spec fn leaf_node(value: u64) -> Node {
    Node { value, grad: POS_ZERO_BITS, op: Op::Leaf }
}

/// The node appended by `add`: its value is the sum of its operands' values.
pub open spec fn add_node(s: Seq<Node>, l: usize, r: usize) -> Node {
    Node {
        value: add_bits(s[l as int].value, s[r as int].value),
        grad: POS_ZERO_BITS,
        op: Op::Add(l, r),
    }
}

/// The node appended by `sub`.
pub open spec fn sub_node(s: Seq<Node>, l: usize, r: usize) -> Node {
    Node {
        value: sub_bits(s[l as int].value, s[r as int].value),
        grad: POS_ZERO_BITS,
        op: Op::Sub(l, r),
    }
}

/// The node appended by `mul`.
pub open spec fn mul_node(s: Seq<Node>, l: usize, r: usize) -> Node {
    Node {
        value: mul_bits(s[l as int].value, s[r as int].value),
        grad: POS_ZERO_BITS,
        op: Op::Mul(l, r),
    }
}

/// The node appended by `div`.
pub open spec fn div_node(s: Seq<Node>, l: usize, r: usize) -> Node {
    Node {
        value: div_bits(s[l as int].value, s[r as int].value),
        grad: POS_ZERO_BITS,
        op: Op::Div(l, r),
    }
}

/// The node appended by `powf`, after its exponent leaf.
pub open spec fn pow_node(s: Seq<Node>, l: usize, r: usize) -> Node {
    Node {
        value: pow_bits(s[l as int].value, s[r as int].value),
        grad: POS_ZERO_BITS,
        op: Op::Pow(l, r),
    }
}

/// The node appended by `exp`.
pub open spec fn exp_node(s: Seq<Node>, c: usize) -> Node {
    Node { value: exp_bits(s[c as int].value), grad: POS_ZERO_BITS, op: Op::Exp(c) }
}

/// The node appended by `tanh`.
pub open spec fn tanh_node(s: Seq<Node>, c: usize) -> Node {
    Node { value: tanh_bits(s[c as int].value), grad: POS_ZERO_BITS, op: Op::Tanh(c) }
}

/// The arena that owns every node. Scalars are indices into it.
pub struct Graph {
    nodes: Vec<Node>,
}

impl View for Graph {
    type V = Seq<Node>;

    closed spec fn view(&self) -> Seq<Node> {
        self.nodes@
    }
}

impl Graph {
    /// An empty graph. An empty graph is trivially well formed.
    pub fn new() -> (g: Graph)
        ensures
            g@ == Seq::<Node>::empty(),
            graph_wf(g@),
    {
        Graph { nodes: Vec::new() }
    }

    /// The number of nodes allocated so far.
    pub fn len(&self) -> (n: usize)
        ensures
            n == self@.len(),
    {
        self.nodes.len()
    }

    pub(crate) fn node_at(&self, i: usize) -> (n: Node)
        requires
            i < self@.len(),
        ensures
            n == self@[i as int],
    {
        self.nodes[i]
    }

    pub(crate) fn set_node(&mut self, i: usize, n: Node)
        requires
            i < old(self)@.len(),
        ensures
            final(self)@ == old(self)@.update(i as int, n),
    {
        self.nodes[i] = n;
    }

    pub(crate) fn push_node(&mut self, n: Node)
        ensures
            final(self)@ == old(self)@.push(n),
    {
        self.nodes.push(n);
    }
}

/// A handle on one node of a graph: the engine's scalar.
#[derive(Clone, Copy, PartialEq, Eq, Structural)]
pub struct Scalar {
    pub id: usize,
}

/// Appending a node whose operands lie below the old length keeps the graph
/// well formed.
proof fn lemma_push_wf(s: Seq<Node>, n: Node)
    requires
        graph_wf(s),
        node_wf(s.push(n), s.len() as int),
    ensures
        graph_wf(s.push(n)),
{
    let t = s.push(n);
    assert forall|i: int| 0 <= i < t.len() implies #[trigger] node_wf(t, i) by {
        if i < s.len() {
            assert(node_wf(s, i));
        }
    }
}

impl Scalar {
    /// A new leaf node holding `value` (a binary64 bit pattern), with
    /// gradient zero.
    pub fn new(g: &mut Graph, value: u64) -> (r: Scalar)
        ensures
            final(g)@ == old(g)@.push(leaf_node(value)),
            r.id == old(g)@.len(),
            graph_wf(old(g)@) ==> graph_wf(final(g)@),
    {
        let id = g.len();
        g.push_node(Node { value, grad: POS_ZERO_BITS, op: Op::Leaf });
        proof {
            if graph_wf(old(g)@) {
                lemma_push_wf(old(g)@, leaf_node(value));
            }
        }
        Scalar { id }
    }

    /// This node's value.
    pub fn data(&self, g: &Graph) -> (r: u64)
        requires
            self.id < g@.len(),
        ensures
            r == g@[self.id as int].value,
    {
        g.node_at(self.id).value
    }

    /// This node's accumulated gradient.
    pub fn grad(&self, g: &Graph) -> (r: u64)
        requires
            self.id < g@.len(),
        ensures
            r == g@[self.id as int].grad,
    {
        g.node_at(self.id).grad
    }

    /// Resets this node's gradient accumulator to zero; no other node is
    /// touched. Call it on every trainable parameter before a fresh reverse
    /// pass.
    pub fn zero_grad(&self, g: &mut Graph)
        requires
            self.id < old(g)@.len(),
        ensures
            final(g)@ == old(g)@.update(
                self.id as int,
                (Node { grad: POS_ZERO_BITS, ..old(g)@[self.id as int] }),
            ),
            graph_wf(old(g)@) ==> graph_wf(final(g)@),
    {
        let mut n = g.node_at(self.id);
        n.grad = POS_ZERO_BITS;
        g.set_node(self.id, n);
        proof {
            if graph_wf(old(g)@) {
                lemma_update_same_op_wf(old(g)@, g@);
            }
        }
    }

    /// Overwrites this node's value, leaving its gradient and operands alone;
    /// the training loop uses it to move a parameter against its gradient.
    pub fn set_data(&self, g: &mut Graph, value: u64)
        requires
            self.id < old(g)@.len(),
        ensures
            final(g)@ == old(g)@.update(self.id as int, (Node { value, ..old(g)@[self.id as int] })),
            graph_wf(old(g)@) ==> graph_wf(final(g)@),
    {
        let mut n = g.node_at(self.id);
        n.value = value;
        g.set_node(self.id, n);
        proof {
            if graph_wf(old(g)@) {
                lemma_update_same_op_wf(old(g)@, g@);
            }
        }
    }

    /// The sum of two scalars: appends a node whose value is the binary64 sum
    /// of the operands' values and whose children are `[self, other]`.
    pub fn add(&self, g: &mut Graph, other: &Scalar) -> (r: Scalar)
        requires
            self.id < old(g)@.len(),
            other.id < old(g)@.len(),
        ensures
            final(g)@ == old(g)@.push(add_node(old(g)@, self.id, other.id)),
            r.id == old(g)@.len(),
            graph_wf(old(g)@) ==> graph_wf(final(g)@),
    {
        let id = g.len();
        let value = fadd(self.data(g), other.data(g));
        g.push_node(Node { value, grad: POS_ZERO_BITS, op: Op::Add(self.id, other.id) });
        proof {
            if graph_wf(old(g)@) {
                lemma_push_wf(old(g)@, add_node(old(g)@, self.id, other.id));
            }
        }
        Scalar { id }
    }

    /// The difference of two scalars.
    pub fn sub(&self, g: &mut Graph, other: &Scalar) -> (r: Scalar)
        requires
            self.id < old(g)@.len(),
            other.id < old(g)@.len(),
        ensures
            final(g)@ == old(g)@.push(sub_node(old(g)@, self.id, other.id)),
            r.id == old(g)@.len(),
            graph_wf(old(g)@) ==> graph_wf(final(g)@),
    {
        let id = g.len();
        let value = fsub(self.data(g), other.data(g));
        g.push_node(Node { value, grad: POS_ZERO_BITS, op: Op::Sub(self.id, other.id) });
        proof {
            if graph_wf(old(g)@) {
                lemma_push_wf(old(g)@, sub_node(old(g)@, self.id, other.id));
            }
        }
        Scalar { id }
    }

    /// The product of two scalars.
    pub fn mul(&self, g: &mut Graph, other: &Scalar) -> (r: Scalar)
        requires
            self.id < old(g)@.len(),
            other.id < old(g)@.len(),
        ensures
            final(g)@ == old(g)@.push(mul_node(old(g)@, self.id, other.id)),
            r.id == old(g)@.len(),
            graph_wf(old(g)@) ==> graph_wf(final(g)@),
    {
        let id = g.len();
        let value = fmul(self.data(g), other.data(g));
        g.push_node(Node { value, grad: POS_ZERO_BITS, op: Op::Mul(self.id, other.id) });
        proof {
            if graph_wf(old(g)@) {
                lemma_push_wf(old(g)@, mul_node(old(g)@, self.id, other.id));
            }
        }
        Scalar { id }
    }

    /// The quotient of two scalars. A zero-valued denominator is not checked:
    /// it yields a non-finite value and gradient, as binary64 division does.
    pub fn div(&self, g: &mut Graph, other: &Scalar) -> (r: Scalar)
        requires
            self.id < old(g)@.len(),
            other.id < old(g)@.len(),
        ensures
            final(g)@ == old(g)@.push(div_node(old(g)@, self.id, other.id)),
            r.id == old(g)@.len(),
            graph_wf(old(g)@) ==> graph_wf(final(g)@),
    {
        let id = g.len();
        let value = fdiv(self.data(g), other.data(g));
        g.push_node(Node { value, grad: POS_ZERO_BITS, op: Op::Div(self.id, other.id) });
        proof {
            if graph_wf(old(g)@) {
                lemma_push_wf(old(g)@, div_node(old(g)@, self.id, other.id));
            }
        }
        Scalar { id }
    }

    /// The sum of a scalar and a raw constant: the constant is wrapped as an
    /// anonymous leaf, then added.
    pub fn add_const(&self, g: &mut Graph, c: u64) -> (r: Scalar)
        requires
            self.id < old(g)@.len(),
        ensures
            final(g)@ == old(g)@.push(leaf_node(c)).push(
                add_node(old(g)@.push(leaf_node(c)), self.id, old(g)@.len() as usize),
            ),
            r.id == old(g)@.len() + 1,
            graph_wf(old(g)@) ==> graph_wf(final(g)@),
    {
        let k = Scalar::new(g, c);
        self.add(g, &k)
    }

    /// The difference of a scalar and a raw constant.
    pub fn sub_const(&self, g: &mut Graph, c: u64) -> (r: Scalar)
        requires
            self.id < old(g)@.len(),
        ensures
            final(g)@ == old(g)@.push(leaf_node(c)).push(
                sub_node(old(g)@.push(leaf_node(c)), self.id, old(g)@.len() as usize),
            ),
            r.id == old(g)@.len() + 1,
            graph_wf(old(g)@) ==> graph_wf(final(g)@),
    {
        let k = Scalar::new(g, c);
        self.sub(g, &k)
    }

    /// The product of a scalar and a raw constant.
    pub fn mul_const(&self, g: &mut Graph, c: u64) -> (r: Scalar)
        requires
            self.id < old(g)@.len(),
        ensures
            final(g)@ == old(g)@.push(leaf_node(c)).push(
                mul_node(old(g)@.push(leaf_node(c)), self.id, old(g)@.len() as usize),
            ),
            r.id == old(g)@.len() + 1,
            graph_wf(old(g)@) ==> graph_wf(final(g)@),
    {
        let k = Scalar::new(g, c);
        self.mul(g, &k)
    }

    /// The quotient of a scalar and a raw constant.
    pub fn div_const(&self, g: &mut Graph, c: u64) -> (r: Scalar)
        requires
            self.id < old(g)@.len(),
        ensures
            final(g)@ == old(g)@.push(leaf_node(c)).push(
                div_node(old(g)@.push(leaf_node(c)), self.id, old(g)@.len() as usize),
            ),
            r.id == old(g)@.len() + 1,
            graph_wf(old(g)@) ==> graph_wf(final(g)@),
    {
        let k = Scalar::new(g, c);
        self.div(g, &k)
    }

    /// This scalar raised to a constant power: the exponent is stored as a
    /// constant leaf in the second child position, so the binary rule table
    /// still applies.
    pub fn powf(&self, g: &mut Graph, power: u64) -> (r: Scalar)
        requires
            self.id < old(g)@.len(),
        ensures
            final(g)@ == old(g)@.push(leaf_node(power)).push(
                pow_node(old(g)@.push(leaf_node(power)), self.id, old(g)@.len() as usize),
            ),
            r.id == old(g)@.len() + 1,
            graph_wf(old(g)@) ==> graph_wf(final(g)@),
    {
        let e = Scalar::new(g, power);
        let id = g.len();
        let value = fpow(self.data(g), e.data(g));
        g.push_node(Node { value, grad: POS_ZERO_BITS, op: Op::Pow(self.id, e.id) });
        proof {
            let mid = old(g)@.push(leaf_node(power));
            if graph_wf(old(g)@) {
                lemma_push_wf(old(g)@, leaf_node(power));
                lemma_push_wf(mid, pow_node(mid, self.id, e.id));
            }
        }
        Scalar { id }
    }

    /// The exponential of this scalar.
    pub fn exp(&self, g: &mut Graph) -> (r: Scalar)
        requires
            self.id < old(g)@.len(),
        ensures
            final(g)@ == old(g)@.push(exp_node(old(g)@, self.id)),
            r.id == old(g)@.len(),
            graph_wf(old(g)@) ==> graph_wf(final(g)@),
    {
        let id = g.len();
        let value = fexp(self.data(g));
        g.push_node(Node { value, grad: POS_ZERO_BITS, op: Op::Exp(self.id) });
        proof {
            if graph_wf(old(g)@) {
                lemma_push_wf(old(g)@, exp_node(old(g)@, self.id));
            }
        }
        Scalar { id }
    }

    /// The hyperbolic tangent of this scalar.
    pub fn tanh(&self, g: &mut Graph) -> (r: Scalar)
        requires
            self.id < old(g)@.len(),
        ensures
            final(g)@ == old(g)@.push(tanh_node(old(g)@, self.id)),
            r.id == old(g)@.len(),
            graph_wf(old(g)@) ==> graph_wf(final(g)@),
    {
        let id = g.len();
        let value = ftanh(self.data(g));
        g.push_node(Node { value, grad: POS_ZERO_BITS, op: Op::Tanh(self.id) });
        proof {
            if graph_wf(old(g)@) {
                lemma_push_wf(old(g)@, tanh_node(old(g)@, self.id));
            }
        }
        Scalar { id }
    }
}

/// Replacing a node by one with the same operator keeps the graph well
/// formed.
pub(crate) proof fn lemma_update_same_op_wf(s: Seq<Node>, t: Seq<Node>)
    requires
        graph_wf(s),
        s.len() == t.len(),
        forall|i: int| 0 <= i < s.len() ==> s[i].op == #[trigger] t[i].op,
    ensures
        graph_wf(t),
{
    assert forall|i: int| 0 <= i < t.len() implies #[trigger] node_wf(t, i) by {
        assert(node_wf(s, i));
    }
}

} // verus!

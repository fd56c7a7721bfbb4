//! A minimal feed-forward layer stack built on the engine: neurons, linear
//! layers, a `tanh` activation layer, and a sequential container. This layer
//! adds no graph-construction logic of its own; it only combines scalars
//! through the engine's operations. Randomness stays outside: a caller hands
//! `new` the initial weight values it has drawn.

use vstd::prelude::*;
use crate::arith::{add_bits, mul_bits, tanh_bits, POS_ZERO_BITS};
use crate::graph::{add_node, graph_wf, leaf_node, mul_node, tanh_node, Graph, Node, Scalar};

verus! {

/// The value of a neuron's output node: the bias, plus each weight times the
/// matching input, folded left to right.
pub open spec fn dot_value(s: Seq<Node>, ws: Seq<Scalar>, xs: Seq<Scalar>, b: u64, k: int) -> u64
    decreases k,
{
    if k <= 0 {
        b
    } else {
        add_bits(
            dot_value(s, ws, xs, b, k - 1),
            mul_bits(s[ws[k - 1].id as int].value, s[xs[k - 1].id as int].value),
        )
    }
}

/// `dot_value` reads only the nodes below `n`; two graphs that agree there
/// give the same fold.
proof fn lemma_dot_value_stable(
    s1: Seq<Node>,
    s2: Seq<Node>,
    ws: Seq<Scalar>,
    xs: Seq<Scalar>,
    b: u64,
    n: int,
    k: int,
)
    requires
        n <= s1.len(),
        n <= s2.len(),
        forall|j: int| 0 <= j < n ==> s1[j] == s2[j],
        forall|p: int| 0 <= p < ws.len() ==> #[trigger] ws[p].id < n,
        forall|p: int| 0 <= p < xs.len() ==> #[trigger] xs[p].id < n,
        k <= ws.len(),
        k <= xs.len(),
    ensures
        dot_value(s1, ws, xs, b, k) == dot_value(s2, ws, xs, b, k),
    decreases k,
{
    if k > 0 {
        lemma_dot_value_stable(s1, s2, ws, xs, b, n, k - 1);
    }
}

/// The graph and the output index left by one neuron's forward pass over the
/// first `k` inputs: a fresh leaf copying the bias value, then, input by
/// input, one product node and one running-sum node.
pub open spec fn neuron_forward_model(
    s: Seq<Node>,
    ws: Seq<Scalar>,
    xs: Seq<Scalar>,
    b: u64,
    k: int,
) -> (Seq<Node>, usize)
    decreases k,
{
    if k <= 0 {
        (s.push(leaf_node(b)), s.len() as usize)
    } else {
        let m = neuron_forward_model(s, ws, xs, b, k - 1);
        let s1 = m.0.push(mul_node(m.0, ws[k - 1].id, xs[k - 1].id));
        (s1.push(add_node(s1, m.1, (s1.len() - 1) as usize)), s1.len() as usize)
    }
}

/// One neuron: a scalar weight per input and a bias, all leaves of the
/// graph.
pub struct Neuron {
    pub weights: Vec<Scalar>,
    pub bias: Scalar,
}

/// Every parameter of the neuron is a node of a graph of length `glen`.
pub open spec fn neuron_wf(n: Neuron, glen: int) -> bool {
    &&& forall|p: int| 0 <= p < n.weights@.len() ==> #[trigger] n.weights@[p].id < glen
    &&& n.bias.id < glen
}

/// Node `j` holds one of the neuron's parameters.
pub open spec fn neuron_owns(n: Neuron, j: int) -> bool {
    ||| n.bias.id == j
    ||| exists|p: int| 0 <= p < n.weights@.len() && #[trigger] n.weights@[p].id == j
}

impl Neuron {
    /// A neuron over `ws.len()` inputs: appends one leaf per weight value,
    /// then one for the bias. The caller draws the values; nothing here is
    /// random.
    pub fn new(g: &mut Graph, ws: &Vec<u64>, b: u64) -> (r: Neuron)
        ensures
            final(g)@ == old(g)@ + Seq::new(ws@.len(), |j: int| leaf_node(ws@[j])).push(
                leaf_node(b),
            ),
            r.weights@.len() == ws@.len(),
            forall|p: int| 0 <= p < ws@.len() ==> #[trigger] r.weights@[p].id == old(g)@.len() + p,
            r.bias.id == old(g)@.len() + ws@.len(),
            neuron_wf(r, final(g)@.len() as int),
            graph_wf(old(g)@) ==> graph_wf(final(g)@),
    {
        let ghost s0 = g@;
        let mut weights: Vec<Scalar> = Vec::new();
        let mut i: usize = 0;
        while i < ws.len()
            invariant
                i <= ws@.len(),
                weights@.len() == i,
                g@ == s0 + Seq::new(i as nat, |j: int| leaf_node(ws@[j])),
                forall|p: int| 0 <= p < i ==> #[trigger] weights@[p].id == s0.len() + p,
                graph_wf(s0) ==> graph_wf(g@),
            decreases ws@.len() - i,
        {
            let w = Scalar::new(g, ws[i]);
            weights.push(w);
            i = i + 1;
            proof {
                assert(g@ =~= s0 + Seq::new(i as nat, |j: int| leaf_node(ws@[j])));
            }
        }
        let bias = Scalar::new(g, b);
        proof {
            assert(g@ =~= s0 + Seq::new(ws@.len(), |j: int| leaf_node(ws@[j])).push(leaf_node(b)));
        }
        Neuron { weights, bias }
    }

    /// The forward pass of one neuron: a fresh leaf copying the bias value,
    /// then one multiply and one add per input. The output node's value is
    /// exactly the left-to-right fold of the products onto the bias.
    pub fn forward(&self, g: &mut Graph, x: &Vec<Scalar>) -> (r: Scalar)
        requires
            graph_wf(old(g)@),
            neuron_wf(*self, old(g)@.len() as int),
            x@.len() == self.weights@.len(),
            forall|p: int| 0 <= p < x@.len() ==> #[trigger] x@[p].id < old(g)@.len(),
        ensures
            old(g)@.len() <= final(g)@.len(),
            forall|j: int| 0 <= j < old(g)@.len() ==> final(g)@[j] == old(g)@[j],
            graph_wf(final(g)@),
            r.id < final(g)@.len(),
            final(g)@ == neuron_forward_model(
                old(g)@,
                self.weights@,
                x@,
                old(g)@[self.bias.id as int].value,
                x@.len() as int,
            ).0,
            r.id == neuron_forward_model(
                old(g)@,
                self.weights@,
                x@,
                old(g)@[self.bias.id as int].value,
                x@.len() as int,
            ).1,
            final(g)@[r.id as int].value == dot_value(
                old(g)@,
                self.weights@,
                x@,
                old(g)@[self.bias.id as int].value,
                x@.len() as int,
            ),
    {
        let ghost s0 = g@;
        let ghost n0 = g@.len();
        let b = self.bias.data(g);
        let mut out = Scalar::new(g, b);
        let mut i: usize = 0;
        while i < x.len()
            invariant
                i <= x@.len(),
                x@.len() == self.weights@.len(),
                n0 <= g@.len(),
                forall|j: int| 0 <= j < n0 ==> g@[j] == s0[j],
                s0.len() == n0,
                graph_wf(g@),
                neuron_wf(*self, n0 as int),
                forall|p: int| 0 <= p < x@.len() ==> #[trigger] x@[p].id < n0,
                out.id < g@.len(),
                g@ == neuron_forward_model(s0, self.weights@, x@, s0[self.bias.id as int].value, i as int).0,
                out.id == neuron_forward_model(s0, self.weights@, x@, s0[self.bias.id as int].value, i as int).1,
                g@[out.id as int].value == dot_value(s0, self.weights@, x@, s0[self.bias.id as int].value, i as int),
            decreases x@.len() - i,
        {
            let ghost s_pre = g@;
            let prod = self.weights[i].mul(g, &x[i]);
            let next = out.add(g, &prod);
            proof {
                assert(g@[prod.id as int].value == mul_bits(
                    s0[self.weights@[i as int].id as int].value,
                    s0[x@[i as int].id as int].value,
                ));
                assert(g@[next.id as int].value == add_bits(
                    dot_value(s0, self.weights@, x@, s0[self.bias.id as int].value, i as int),
                    mul_bits(
                        s0[self.weights@[i as int].id as int].value,
                        s0[x@[i as int].id as int].value,
                    ),
                ));
            }
            out = next;
            i = i + 1;
        }
        out
    }

    /// Resets the gradient accumulator of every parameter of this neuron,
    /// and of nothing else.
    pub fn zero_grad(&self, g: &mut Graph)
        requires
            neuron_wf(*self, old(g)@.len() as int),
        ensures
            final(g)@.len() == old(g)@.len(),
            forall|j: int|
                0 <= j < old(g)@.len() ==> final(g)@[j] == (if neuron_owns(*self, j) {
                    (Node { grad: POS_ZERO_BITS, ..old(g)@[j] })
                } else {
                    old(g)@[j]
                }),
            graph_wf(old(g)@) ==> graph_wf(final(g)@),
    {
        let ghost s0 = g@;
        let mut i: usize = 0;
        while i < self.weights.len()
            invariant
                i <= self.weights@.len(),
                g@.len() == s0.len(),
                neuron_wf(*self, s0.len() as int),
                forall|j: int|
                    0 <= j < s0.len() ==> g@[j] == (if exists|p: int|
                        0 <= p < i && #[trigger] self.weights@[p].id == j {
                        (Node { grad: POS_ZERO_BITS, ..s0[j] })
                    } else {
                        s0[j]
                    }),
                graph_wf(s0) ==> graph_wf(g@),
            decreases self.weights@.len() - i,
        {
            let ghost g_pre = g@;
            self.weights[i].zero_grad(g);
            i = i + 1;
            proof {
                assert forall|j: int| 0 <= j < s0.len() implies g@[j] == (if exists|p: int|
                    0 <= p < i && #[trigger] self.weights@[p].id == j {
                    (Node { grad: POS_ZERO_BITS, ..s0[j] })
                } else {
                    s0[j]
                }) by {
                    let jid = self.weights@[i - 1].id as int;
                    if j == jid {
                        assert(self.weights@[i - 1].id == j);
                    } else {
                        assert(g@[j] == g_pre[j]);
                        assert forall|p: int|
                            0 <= p < i && #[trigger] self.weights@[p].id == j implies p
                            < i - 1 by {}
                    }
                }
            }
        }
        self.bias.zero_grad(g);
        proof {
            assert forall|j: int| 0 <= j < s0.len() implies g@[j] == (if neuron_owns(*self, j) {
                (Node { grad: POS_ZERO_BITS, ..s0[j] })
            } else {
                s0[j]
            }) by {}
        }
    }

    /// Every parameter of this neuron: the weights in order, then the bias.
    pub fn parameters(&self) -> (r: Vec<Scalar>)
        ensures
            r@ == self.weights@.push(self.bias),
    {
        let mut out = self.weights.clone();
        out.push(self.bias);
        proof {
            assert(out@ =~= self.weights@.push(self.bias));
        }
        out
    }
}

/// The graph and the output handles left by a linear layer's forward pass
/// over its first `k` neurons: each neuron's forward pass in turn, each
/// reading its bias value from the graph as it stands when its turn comes.
pub open spec fn linear_forward_model(s: Seq<Node>, ns: Seq<Neuron>, xs: Seq<Scalar>, k: int) -> (
    Seq<Node>,
    Seq<Scalar>,
)
    decreases k,
{
    if k <= 0 {
        (s, Seq::empty())
    } else {
        let m = linear_forward_model(s, ns, xs, k - 1);
        let nm = neuron_forward_model(
            m.0,
            ns[k - 1].weights@,
            xs,
            m.0[ns[k - 1].bias.id as int].value,
            xs.len() as int,
        );
        (nm.0, m.1.push(Scalar { id: nm.1 }))
    }
}

/// A linear layer: one neuron per output.
pub struct Linear {
    pub neurons: Vec<Neuron>,
}

/// Every parameter of every neuron is a node of a graph of length `glen`.
pub open spec fn linear_wf(l: Linear, glen: int) -> bool {
    forall|k: int| 0 <= k < l.neurons@.len() ==> neuron_wf(#[trigger] l.neurons@[k], glen)
}

/// A neuron well formed for a graph stays well formed as the graph grows.
proof fn lemma_neuron_wf_grow(n: Neuron, a: int, b: int)
    requires
        neuron_wf(n, a),
        a <= b,
    ensures
        neuron_wf(n, b),
{
}

/// Node `j` holds a parameter of one of the layer's neurons.
pub open spec fn linear_owns(l: Linear, j: int) -> bool {
    exists|k: int| 0 <= k < l.neurons@.len() && neuron_owns(#[trigger] l.neurons@[k], j)
}

/// The layer accepts inputs of length `n`: every neuron has one weight per
/// input.
pub open spec fn linear_accepts(l: Linear, n: nat) -> bool {
    forall|k: int| 0 <= k < l.neurons@.len() ==> (#[trigger] l.neurons@[k]).weights@.len() == n
}

impl Linear {
    /// A linear layer from drawn initial values: row `k` of `rows` holds the
    /// weights of neuron `k`, and `biases[k]` its bias. Appends the
    /// parameters as leaves holding exactly those values.
    pub fn new(g: &mut Graph, rows: &Vec<Vec<u64>>, biases: &Vec<u64>) -> (r: Linear)
        requires
            graph_wf(old(g)@),
            rows@.len() == biases@.len(),
        ensures
            old(g)@.len() <= final(g)@.len(),
            forall|j: int| 0 <= j < old(g)@.len() ==> final(g)@[j] == old(g)@[j],
            graph_wf(final(g)@),
            r.neurons@.len() == rows@.len(),
            linear_wf(r, final(g)@.len() as int),
            forall|k: int|
                0 <= k < rows@.len() ==> (#[trigger] r.neurons@[k]).weights@.len()
                    == rows@[k]@.len(),
            forall|k: int, p: int|
                0 <= k < rows@.len() && 0 <= p < rows@[k]@.len() ==> final(g)@[(
                #[trigger] r.neurons@[k].weights@[p]).id as int].value == rows@[k]@[p],
            forall|k: int|
                0 <= k < rows@.len() ==> final(g)@[(#[trigger] r.neurons@[k]).bias.id as int].value
                    == biases@[k],
    {
        let mut neurons: Vec<Neuron> = Vec::new();
        let mut k: usize = 0;
        while k < rows.len()
            invariant
                k <= rows@.len(),
                rows@.len() == biases@.len(),
                neurons@.len() == k,
                graph_wf(g@),
                old(g)@.len() <= g@.len(),
                forall|j: int| 0 <= j < old(g)@.len() ==> g@[j] == old(g)@[j],
                forall|q: int| 0 <= q < k ==> neuron_wf(#[trigger] neurons@[q], g@.len() as int),
                forall|q: int|
                    0 <= q < k ==> (#[trigger] neurons@[q]).weights@.len() == rows@[q]@.len(),
                forall|q: int, p: int|
                    0 <= q < k && 0 <= p < rows@[q]@.len() ==> g@[(
                    #[trigger] neurons@[q].weights@[p]).id as int].value == rows@[q]@[p],
                forall|q: int|
                    0 <= q < k ==> g@[(#[trigger] neurons@[q]).bias.id as int].value == biases@[q],
            decreases rows@.len() - k,
        {
            let ghost s_pre = g@;
            let ghost ns_pre = neurons@;
            let n = Neuron::new(g, &rows[k], biases[k]);
            proof {
                assert forall|p: int| 0 <= p < rows@[k as int]@.len() implies g@[(
                    #[trigger] n.weights@[p]).id as int].value == rows@[k as int]@[p] by {
                    assert(g@[n.weights@[p].id as int] == leaf_node(rows@[k as int]@[p]));
                }
                assert(g@[n.bias.id as int] == leaf_node(biases@[k as int]));
            }
            neurons.push(n);
            k = k + 1;
            proof {
                assert forall|q: int| 0 <= q < k implies neuron_wf(
                    #[trigger] neurons@[q],
                    g@.len() as int,
                ) by {
                    if q < k - 1 {
                        assert(neurons@[q] == ns_pre[q]);
                        assert(neuron_wf(ns_pre[q], s_pre.len() as int));
                        lemma_neuron_wf_grow(neurons@[q], s_pre.len() as int, g@.len() as int);
                    }
                }
                assert forall|q: int, p: int|
                    0 <= q < k - 1 && 0 <= p < rows@[q]@.len() implies g@[(
                    #[trigger] neurons@[q].weights@[p]).id as int].value == rows@[q]@[p] by {
                    assert(neurons@[q] == ns_pre[q]);
                    assert(neuron_wf(ns_pre[q], s_pre.len() as int));
                    assert(g@[ns_pre[q].weights@[p].id as int]
                        == s_pre[ns_pre[q].weights@[p].id as int]);
                }
                assert forall|q: int| 0 <= q < k - 1 implies g@[(
                    #[trigger] neurons@[q]).bias.id as int].value == biases@[q] by {
                    assert(neurons@[q] == ns_pre[q]);
                    assert(neuron_wf(ns_pre[q], s_pre.len() as int));
                    assert(g@[ns_pre[q].bias.id as int] == s_pre[ns_pre[q].bias.id as int]);
                }
            }
        }
        Linear { neurons }
    }

    /// The forward pass of the layer: one output scalar per neuron, each the
    /// exact fold of that neuron's weights against the inputs.
    pub fn forward(&self, g: &mut Graph, x: &Vec<Scalar>) -> (r: Vec<Scalar>)
        requires
            graph_wf(old(g)@),
            linear_wf(*self, old(g)@.len() as int),
            linear_accepts(*self, x@.len()),
            forall|p: int| 0 <= p < x@.len() ==> #[trigger] x@[p].id < old(g)@.len(),
        ensures
            old(g)@.len() <= final(g)@.len(),
            forall|j: int| 0 <= j < old(g)@.len() ==> final(g)@[j] == old(g)@[j],
            graph_wf(final(g)@),
            r@.len() == self.neurons@.len(),
            forall|k: int| 0 <= k < r@.len() ==> (#[trigger] r@[k]).id < final(g)@.len(),
            final(g)@ == linear_forward_model(old(g)@, self.neurons@, x@, self.neurons@.len() as int).0,
            r@ == linear_forward_model(old(g)@, self.neurons@, x@, self.neurons@.len() as int).1,
            forall|k: int|
                0 <= k < r@.len() ==> final(g)@[(#[trigger] r@[k]).id as int].value == dot_value(
                    old(g)@,
                    self.neurons@[k].weights@,
                    x@,
                    old(g)@[self.neurons@[k].bias.id as int].value,
                    x@.len() as int,
                ),
    {
        let ghost s0 = g@;
        let ghost n0 = g@.len();
        let mut out: Vec<Scalar> = Vec::new();
        let mut k: usize = 0;
        while k < self.neurons.len()
            invariant
                k <= self.neurons@.len(),
                out@.len() == k,
                graph_wf(g@),
                n0 <= g@.len(),
                s0.len() == n0,
                forall|j: int| 0 <= j < n0 ==> g@[j] == s0[j],
                linear_wf(*self, n0 as int),
                linear_accepts(*self, x@.len()),
                forall|p: int| 0 <= p < x@.len() ==> #[trigger] x@[p].id < n0,
                forall|q: int| 0 <= q < k ==> (#[trigger] out@[q]).id < g@.len(),
                g@ == linear_forward_model(s0, self.neurons@, x@, k as int).0,
                out@ == linear_forward_model(s0, self.neurons@, x@, k as int).1,
                forall|q: int|
                    0 <= q < k ==> g@[(#[trigger] out@[q]).id as int].value == dot_value(
                        s0,
                        self.neurons@[q].weights@,
                        x@,
                        s0[self.neurons@[q].bias.id as int].value,
                        x@.len() as int,
                    ),
            decreases self.neurons@.len() - k,
        {
            let ghost s_pre = g@;
            let o = self.neurons[k].forward(g, x);
            proof {
                let nk = self.neurons@[k as int];
                lemma_dot_value_stable(
                    s_pre,
                    s0,
                    nk.weights@,
                    x@,
                    s_pre[nk.bias.id as int].value,
                    n0 as int,
                    x@.len() as int,
                );
            }
            out.push(o);
            k = k + 1;
        }
        out
    }

    /// Resets the gradient accumulator of every parameter of this layer, and
    /// of nothing else.
    pub fn zero_grad(&self, g: &mut Graph)
        requires
            linear_wf(*self, old(g)@.len() as int),
        ensures
            final(g)@.len() == old(g)@.len(),
            forall|j: int|
                0 <= j < old(g)@.len() ==> final(g)@[j] == (if linear_owns(*self, j) {
                    (Node { grad: POS_ZERO_BITS, ..old(g)@[j] })
                } else {
                    old(g)@[j]
                }),
            graph_wf(old(g)@) ==> graph_wf(final(g)@),
    {
        let ghost s0 = g@;
        let mut k: usize = 0;
        while k < self.neurons.len()
            invariant
                k <= self.neurons@.len(),
                g@.len() == s0.len(),
                linear_wf(*self, s0.len() as int),
                forall|j: int|
                    0 <= j < s0.len() ==> g@[j] == (if exists|q: int|
                        0 <= q < k && neuron_owns(#[trigger] self.neurons@[q], j) {
                        (Node { grad: POS_ZERO_BITS, ..s0[j] })
                    } else {
                        s0[j]
                    }),
                graph_wf(s0) ==> graph_wf(g@),
            decreases self.neurons@.len() - k,
        {
            let ghost g_pre = g@;
            self.neurons[k].zero_grad(g);
            k = k + 1;
            proof {
                assert forall|j: int| 0 <= j < s0.len() implies g@[j] == (if exists|q: int|
                    0 <= q < k && neuron_owns(#[trigger] self.neurons@[q], j) {
                    (Node { grad: POS_ZERO_BITS, ..s0[j] })
                } else {
                    s0[j]
                }) by {
                    if neuron_owns(self.neurons@[k - 1], j) {
                        assert(neuron_owns(self.neurons@[k - 1], j));
                    } else {
                        assert(g@[j] == g_pre[j]);
                        assert forall|q: int|
                            0 <= q < k && neuron_owns(#[trigger] self.neurons@[q], j) implies q < k
                            - 1 by {}
                    }
                }
            }
        }
    }

    /// Every parameter of the layer, neuron after neuron, weights then bias.
    pub fn parameters(&self, g: &Graph) -> (r: Vec<Scalar>)
        requires
            linear_wf(*self, g@.len() as int),
        ensures
            forall|p: int| 0 <= p < r@.len() ==> (#[trigger] r@[p]).id < g@.len(),
            forall|j: int| #[trigger] linear_owns(*self, j) ==> exists|p: int|
                0 <= p < r@.len() && (#[trigger] r@[p]).id == j,
            forall|p: int| 0 <= p < r@.len() ==> linear_owns(*self, (#[trigger] r@[p]).id as int),
    {
        let mut out: Vec<Scalar> = Vec::new();
        let mut k: usize = 0;
        while k < self.neurons.len()
            invariant
                k <= self.neurons@.len(),
                linear_wf(*self, g@.len() as int),
                forall|p: int| 0 <= p < out@.len() ==> (#[trigger] out@[p]).id < g@.len(),
                forall|q: int, j: int|
                    0 <= q < k && #[trigger] neuron_owns(self.neurons@[q], j) ==> exists|p: int|
                        0 <= p < out@.len() && (#[trigger] out@[p]).id == j,
                forall|p: int|
                    0 <= p < out@.len() ==> linear_owns(*self, (#[trigger] out@[p]).id as int),
            decreases self.neurons@.len() - k,
        {
            let ghost out_pre = out@;
            let mut ps = self.neurons[k].parameters();
            out.append(&mut ps);
            proof {
                let nk = self.neurons@[k as int];
                assert(out@ == out_pre + nk.weights@.push(nk.bias));
                assert forall|j: int| neuron_owns(nk, j) implies exists|p: int|
                    0 <= p < out@.len() && (#[trigger] out@[p]).id == j by {
                    if nk.bias.id == j {
                        assert(out@[out@.len() - 1].id == j);
                    } else {
                        let w = choose|w: int| 0 <= w < nk.weights@.len() && nk.weights@[w].id == j;
                        assert(out@[out_pre.len() + w].id == j);
                    }
                }
                assert forall|p: int|
                    0 <= p < out@.len() implies linear_owns(*self, (#[trigger] out@[p]).id as int) by {
                    if p >= out_pre.len() {
                        let q = p - out_pre.len();
                        if q < nk.weights@.len() {
                            assert(neuron_owns(nk, out@[p].id as int));
                        } else {
                            assert(out@[p] == nk.bias);
                            assert(neuron_owns(nk, out@[p].id as int));
                        }
                    }
                }
                assert forall|q: int, j: int|
                    0 <= q < k + 1 && #[trigger] neuron_owns(self.neurons@[q], j) implies exists|
                    p: int,
                | 0 <= p < out@.len() && (#[trigger] out@[p]).id == j by {
                    if q < k {
                        let p0 = choose|p: int| 0 <= p < out_pre.len() && out_pre[p].id == j;
                        assert(out@[p0].id == j);
                    } else {
                        assert(neuron_owns(nk, j));
                    }
                }
            }
            k = k + 1;
        }
        out
    }
}

/// The graph and the output handles left by the activation layer over the
/// first `k` inputs: one `tanh` node per element, in order.
pub open spec fn tanh_forward_model(s: Seq<Node>, xs: Seq<Scalar>, k: int) -> (Seq<Node>, Seq<
    Scalar,
>)
    decreases k,
{
    if k <= 0 {
        (s, Seq::empty())
    } else {
        let m = tanh_forward_model(s, xs, k - 1);
        (
            m.0.push(tanh_node(m.0, xs[k - 1].id)),
            m.1.push(Scalar { id: m.0.len() as usize }),
        )
    }
}

/// The activation layer: `tanh` applied element by element. It has no
/// parameters of its own.
pub struct Tanh {}

impl Tanh {
    /// A fresh activation layer.
    pub fn new() -> (r: Box<Tanh>) {
        Box::new(Tanh {})
    }

    /// Applies `tanh` to every input, appending one node per element.
    pub fn forward(&self, g: &mut Graph, x: &Vec<Scalar>) -> (r: Vec<Scalar>)
        requires
            graph_wf(old(g)@),
            forall|p: int| 0 <= p < x@.len() ==> #[trigger] x@[p].id < old(g)@.len(),
        ensures
            old(g)@.len() <= final(g)@.len(),
            forall|j: int| 0 <= j < old(g)@.len() ==> final(g)@[j] == old(g)@[j],
            graph_wf(final(g)@),
            r@.len() == x@.len(),
            forall|k: int| 0 <= k < r@.len() ==> (#[trigger] r@[k]).id < final(g)@.len(),
            final(g)@ == tanh_forward_model(old(g)@, x@, x@.len() as int).0,
            r@ == tanh_forward_model(old(g)@, x@, x@.len() as int).1,
            forall|k: int|
                0 <= k < r@.len() ==> final(g)@[(#[trigger] r@[k]).id as int].value == tanh_bits(
                    old(g)@[x@[k].id as int].value,
                ),
    {
        let ghost s0 = g@;
        let ghost n0 = g@.len();
        let mut out: Vec<Scalar> = Vec::new();
        let mut k: usize = 0;
        while k < x.len()
            invariant
                k <= x@.len(),
                out@.len() == k,
                graph_wf(g@),
                n0 <= g@.len(),
                s0.len() == n0,
                forall|j: int| 0 <= j < n0 ==> g@[j] == s0[j],
                forall|p: int| 0 <= p < x@.len() ==> #[trigger] x@[p].id < n0,
                forall|q: int| 0 <= q < k ==> (#[trigger] out@[q]).id < g@.len(),
                g@ == tanh_forward_model(s0, x@, k as int).0,
                out@ == tanh_forward_model(s0, x@, k as int).1,
                forall|q: int|
                    0 <= q < k ==> g@[(#[trigger] out@[q]).id as int].value == tanh_bits(
                        s0[x@[q].id as int].value,
                    ),
            decreases x@.len() - k,
        {
            let o = x[k].tanh(g);
            out.push(o);
            k = k + 1;
        }
        out
    }

    /// The activation layer has no parameters, so there is nothing to reset.
    pub fn zero_grad(&self, g: &mut Graph)
        ensures
            final(g)@ == old(g)@,
    {
    }

    /// The activation layer has no parameters.
    pub fn parameters(&self) -> (r: Vec<Scalar>)
        ensures
            r@ == Seq::<Scalar>::empty(),
    {
        Vec::new()
    }
}

/// One stage of a sequential stack: a linear layer or an activation.
pub enum Layer {
    Linear(Linear),
    Tanh(Tanh),
}

/// Every parameter of the stage is a node of a graph of length `glen`.
pub open spec fn layer_wf(l: Layer, glen: int) -> bool {
    match l {
        Layer::Linear(x) => linear_wf(x, glen),
        Layer::Tanh(_) => true,
    }
}

/// Node `j` holds a parameter of the stage.
pub open spec fn layer_owns(l: Layer, j: int) -> bool {
    match l {
        Layer::Linear(x) => linear_owns(x, j),
        Layer::Tanh(_) => false,
    }
}

/// The stage accepts inputs of width `n`.
pub open spec fn layer_accepts(l: Layer, n: nat) -> bool {
    match l {
        Layer::Linear(x) => linear_accepts(x, n),
        Layer::Tanh(_) => true,
    }
}

/// The width of the stage's output, for inputs of width `n`.
pub open spec fn layer_out_len(l: Layer, n: nat) -> nat {
    match l {
        Layer::Linear(x) => x.neurons@.len(),
        Layer::Tanh(_) => n,
    }
}

/// The graph and the output handles left by one stage's forward pass.
pub open spec fn layer_forward_model(s: Seq<Node>, l: Layer, xs: Seq<Scalar>) -> (Seq<Node>, Seq<
    Scalar,
>) {
    match l {
        Layer::Linear(x) => linear_forward_model(s, x.neurons@, xs, x.neurons@.len() as int),
        Layer::Tanh(_) => tanh_forward_model(s, xs, xs.len() as int),
    }
}

impl Layer {
    /// The forward pass of one stage.
    pub fn forward(&self, g: &mut Graph, x: &Vec<Scalar>) -> (r: Vec<Scalar>)
        requires
            graph_wf(old(g)@),
            layer_wf(*self, old(g)@.len() as int),
            layer_accepts(*self, x@.len()),
            forall|p: int| 0 <= p < x@.len() ==> #[trigger] x@[p].id < old(g)@.len(),
        ensures
            old(g)@.len() <= final(g)@.len(),
            forall|j: int| 0 <= j < old(g)@.len() ==> final(g)@[j] == old(g)@[j],
            graph_wf(final(g)@),
            r@.len() == layer_out_len(*self, x@.len()),
            forall|k: int| 0 <= k < r@.len() ==> (#[trigger] r@[k]).id < final(g)@.len(),
            final(g)@ == layer_forward_model(old(g)@, *self, x@).0,
            r@ == layer_forward_model(old(g)@, *self, x@).1,
            ({
                match *self {
                    Layer::Linear(l) => forall|k: int|
                        0 <= k < r@.len() ==> final(g)@[(#[trigger] r@[k]).id as int].value
                            == dot_value(
                            old(g)@,
                            l.neurons@[k].weights@,
                            x@,
                            old(g)@[l.neurons@[k].bias.id as int].value,
                            x@.len() as int,
                        ),
                    Layer::Tanh(_) => forall|k: int|
                        0 <= k < r@.len() ==> final(g)@[(#[trigger] r@[k]).id as int].value
                            == tanh_bits(old(g)@[x@[k].id as int].value),
                }
            }),
    {
        match self {
            Layer::Linear(l) => l.forward(g, x),
            Layer::Tanh(t) => t.forward(g, x),
        }
    }

    /// Resets the gradient accumulator of every parameter of this stage, and
    /// of nothing else.
    pub fn zero_grad(&self, g: &mut Graph)
        requires
            layer_wf(*self, old(g)@.len() as int),
        ensures
            final(g)@.len() == old(g)@.len(),
            forall|j: int|
                0 <= j < old(g)@.len() ==> final(g)@[j] == (if layer_owns(*self, j) {
                    (Node { grad: POS_ZERO_BITS, ..old(g)@[j] })
                } else {
                    old(g)@[j]
                }),
            graph_wf(old(g)@) ==> graph_wf(final(g)@),
    {
        match self {
            Layer::Linear(l) => l.zero_grad(g),
            Layer::Tanh(t) => t.zero_grad(g),
        }
    }

    /// Every parameter of this stage.
    pub fn parameters(&self, g: &Graph) -> (r: Vec<Scalar>)
        requires
            layer_wf(*self, g@.len() as int),
        ensures
            forall|p: int| 0 <= p < r@.len() ==> (#[trigger] r@[p]).id < g@.len(),
            forall|j: int| #[trigger] layer_owns(*self, j) ==> exists|p: int|
                0 <= p < r@.len() && (#[trigger] r@[p]).id == j,
            forall|p: int| 0 <= p < r@.len() ==> layer_owns(*self, (#[trigger] r@[p]).id as int),
    {
        match self {
            Layer::Linear(l) => l.parameters(g),
            Layer::Tanh(t) => t.parameters(),
        }
    }
}

/// The stack from stage `k` on accepts an input of width `n`.
pub open spec fn stack_accepts(ls: Seq<Layer>, k: int, n: nat) -> bool
    decreases ls.len() - k,
{
    if k < 0 || k >= ls.len() {
        true
    } else {
        layer_accepts(ls[k], n) && stack_accepts(ls, k + 1, layer_out_len(ls[k], n))
    }
}

/// The width that an input of width `n` has after the stages from `k` on.
pub open spec fn stack_out_len(ls: Seq<Layer>, k: int, n: nat) -> nat
    decreases ls.len() - k,
{
    if k < 0 || k >= ls.len() {
        n
    } else {
        stack_out_len(ls, k + 1, layer_out_len(ls[k], n))
    }
}

/// The graph and the output handles left by the stages up to `k`, each fed
/// the previous stage's outputs.
pub open spec fn stack_forward_model(s: Seq<Node>, ls: Seq<Layer>, xs: Seq<Scalar>, k: int) -> (
    Seq<Node>,
    Seq<Scalar>,
)
    decreases k,
{
    if k <= 0 {
        (s, xs)
    } else {
        let m = stack_forward_model(s, ls, xs, k - 1);
        layer_forward_model(m.0, ls[k - 1], m.1)
    }
}

/// Every parameter of every stage is a node of a graph of length `glen`.
pub open spec fn sequential_wf(m: Sequential, glen: int) -> bool {
    forall|k: int| 0 <= k < m.layers@.len() ==> layer_wf(#[trigger] m.layers@[k], glen)
}

/// Node `j` holds a parameter of one of the stages.
pub open spec fn sequential_owns(m: Sequential, j: int) -> bool {
    exists|k: int| 0 <= k < m.layers@.len() && layer_owns(#[trigger] m.layers@[k], j)
}

/// A stack of stages applied in order.
pub struct Sequential {
    pub layers: Vec<Layer>,
}

impl Sequential {
    /// A stack from its stages.
    pub fn new(layers: Vec<Layer>) -> (r: Sequential)
        ensures
            r.layers@ == layers@,
    {
        Sequential { layers }
    }

    /// The forward pass of the whole stack: each stage is fed the previous
    /// stage's outputs.
    pub fn forward(&self, g: &mut Graph, x: &Vec<Scalar>) -> (r: Vec<Scalar>)
        requires
            graph_wf(old(g)@),
            sequential_wf(*self, old(g)@.len() as int),
            stack_accepts(self.layers@, 0, x@.len()),
            forall|p: int| 0 <= p < x@.len() ==> #[trigger] x@[p].id < old(g)@.len(),
        ensures
            old(g)@.len() <= final(g)@.len(),
            forall|j: int| 0 <= j < old(g)@.len() ==> final(g)@[j] == old(g)@[j],
            graph_wf(final(g)@),
            r@.len() == stack_out_len(self.layers@, 0, x@.len()),
            forall|k: int| 0 <= k < r@.len() ==> (#[trigger] r@[k]).id < final(g)@.len(),
            final(g)@ == stack_forward_model(old(g)@, self.layers@, x@, self.layers@.len() as int).0,
            r@ == stack_forward_model(old(g)@, self.layers@, x@, self.layers@.len() as int).1,
    {
        let ghost s0 = g@;
        let ghost n0 = g@.len();
        let mut cur = x.clone();
        proof {
            assert(cur@ =~= x@);
        }
        let mut k: usize = 0;
        while k < self.layers.len()
            invariant
                k <= self.layers@.len(),
                graph_wf(g@),
                n0 <= g@.len(),
                s0.len() == n0,
                forall|j: int| 0 <= j < n0 ==> g@[j] == s0[j],
                sequential_wf(*self, n0 as int),
                stack_accepts(self.layers@, k as int, cur@.len()),
                stack_out_len(self.layers@, k as int, cur@.len()) == stack_out_len(
                    self.layers@,
                    0,
                    x@.len(),
                ),
                forall|p: int| 0 <= p < cur@.len() ==> (#[trigger] cur@[p]).id < g@.len(),
                g@ == stack_forward_model(s0, self.layers@, x@, k as int).0,
                cur@ == stack_forward_model(s0, self.layers@, x@, k as int).1,
            decreases self.layers@.len() - k,
        {
            proof {
                lemma_layer_wf_grow(self.layers@[k as int], n0 as int, g@.len() as int);
            }
            let next = self.layers[k].forward(g, &cur);
            cur = next;
            k = k + 1;
        }
        cur
    }

    /// Resets the gradient accumulator of every parameter of every stage,
    /// and of nothing else.
    pub fn zero_grad(&self, g: &mut Graph)
        requires
            sequential_wf(*self, old(g)@.len() as int),
        ensures
            final(g)@.len() == old(g)@.len(),
            forall|j: int|
                0 <= j < old(g)@.len() ==> final(g)@[j] == (if sequential_owns(*self, j) {
                    (Node { grad: POS_ZERO_BITS, ..old(g)@[j] })
                } else {
                    old(g)@[j]
                }),
            graph_wf(old(g)@) ==> graph_wf(final(g)@),
    {
        let ghost s0 = g@;
        let mut k: usize = 0;
        while k < self.layers.len()
            invariant
                k <= self.layers@.len(),
                g@.len() == s0.len(),
                sequential_wf(*self, s0.len() as int),
                forall|j: int|
                    0 <= j < s0.len() ==> g@[j] == (if exists|q: int|
                        0 <= q < k && layer_owns(#[trigger] self.layers@[q], j) {
                        (Node { grad: POS_ZERO_BITS, ..s0[j] })
                    } else {
                        s0[j]
                    }),
                graph_wf(s0) ==> graph_wf(g@),
            decreases self.layers@.len() - k,
        {
            let ghost g_pre = g@;
            self.layers[k].zero_grad(g);
            k = k + 1;
            proof {
                assert forall|j: int| 0 <= j < s0.len() implies g@[j] == (if exists|q: int|
                    0 <= q < k && layer_owns(#[trigger] self.layers@[q], j) {
                    (Node { grad: POS_ZERO_BITS, ..s0[j] })
                } else {
                    s0[j]
                }) by {
                    if layer_owns(self.layers@[k - 1], j) {
                        assert(layer_owns(self.layers@[k - 1], j));
                    } else {
                        assert(g@[j] == g_pre[j]);
                        assert forall|q: int|
                            0 <= q < k && layer_owns(#[trigger] self.layers@[q], j) implies q < k
                            - 1 by {}
                    }
                }
            }
        }
    }

    /// Every parameter of the stack, stage after stage.
    pub fn parameters(&self, g: &Graph) -> (r: Vec<Scalar>)
        requires
            sequential_wf(*self, g@.len() as int),
        ensures
            forall|p: int| 0 <= p < r@.len() ==> (#[trigger] r@[p]).id < g@.len(),
            forall|j: int| #[trigger] sequential_owns(*self, j) ==> exists|p: int|
                0 <= p < r@.len() && (#[trigger] r@[p]).id == j,
            forall|p: int|
                0 <= p < r@.len() ==> sequential_owns(*self, (#[trigger] r@[p]).id as int),
    {
        let mut out: Vec<Scalar> = Vec::new();
        let mut k: usize = 0;
        while k < self.layers.len()
            invariant
                k <= self.layers@.len(),
                sequential_wf(*self, g@.len() as int),
                forall|p: int| 0 <= p < out@.len() ==> (#[trigger] out@[p]).id < g@.len(),
                forall|q: int, j: int|
                    0 <= q < k && #[trigger] layer_owns(self.layers@[q], j) ==> exists|p: int|
                        0 <= p < out@.len() && (#[trigger] out@[p]).id == j,
                forall|p: int|
                    0 <= p < out@.len() ==> sequential_owns(*self, (#[trigger] out@[p]).id as int),
            decreases self.layers@.len() - k,
        {
            let ghost out_pre = out@;
            let mut ps = self.layers[k].parameters(g);
            let ghost ps_view = ps@;
            out.append(&mut ps);
            proof {
                assert(out@ == out_pre + ps_view);
                assert forall|j: int| #[trigger] layer_owns(self.layers@[k as int], j) implies exists|
                    p: int,
                | 0 <= p < out@.len() && (#[trigger] out@[p]).id == j by {
                    let p0 = choose|p: int| 0 <= p < ps_view.len() && ps_view[p].id == j;
                    assert(out@[out_pre.len() + p0].id == j);
                }
                assert forall|p: int|
                    0 <= p < out@.len() implies sequential_owns(
                    *self,
                    (#[trigger] out@[p]).id as int,
                ) by {
                    if p >= out_pre.len() {
                        assert(layer_owns(self.layers@[k as int], out@[p].id as int));
                    }
                }
                assert forall|q: int, j: int|
                    0 <= q < k + 1 && #[trigger] layer_owns(self.layers@[q], j) implies exists|
                    p: int,
                | 0 <= p < out@.len() && (#[trigger] out@[p]).id == j by {
                    if q < k {
                        let p0 = choose|p: int| 0 <= p < out_pre.len() && out_pre[p].id == j;
                        assert(out@[p0].id == j);
                    }
                }
            }
            k = k + 1;
        }
        out
    }
}

/// A stage well formed for a graph stays well formed as the graph grows.
proof fn lemma_layer_wf_grow(l: Layer, a: int, b: int)
    requires
        layer_wf(l, a),
        a <= b,
    ensures
        layer_wf(l, b),
{
    match l {
        Layer::Linear(x) => {
            assert forall|k: int| 0 <= k < x.neurons@.len() implies neuron_wf(
                #[trigger] x.neurons@[k],
                b,
            ) by {
                lemma_neuron_wf_grow(x.neurons@[k], a, b);
            }
        },
        Layer::Tanh(_) => {},
    }
}

} // verus!

use scalargrad::graph::{Graph, Scalar};

fn bits(x: f64) -> u64 {
    x.to_bits()
}

fn val(b: u64) -> f64 {
    f64::from_bits(b)
}

fn close(a: f64, b: f64, tol: f64) -> bool {
    (a - b).abs() <= tol
}

#[test]
fn add_value_and_gradients() {
    let mut g = Graph::new();
    let a = Scalar::new(&mut g, bits(2.0));
    let b = Scalar::new(&mut g, bits(3.0));
    let c = a.add(&mut g, &b);
    assert_eq!(val(c.data(&g)), 5.0);
    c.backward(&mut g);
    assert_eq!(val(a.grad(&g)), 1.0);
    assert_eq!(val(b.grad(&g)), 1.0);
    assert_eq!(val(c.grad(&g)), 1.0);
}

#[test]
fn sub_value_and_gradients() {
    let mut g = Graph::new();
    let a = Scalar::new(&mut g, bits(5.0));
    let b = Scalar::new(&mut g, bits(3.0));
    let c = a.sub(&mut g, &b);
    assert_eq!(val(c.data(&g)), 2.0);
    c.backward(&mut g);
    assert_eq!(val(a.grad(&g)), 1.0);
    assert_eq!(val(b.grad(&g)), -1.0);
}

#[test]
fn mul_value_and_gradients() {
    let mut g = Graph::new();
    let a = Scalar::new(&mut g, bits(2.0));
    let b = Scalar::new(&mut g, bits(3.0));
    let c = a.mul(&mut g, &b);
    assert_eq!(val(c.data(&g)), 6.0);
    c.backward(&mut g);
    assert_eq!(val(a.grad(&g)), 3.0);
    assert_eq!(val(b.grad(&g)), 2.0);
}

#[test]
fn div_value_and_gradients() {
    let mut g = Graph::new();
    let a = Scalar::new(&mut g, bits(1.0));
    let b = Scalar::new(&mut g, bits(4.0));
    let c = a.div(&mut g, &b);
    assert_eq!(val(c.data(&g)), 0.25);
    c.backward(&mut g);
    // d(a/b)/da = 1/b, d(a/b)/db = -a/b^2
    assert!(close(val(a.grad(&g)), 0.25, 1e-12));
    assert!(close(val(b.grad(&g)), -1.0 / 16.0, 1e-12));
}

#[test]
fn div_by_zero_is_not_an_error() {
    let mut g = Graph::new();
    let a = Scalar::new(&mut g, bits(1.0));
    let b = Scalar::new(&mut g, bits(0.0));
    let c = a.div(&mut g, &b);
    assert!(val(c.data(&g)).is_infinite());
    c.backward(&mut g);
    assert!(val(a.grad(&g)).is_infinite());
}

#[test]
fn exp_value_and_gradient() {
    let mut g = Graph::new();
    let a = Scalar::new(&mut g, bits(1.0));
    let c = a.exp(&mut g);
    assert!(close(val(c.data(&g)), 1.0f64.exp(), 1e-9));
    c.backward(&mut g);
    // d(e^a)/da = e^a, expressed through the already-computed output value
    assert!(close(val(a.grad(&g)), 1.0f64.exp(), 1e-9));
}

#[test]
fn tanh_value_and_gradient() {
    let mut g = Graph::new();
    let a = Scalar::new(&mut g, bits(0.5));
    let c = a.tanh(&mut g);
    assert!(close(val(c.data(&g)), 0.5f64.tanh(), 1e-9));
    c.backward(&mut g);
    let t = 0.5f64.tanh();
    assert!(close(val(a.grad(&g)), 1.0 - t * t, 1e-9));
}

#[test]
fn powf_value_and_gradient() {
    let mut g = Graph::new();
    let a = Scalar::new(&mut g, bits(2.0));
    let c = a.powf(&mut g, bits(3.0));
    assert_eq!(val(c.data(&g)), 8.0);
    c.backward(&mut g);
    // d(a^3)/da = 3 * a^2
    assert!(close(val(a.grad(&g)), 12.0, 1e-9));
}

#[test]
fn constant_operand_overloads() {
    let mut g = Graph::new();
    let a = Scalar::new(&mut g, bits(10.0));
    let s = a.add_const(&mut g, bits(1.5));
    assert_eq!(val(s.data(&g)), 11.5);
    let d = a.sub_const(&mut g, bits(4.0));
    assert_eq!(val(d.data(&g)), 6.0);
    let m = a.mul_const(&mut g, bits(2.0));
    assert_eq!(val(m.data(&g)), 20.0);
    let q = a.div_const(&mut g, bits(4.0));
    assert_eq!(val(q.data(&g)), 2.5);
}

#[test]
fn tanh_chain_rule() {
    let mut g = Graph::new();
    let va = 0.6;
    let vb = 0.4;
    let a = Scalar::new(&mut g, bits(va));
    let b = Scalar::new(&mut g, bits(vb));
    let p = a.mul(&mut g, &b);
    let y = p.tanh(&mut g);
    y.backward(&mut g);
    let t = (va * vb).tanh();
    assert!(close(val(a.grad(&g)), (1.0 - t * t) * vb, 1e-5));
    assert!(close(val(b.grad(&g)), (1.0 - t * t) * va, 1e-5));
}

#[test]
fn shared_subexpression_accumulates() {
    let mut g = Graph::new();
    let x = Scalar::new(&mut g, bits(3.0));
    let sq = x.mul(&mut g, &x);
    let y = sq.add(&mut g, &x);
    y.backward(&mut g);
    // 2 * 3.0 from the squared term plus 1.0 from the linear term: the two
    // uses sum, they do not overwrite each other.
    assert_eq!(val(x.grad(&g)), 7.0);
}

#[test]
fn zero_grad_resets_one_node_only() {
    let mut g = Graph::new();
    let a = Scalar::new(&mut g, bits(2.0));
    let b = Scalar::new(&mut g, bits(3.0));
    let c = a.mul(&mut g, &b);
    c.backward(&mut g);
    assert_eq!(val(a.grad(&g)), 3.0);
    a.zero_grad(&mut g);
    assert_eq!(val(a.grad(&g)), 0.0);
    assert_eq!(val(b.grad(&g)), 2.0);
}

#[test]
fn set_data_changes_value_and_keeps_gradient() {
    let mut g = Graph::new();
    let a = Scalar::new(&mut g, bits(2.0));
    let b = Scalar::new(&mut g, bits(3.0));
    let c = a.mul(&mut g, &b);
    c.backward(&mut g);
    a.set_data(&mut g, bits(1.25));
    assert_eq!(val(a.data(&g)), 1.25);
    assert_eq!(val(a.grad(&g)), 3.0);
}

#[test]
fn repeated_pass_reproduces_gradients() {
    let mut g = Graph::new();
    let a = Scalar::new(&mut g, bits(0.7));
    let b = Scalar::new(&mut g, bits(-1.3));
    let p = a.mul(&mut g, &b);
    let t = p.tanh(&mut g);
    let y = t.add(&mut g, &a);
    let touched = [a, b, p, t, y];
    y.backward(&mut g);
    let first: Vec<u64> = touched.iter().map(|s| s.grad(&g)).collect();
    for s in &touched {
        s.zero_grad(&mut g);
    }
    y.backward(&mut g);
    let second: Vec<u64> = touched.iter().map(|s| s.grad(&g)).collect();
    assert_eq!(first, second);
}

#[test]
fn canonical_neuron_example() {
    let mut g = Graph::new();
    let x1 = Scalar::new(&mut g, bits(2.0));
    let x2 = Scalar::new(&mut g, bits(0.0));
    let w1 = Scalar::new(&mut g, bits(-3.0));
    let w2 = Scalar::new(&mut g, bits(1.0));
    let b = Scalar::new(&mut g, bits(6.8813735870195432));

    let m1 = x1.mul(&mut g, &w1);
    let m2 = x2.mul(&mut g, &w2);
    let s = m1.add(&mut g, &m2);
    let n = s.add(&mut g, &b);
    let n2 = n.mul_const(&mut g, bits(2.0));
    let e = n2.exp(&mut g);
    let num = e.sub_const(&mut g, bits(1.0));
    let den = e.add_const(&mut g, bits(1.0));
    let o = num.div(&mut g, &den);

    o.backward(&mut g);

    assert!(close(val(x1.grad(&g)), -1.5, 1e-5));
    assert!(close(val(x2.grad(&g)), 0.5, 1e-5));
    assert!(close(val(w1.grad(&g)), 1.0, 1e-5));
    assert!(close(val(w2.grad(&g)), 0.0, 1e-5));
}

#[test]
fn graph_len_counts_nodes() {
    let mut g = Graph::new();
    assert_eq!(g.len(), 0);
    let a = Scalar::new(&mut g, bits(1.0));
    assert_eq!(g.len(), 1);
    let _ = a.add(&mut g, &a);
    assert_eq!(g.len(), 2);
    // a constant operand is wrapped as an anonymous leaf: two nodes appear
    let _ = a.add_const(&mut g, bits(2.0));
    assert_eq!(g.len(), 4);
    // powf stores its exponent as a constant leaf child: two nodes appear
    let _ = a.powf(&mut g, bits(2.0));
    assert_eq!(g.len(), 6);
}

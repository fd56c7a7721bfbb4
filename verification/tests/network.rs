use rand::RngExt;
use rand::SeedableRng;
use scalargrad::graph::{Graph, Scalar};
use scalargrad::nn::{Layer, Linear, Neuron, Sequential, Tanh};

fn bits(x: f64) -> u64 {
    x.to_bits()
}

fn val(b: u64) -> f64 {
    f64::from_bits(b)
}

fn close(a: f64, b: f64, tol: f64) -> bool {
    (a - b).abs() <= tol
}

#[test]
fn neuron_forward_is_the_dot_product_plus_bias() {
    let mut g = Graph::new();
    let n = Neuron::new(&mut g, &vec![bits(0.5), bits(-2.0)], bits(1.0));
    let x0 = Scalar::new(&mut g, bits(4.0));
    let x1 = Scalar::new(&mut g, bits(3.0));
    let out = n.forward(&mut g, &vec![x0, x1]);
    // (1.0 + 0.5 * 4.0) + (-2.0) * 3.0
    assert_eq!(val(out.data(&g)), -3.0);
}

#[test]
fn neuron_parameters_lists_weights_then_bias() {
    let mut g = Graph::new();
    let n = Neuron::new(&mut g, &vec![bits(0.5), bits(-2.0)], bits(1.0));
    let ps = n.parameters();
    assert_eq!(ps.len(), 3);
    assert_eq!(val(ps[0].data(&g)), 0.5);
    assert_eq!(val(ps[1].data(&g)), -2.0);
    assert_eq!(val(ps[2].data(&g)), 1.0);
}

#[test]
fn neuron_zero_grad_resets_its_parameters() {
    let mut g = Graph::new();
    let n = Neuron::new(&mut g, &vec![bits(2.0)], bits(1.0));
    let x = Scalar::new(&mut g, bits(3.0));
    let out = n.forward(&mut g, &vec![x]);
    out.backward(&mut g);
    assert_eq!(val(n.weights[0].grad(&g)), 3.0);
    n.zero_grad(&mut g);
    assert_eq!(val(n.weights[0].grad(&g)), 0.0);
    assert_eq!(val(n.bias.grad(&g)), 0.0);
    // the input is not a parameter of the neuron and keeps its gradient
    assert_eq!(val(x.grad(&g)), 2.0);
}

#[test]
fn tanh_layer_maps_each_element() {
    let mut g = Graph::new();
    let a = Scalar::new(&mut g, bits(0.25));
    let b = Scalar::new(&mut g, bits(-1.0));
    let t = Tanh::new();
    let out = t.forward(&mut g, &vec![a, b]);
    assert_eq!(out.len(), 2);
    assert!(close(val(out[0].data(&g)), 0.25f64.tanh(), 1e-9));
    assert!(close(val(out[1].data(&g)), (-1.0f64).tanh(), 1e-9));
}

#[test]
fn linear_layer_holds_the_given_values() {
    let mut g = Graph::new();
    let rows = vec![vec![bits(1.0), bits(2.0)], vec![bits(-1.0), bits(0.5)]];
    let biases = vec![bits(0.25), bits(-0.5)];
    let l = Linear::new(&mut g, &rows, &biases);
    assert_eq!(l.neurons.len(), 2);
    assert_eq!(val(l.neurons[0].weights[1].data(&g)), 2.0);
    assert_eq!(val(l.neurons[1].bias.data(&g)), -0.5);
    let x = vec![Scalar::new(&mut g, bits(1.0)), Scalar::new(&mut g, bits(1.0))];
    let out = l.forward(&mut g, &x);
    assert_eq!(out.len(), 2);
    assert_eq!(val(out[0].data(&g)), 3.25);
    assert_eq!(val(out[1].data(&g)), -1.0);
}

fn random_linear(g: &mut Graph, rng: &mut rand::rngs::StdRng, inputs: usize, outputs: usize) -> Linear {
    let mut rows = Vec::new();
    let mut biases = Vec::new();
    for _ in 0..outputs {
        let mut row = Vec::new();
        for _ in 0..inputs {
            let w: f64 = rng.random_range(-1.0..1.0);
            row.push(bits(w));
        }
        rows.push(row);
        let b: f64 = rng.random_range(-1.0..1.0);
        biases.push(bits(b));
    }
    Linear::new(g, &rows, &biases)
}

#[test]
fn training_fits_the_four_examples() {
    let mut rng = rand::rngs::StdRng::seed_from_u64(7);
    let mut g = Graph::new();

    let model = Sequential::new(vec![
        Layer::Linear(random_linear(&mut g, &mut rng, 3, 4)),
        Layer::Tanh(Tanh { }),
        Layer::Linear(random_linear(&mut g, &mut rng, 4, 4)),
        Layer::Tanh(Tanh { }),
        Layer::Linear(random_linear(&mut g, &mut rng, 4, 1)),
        Layer::Tanh(Tanh { }),
    ]);

    let xs: Vec<Vec<Scalar>> = vec![
        vec![2.0, 3.0, -1.0],
        vec![3.0, -1.0, 0.5],
        vec![0.5, 1.0, 1.0],
        vec![1.0, 1.0, -1.0],
    ]
    .into_iter()
    .map(|row| row.into_iter().map(|v| Scalar::new(&mut g, bits(v))).collect())
    .collect();
    let ys: Vec<Scalar> = vec![1.0, -1.0, -1.0, 1.0]
        .into_iter()
        .map(|v| Scalar::new(&mut g, bits(v)))
        .collect();

    let mut first_loss = f64::NAN;
    let mut last_loss = f64::NAN;
    for step in 0..100 {
        let mut predictions = Vec::new();
        for x in &xs {
            let out = model.forward(&mut g, x);
            predictions.push(out[0]);
        }

        let mut loss = Scalar::new(&mut g, bits(0.0));
        for i in 0..ys.len() {
            let diff = ys[i].sub(&mut g, &predictions[i]);
            let sq = diff.powf(&mut g, bits(2.0));
            loss = loss.add(&mut g, &sq);
        }
        if step == 0 {
            first_loss = val(loss.data(&g));
        }
        last_loss = val(loss.data(&g));

        model.zero_grad(&mut g);
        loss.backward(&mut g);

        for p in model.parameters(&g) {
            let updated = val(p.data(&g)) - 0.1 * val(p.grad(&g));
            p.set_data(&mut g, bits(updated));
        }
    }
    assert!(last_loss < first_loss);

    let targets = [1.0, -1.0, -1.0, 1.0];
    for i in 0..xs.len() {
        let out = model.forward(&mut g, &xs[i]);
        assert!(close(val(out[0].data(&g)), targets[i], 0.1));
    }
}

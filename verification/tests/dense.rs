use dense_layer::layers::kernel;
use dense_layer::layers::partition::Partition;
use dense_layer::layers::{Activation, Dense, Layer};
use dense_layer::tensor::{
    filled, LengthMismatchError, NumT, Shape, ShapeMismatchError, Tensor,
};

/// Double-precision elements.
#[derive(Debug, Clone, Copy, PartialEq)]
struct F(f64);

impl NumT for F {
    fn zero_spec() -> Self {
        F(0.0)
    }
    fn one_spec() -> Self {
        F(1.0)
    }
    fn add_spec(self, rhs: Self) -> Self {
        F(self.0 + rhs.0)
    }
    fn sub_spec(self, rhs: Self) -> Self {
        F(self.0 - rhs.0)
    }
    fn mul_spec(self, rhs: Self) -> Self {
        F(self.0 * rhs.0)
    }
    fn div_spec(self, rhs: Self) -> Self {
        F(self.0 / rhs.0)
    }
    fn neg_spec(self) -> Self {
        F(-self.0)
    }
    fn exp_spec(self) -> Self {
        F(self.0.exp())
    }
    fn lt_spec(self, rhs: Self) -> bool {
        self.0 < rhs.0
    }
    fn zero() -> Self {
        Self::zero_spec()
    }
    fn one() -> Self {
        Self::one_spec()
    }
    fn add(self, rhs: Self) -> Self {
        self.add_spec(rhs)
    }
    fn sub(self, rhs: Self) -> Self {
        self.sub_spec(rhs)
    }
    fn mul(self, rhs: Self) -> Self {
        self.mul_spec(rhs)
    }
    fn div(self, rhs: Self) -> Self {
        self.div_spec(rhs)
    }
    fn neg(self) -> Self {
        self.neg_spec()
    }
    fn exp(self) -> Self {
        self.exp_spec()
    }
    fn lt(self, rhs: Self) -> bool {
        self.lt_spec(rhs)
    }
}

fn floats(values: &[f64]) -> Vec<F> {
    values.iter().map(|v| F(*v)).collect()
}

fn plain(values: &[F]) -> Vec<f64> {
    values.iter().map(|v| v.0).collect()
}

fn shape(dims: &[usize]) -> Shape {
    Shape::new(dims.to_vec()).unwrap()
}

fn tensor(dims: &[usize], values: &[f64]) -> Tensor<F> {
    Tensor::new(&shape(dims), floats(values)).unwrap()
}

/// A layer of two output units over a 2 x 3 input.
fn two_unit_layer(activation: Activation) -> Dense<F> {
    Dense::<F>::with_parameters(
        &shape(&[2, 3]),
        &shape(&[2]),
        floats(&[2., 1., -1., 3., 2., 1., 1., 0., 0., -2., 1., 0.]),
        floats(&[-5., -1.]),
        activation,
    )
    .unwrap()
}

/// A layer of five output units over three inputs with weights that differ
/// from place to place.
fn five_unit_layer(activation: Activation) -> Dense<F> {
    let weights: Vec<f64> = (0..15).map(|i| 0.37 * (i as f64) - 2.1).collect();
    let bias: Vec<f64> = (0..5).map(|j| 0.5 - 0.3 * (j as f64)).collect();
    Dense::<F>::with_parameters(
        &shape(&[3]),
        &shape(&[5]),
        floats(&weights),
        floats(&bias),
        activation,
    )
    .unwrap()
}

#[test]
fn test_dense_forward() {
    let input = tensor(&[2, 3], &[1., 7., 8., -2., 3., 5.]);
    let l = two_unit_layer(Activation::No);
    let output = tensor(&[2], &[1., 7.]);
    assert_eq!(l.forward_propagate(&input, true).unwrap(), output);
}

#[test]
fn test_dense_activate() {
    let l = Dense::<F>::with_parameters(
        &shape(&[2, 3]),
        &shape(&[3, 4]),
        floats(&[0.; 72]),
        floats(&[0.; 12]),
        Activation::Sigmoid,
    )
    .unwrap();
    let output = tensor(
        &[3, 4],
        &[-3., -2., -1., 0., 1., 2., 3., 4., 5., 6., 7., 8.],
    );
    let mut ans_vec = vec![F(0.); 12];
    for (y, x) in ans_vec.iter_mut().zip(output.flattened().iter()) {
        *y = Activation::Sigmoid.call(*x);
    }
    let answer = Tensor::<F>::new(&shape(&[3, 4]), ans_vec).unwrap();
    assert_eq!(l.activate(&output).unwrap(), answer);
}

#[test]
fn test_dense_backpropagate() {
    let lst_a = tensor(&[2, 3], &[1., 7., 8., -2., 3., 5.]);
    let l = two_unit_layer(Activation::No);
    let delta = tensor(&[2], &[1., 7.]);
    let answer = tensor(&[2, 3], &[9., 1., -1., 0., 9., 1.]);
    assert_eq!(
        l.backpropagate_delta(&delta, &lst_a, &Activation::Relu)
            .unwrap(),
        answer
    );
}

#[test]
fn test_dense_descend() {
    let lst_a = tensor(&[2, 3], &[1., 7., 8., -2., 3., 5.]);
    let mut l = two_unit_layer(Activation::No);
    let delta = tensor(&[2], &[1., 7.]);
    l.descend(F(0.1), &delta, &lst_a).unwrap();
    let w_ans = vec![
        2. - 0.1,
        1. - 0.7,
        -1. - 0.8,
        3. + 0.2,
        2. - 0.3,
        1. - 0.5,
        1. - 0.7,
        0. - 4.9,
        0. - 5.6,
        -2. + 1.4,
        1. - 2.1,
        0. - 3.5,
    ];
    let b_ans = vec![-5. - 0.1, -1. - 0.7];
    let eps = 1e-8;
    for (w, upd) in w_ans.into_iter().zip(plain(l.weight()).into_iter()) {
        assert!((w - upd).abs() < eps, "expected {}, got {}", w, upd);
    }
    for (b, upd) in b_ans.into_iter().zip(plain(l.bias()).into_iter()) {
        assert!((b - upd).abs() < eps, "expected {}, got {}", b, upd);
    }
}

#[test]
fn forward_without_activation_is_the_weighted_input() {
    let l = two_unit_layer(Activation::Relu);
    let input = tensor(&[2, 3], &[1., 7., 8., -2., 3., 5.]);
    let plain_out = l.forward_propagate(&input, false).unwrap();
    assert_eq!(plain(plain_out.flattened()), vec![1., 7.]);
    let negated = tensor(&[2, 3], &[-1., -7., -8., 2., -3., -5.]);
    let raw = l.forward_propagate(&negated, false).unwrap();
    assert_eq!(plain(raw.flattened()), vec![-11., -9.]);
    let rectified = l.forward_propagate(&negated, true).unwrap();
    assert_eq!(plain(rectified.flattened()), vec![0., 0.]);
}

#[test]
fn forward_adds_the_products_in_ascending_order() {
    // (1e16 + 1) + -1e16 is 0 in double precision; 1e16 + (1 + -1e16) and
    // (1e16 + -1e16) + 1 are not.
    let l = Dense::<F>::with_parameters(
        &shape(&[2]),
        &shape(&[1]),
        floats(&[1., 1.]),
        floats(&[1e16]),
        Activation::No,
    )
    .unwrap();
    let input = tensor(&[2], &[1., -1e16]);
    let out = l.forward_propagate(&input, false).unwrap();
    assert_eq!(plain(out.flattened()), vec![0.]);
}

#[test]
fn forward_then_activate_is_forward_with_activation() {
    let l = five_unit_layer(Activation::Sigmoid);
    let input = tensor(&[3], &[0.25, -1.5, 2.0]);
    let raw = l.forward_propagate(&input, false).unwrap();
    let activated = l.activate(&raw).unwrap();
    assert_eq!(activated, l.forward_propagate(&input, true).unwrap());
}

#[test]
fn operations_reject_other_shapes() {
    let mut l = two_unit_layer(Activation::No);
    let right_in = tensor(&[2, 3], &[1., 7., 8., -2., 3., 5.]);
    let right_out = tensor(&[2], &[1., 7.]);
    // the same sizes under other shapes
    let wrong_in = tensor(&[3, 2], &[1., 7., 8., -2., 3., 5.]);
    let wrong_out = tensor(&[2, 1], &[1., 7.]);

    assert_eq!(l.forward_propagate(&wrong_in, true), Err(ShapeMismatchError));
    assert_eq!(l.forward_propagate(&right_out, true), Err(ShapeMismatchError));
    assert_eq!(l.activate(&wrong_out), Err(ShapeMismatchError));
    assert_eq!(l.activate(&right_in), Err(ShapeMismatchError));
    assert_eq!(
        l.backpropagate_delta(&wrong_out, &right_in, &Activation::Relu),
        Err(ShapeMismatchError)
    );
    assert_eq!(
        l.backpropagate_delta(&right_out, &wrong_in, &Activation::Relu),
        Err(ShapeMismatchError)
    );

    let weight_before = l.weight().clone();
    let bias_before = l.bias().clone();
    assert_eq!(
        l.descend(F(0.1), &wrong_out, &right_in),
        Err(ShapeMismatchError)
    );
    assert_eq!(
        l.descend(F(0.1), &right_out, &wrong_in),
        Err(ShapeMismatchError)
    );
    assert_eq!(
        l.descend_with(3, F(0.1), &wrong_out, &wrong_in),
        Err(ShapeMismatchError)
    );
    assert_eq!(l.weight(), &weight_before);
    assert_eq!(l.bias(), &bias_before);
    assert_eq!(l.input_shape(), &shape(&[2, 3]));
    assert_eq!(l.output_shape(), &shape(&[2]));
}

#[test]
fn forward_is_the_same_for_every_number_of_workers() {
    let l = five_unit_layer(Activation::Sigmoid);
    let input = tensor(&[3], &[0.25, -1.5, 2.0]);
    let single = l.forward_propagate_with(1, &input, true).unwrap();
    for workers in [0usize, 2, 3, 4, 5, 6, 64] {
        assert_eq!(l.forward_propagate_with(workers, &input, true).unwrap(), single);
    }
    assert_eq!(l.forward_propagate(&input, true).unwrap(), single);
}

#[test]
fn backward_is_the_same_for_every_number_of_workers() {
    let l = five_unit_layer(Activation::No);
    let delta = tensor(&[5], &[0.1, -0.7, 1.3, 0.05, -2.0]);
    let a_prev = tensor(&[3], &[0.25, -1.5, 2.0]);
    let single = l
        .backpropagate_delta_with(1, &delta, &a_prev, &Activation::Sigmoid)
        .unwrap();
    for workers in [0usize, 2, 3, 4, 5, 6, 64] {
        assert_eq!(
            l.backpropagate_delta_with(workers, &delta, &a_prev, &Activation::Sigmoid)
                .unwrap(),
            single
        );
    }
    assert_eq!(
        l.backpropagate_delta(&delta, &a_prev, &Activation::Sigmoid)
            .unwrap(),
        single
    );
}

#[test]
fn descent_is_the_same_for_every_number_of_workers() {
    let delta = tensor(&[5], &[0.1, -0.7, 1.3, 0.05, -2.0]);
    let a_prev = tensor(&[3], &[0.25, -1.5, 2.0]);
    let mut single = five_unit_layer(Activation::No);
    single.descend_with(1, F(0.01), &delta, &a_prev).unwrap();
    for workers in [0usize, 2, 3, 4, 5, 6, 64] {
        let mut l = five_unit_layer(Activation::No);
        l.descend_with(workers, F(0.01), &delta, &a_prev).unwrap();
        assert_eq!(l.weight(), single.weight());
        assert_eq!(l.bias(), single.bias());
    }
    let mut ambient = five_unit_layer(Activation::No);
    ambient.descend(F(0.01), &delta, &a_prev).unwrap();
    assert_eq!(ambient.weight(), single.weight());
    assert_eq!(ambient.bias(), single.bias());
}

#[test]
fn descent_gives_up_rate_times_delta_times_activation() {
    let mut l = Dense::<F>::with_parameters(
        &shape(&[2]),
        &shape(&[2]),
        floats(&[1., 2., 3., 4.]),
        floats(&[10., 20.]),
        Activation::No,
    )
    .unwrap();
    let delta = tensor(&[2], &[4., -8.]);
    let a_prev = tensor(&[2], &[1., 3.]);
    l.descend(F(0.5), &delta, &a_prev).unwrap();
    // weight[j, k] - 0.5 * delta[j] * a_prev[k]
    assert_eq!(plain(l.weight()), vec![-1., -4., 7., 16.]);
    assert_eq!(plain(l.bias()), vec![8., 24.]);
    assert_eq!(l.activation(), Activation::No);
}

#[test]
fn backward_sums_the_contributions_of_the_units() {
    let l = Dense::<F>::with_parameters(
        &shape(&[2]),
        &shape(&[3]),
        floats(&[1., 2., 3., 4., 5., 6.]),
        floats(&[0., 0., 0.]),
        Activation::No,
    )
    .unwrap();
    let delta = tensor(&[3], &[1., 10., 100.]);
    let a_prev = tensor(&[2], &[7., -7.]);
    let through = l
        .backpropagate_delta(&delta, &a_prev, &Activation::No)
        .unwrap();
    assert_eq!(plain(through.flattened()), vec![531., 642.]);
    let rectified = l
        .backpropagate_delta(&delta, &a_prev, &Activation::Relu)
        .unwrap();
    assert_eq!(plain(rectified.flattened()), vec![531., 0.]);
}

#[test]
fn backward_sums_as_a_tree() {
    // Three units over one input: the sum is 1 + (1e16 + -1e16) = 1, where
    // adding one after the other would give (1 + 1e16) + -1e16 = 0.
    let l = Dense::<F>::with_parameters(
        &shape(&[1]),
        &shape(&[3]),
        floats(&[1., 1e16, -1e16]),
        floats(&[0., 0., 0.]),
        Activation::No,
    )
    .unwrap();
    let delta = tensor(&[3], &[1., 1., 1.]);
    let a_prev = tensor(&[1], &[5.]);
    let out = l
        .backpropagate_delta(&delta, &a_prev, &Activation::No)
        .unwrap();
    assert_eq!(plain(out.flattened()), vec![1.]);
}

#[test]
fn activating_twice_applies_the_function_twice() {
    let l = Dense::<F>::new(&shape(&[2]), &shape(&[3]), Activation::Sigmoid);
    let z = tensor(&[3], &[-1., 0., 2.]);
    let once = l.activate(&z).unwrap();
    let twice = l.activate(&once).unwrap();
    assert_ne!(once, twice);
    let expected: Vec<F> = z
        .flattened()
        .iter()
        .map(|x| Activation::Sigmoid.call(Activation::Sigmoid.call(*x)))
        .collect();
    assert_eq!(twice.flattened(), &expected);
    // the argument is left as it was
    assert_eq!(plain(z.flattened()), vec![-1., 0., 2.]);
}

#[test]
fn new_layer_holds_ones() {
    let l = Dense::<F>::new(&shape(&[2, 3]), &shape(&[2]), Activation::Relu);
    assert_eq!(l.weight(), &vec![F(1.); 12]);
    assert_eq!(l.bias(), &vec![F(1.); 2]);
    assert_eq!(l.activation(), Activation::Relu);
    assert_eq!(l.input_shape().dims(), &vec![2, 3]);
    assert_eq!(l.output_shape().dims(), &vec![2]);
    let out = l
        .forward_propagate(&tensor(&[2, 3], &[1., 2., 3., 4., 5., 6.]), false)
        .unwrap();
    assert_eq!(plain(out.flattened()), vec![22., 22.]);
}

#[test]
fn parameters_must_fit_the_shapes() {
    let short_weight = Dense::<F>::with_parameters(
        &shape(&[2, 3]),
        &shape(&[2]),
        floats(&[0.; 11]),
        floats(&[0.; 2]),
        Activation::No,
    );
    assert_eq!(short_weight.err(), Some(LengthMismatchError));
    let long_bias = Dense::<F>::with_parameters(
        &shape(&[2, 3]),
        &shape(&[2]),
        floats(&[0.; 12]),
        floats(&[0.; 3]),
        Activation::No,
    );
    assert_eq!(long_bias.err(), Some(LengthMismatchError));
    let huge = Shape::new(vec![usize::MAX]).unwrap();
    let too_large =
        Dense::<F>::with_parameters(&huge, &huge, Vec::new(), Vec::new(), Activation::No);
    assert_eq!(too_large.err(), Some(LengthMismatchError));
}

#[test]
fn parameters_can_be_written_in_place() {
    let mut l = two_unit_layer(Activation::No);
    {
        let (weights, biases) = l.parameters_mut();
        assert_eq!(weights.len(), 12);
        assert_eq!(biases.len(), 2);
        weights[3] = F(42.);
        biases[1] = F(-3.);
    }
    assert_eq!(l.weight()[3], F(42.));
    assert_eq!(l.bias()[1], F(-3.));
    assert_eq!(l.weight()[0], F(2.));
}

#[test]
fn shape_takes_positive_dimensions_only() {
    let s = Shape::new(vec![2, 3, 4]).unwrap();
    assert_eq!(s.size(), 24);
    assert_eq!(s.dims(), &vec![2, 3, 4]);
    assert_eq!(Shape::new(Vec::new()).unwrap().size(), 1);
    assert!(Shape::new(vec![2, 0, 4]).is_none());
    assert!(Shape::new(vec![usize::MAX, 2]).is_none());
    assert!(Shape::new(vec![usize::MAX, 2, 0]).is_none());
    assert_eq!(Shape::new(vec![usize::MAX, 1]).unwrap().size(), usize::MAX);
}

#[test]
fn shapes_are_equal_by_value() {
    let a = shape(&[2, 3]);
    let b = shape(&[2, 3]);
    let c = shape(&[3, 2]);
    let d = shape(&[2, 3, 1]);
    assert_eq!(a, b);
    assert!(a.same_as(&b));
    assert_ne!(a, c);
    assert!(!a.same_as(&c));
    assert_ne!(a, d);
    assert!(!a.same_as(&d));
    assert_eq!(a.clone(), a);
}

#[test]
fn tensor_checks_the_buffer_against_the_shape() {
    let s = shape(&[2, 2]);
    let t = Tensor::<F>::new(&s, floats(&[1., 2., 3., 4.])).unwrap();
    assert_eq!(t.shape(), &s);
    assert_eq!(plain(t.flattened()), vec![1., 2., 3., 4.]);
    assert_eq!(plain(&t.into_flattened()), vec![1., 2., 3., 4.]);
    assert_eq!(
        Tensor::<F>::new(&s, floats(&[1., 2., 3.])).err(),
        Some(LengthMismatchError)
    );
    assert_eq!(
        Tensor::<F>::new(&s, floats(&[1., 2., 3., 4., 5.])).err(),
        Some(LengthMismatchError)
    );
    let z = Tensor::<F>::zeros(&shape(&[2, 3]));
    assert_eq!(z.flattened(), &vec![F(0.); 6]);
    assert_eq!(filled(F(2.5), 3), vec![F(2.5); 3]);
}

#[test]
fn activation_functions_and_derivatives() {
    assert_eq!(Activation::No.call(F(-3.5)), F(-3.5));
    assert_eq!(Activation::No.diff(F(-3.5)), F(1.));
    assert_eq!(Activation::Relu.call(F(-3.5)), F(0.));
    assert_eq!(Activation::Relu.call(F(0.)), F(0.));
    assert_eq!(Activation::Relu.call(F(2.5)), F(2.5));
    assert_eq!(Activation::Relu.diff(F(-3.5)), F(0.));
    assert_eq!(Activation::Relu.diff(F(0.)), F(0.));
    assert_eq!(Activation::Relu.diff(F(2.5)), F(1.));
    assert_eq!(Activation::Sigmoid.call(F(0.)), F(0.5));
    assert_eq!(Activation::Sigmoid.diff(F(0.)), F(0.25));
    for x in [-3.0f64, -0.5, 1.0, 4.0] {
        let s = 1. / (1. + (-x).exp());
        assert_eq!(Activation::Sigmoid.call(F(x)), F(s));
        assert_eq!(Activation::Sigmoid.diff(F(x)), F(s * (1. - s)));
    }
}

#[test]
fn partition_rounds_the_chunk_length_up() {
    let p = Partition::new(10, 3);
    assert_eq!(p.chunk_len(), 4);
    assert_eq!(p.count(), 3);
    assert_eq!(p.bounds(0), (0, 4));
    assert_eq!(p.bounds(1), (4, 8));
    assert_eq!(p.bounds(2), (8, 10));
    assert_eq!(p.bounds(3), (10, 10));
    assert_eq!(p.bounds(usize::MAX), (10, 10));

    // an even split has no chunk to spare
    let even = Partition::new(8, 4);
    assert_eq!(even.chunk_len(), 2);
    assert_eq!(even.count(), 4);
    assert_eq!(even.bounds(3), (6, 8));

    // more workers than indices: one index each
    let wide = Partition::new(3, 8);
    assert_eq!(wide.chunk_len(), 1);
    assert_eq!(wide.count(), 3);

    // no worker counts as one
    let none = Partition::new(5, 0);
    assert_eq!(none.chunk_len(), 5);
    assert_eq!(none.count(), 1);
    assert_eq!(none.bounds(0), (0, 5));

    // nothing to split
    let empty = Partition::new(0, 4);
    assert_eq!(empty.chunk_len(), 1);
    assert_eq!(empty.count(), 0);
    assert_eq!(empty.bounds(0), (0, 0));

    let large = Partition::new(usize::MAX, 2);
    assert_eq!(large.chunk_len(), usize::MAX / 2 + 1);
    assert_eq!(large.count(), 2);
    assert_eq!(large.bounds(1), (usize::MAX / 2 + 1, usize::MAX));
}

#[test]
fn partition_matches_the_chunks_of_a_slice() {
    for total in 0usize..40 {
        for workers in 0usize..9 {
            let p = Partition::new(total, workers);
            let items: Vec<usize> = (0..total).collect();
            let chunks: Vec<&[usize]> = items.chunks(p.chunk_len()).collect();
            assert_eq!(chunks.len(), p.count());
            assert!(p.count() <= workers.max(1));
            for (i, chunk) in chunks.iter().enumerate() {
                let (lo, hi) = p.bounds(i);
                assert_eq!(*chunk, &items[lo..hi]);
            }
        }
    }
}

#[test]
fn kernels_work_on_their_chunk_alone() {
    let weights = floats(&[2., 1., -1., 3., 2., 1., 1., 0., 0., -2., 1., 0.]);
    let bias = floats(&[-5., -1.]);
    let x = floats(&[1., 7., 8., -2., 3., 5.]);

    assert_eq!(plain(kernel::rows(&weights, 6, 1, 2)), vec![1., 0., 0., -2., 1., 0.]);
    assert_eq!(plain(kernel::row(&weights, 3, 2)), vec![1., 0., 0.]);
    assert_eq!(kernel::weighted_input(&weights[..6], F(-5.), &x), F(1.));

    // the second unit, computed from its own row and bias
    let mut out = floats(&[0.]);
    kernel::forward_rows(&mut out, &weights[6..], &bias[1..], &x, Activation::No, true);
    assert_eq!(plain(&out), vec![7.]);

    let mut prod = floats(&[0.; 6]);
    kernel::scale_rows(&mut prod, &weights[6..], &floats(&[7.]), 6);
    assert_eq!(plain(&prod), vec![7., 0., 0., -14., 7., 0.]);

    let mut row = floats(&[1., 0., 0., -2., 1., 0.]);
    kernel::descend_rows(&mut row, &floats(&[7.]), &x, F(1.));
    assert_eq!(plain(&row), vec![-6., -49., -56., 12., -20., -35.]);

    let mut b = floats(&[-5., -1.]);
    kernel::descend_biases(&mut b, &floats(&[1., 7.]), F(2.));
    assert_eq!(plain(&b), vec![-7., -15.]);

    assert_eq!(kernel::chain(F(-11.), F(-2.), Activation::Relu), F(-0.));
    assert_eq!(kernel::chain(F(9.), F(3.), Activation::Relu), F(9.));
}

#[test]
fn rows_are_written_in_place() {
    let mut buf = floats(&[1., 2., 3., 4., 5., 6., 7., 8.]);
    {
        let middle = kernel::rows_mut(&mut buf, 2, 1, 3);
        assert_eq!(plain(middle), vec![3., 4., 5., 6.]);
        middle[0] = F(30.);
        middle[3] = F(60.);
    }
    assert_eq!(plain(&buf), vec![1., 2., 30., 4., 5., 60., 7., 8.]);

    let mut a = floats(&[1., 2., 3.]);
    let mut b = floats(&[10., 20., 30.]);
    kernel::add_rows(&mut a, &mut b);
    assert_eq!(plain(&a), vec![11., 22., 33.]);
    assert_eq!(plain(&b), vec![11., 22., 33.]);
}

#[test]
fn rows_are_summed_into_the_first() {
    let mut buf = floats(&[1., 2., 3., 4., 5., 6., 7., 8., 9., 10.]);
    kernel::reduce_rows(&mut buf, 2, 5);
    assert_eq!(plain(&buf[..2]), vec![25., 30.]);

    let mut single = floats(&[4., 5., 6.]);
    kernel::reduce_rows(&mut single, 3, 1);
    assert_eq!(plain(&single), vec![4., 5., 6.]);

    // (a + b) + (c + (d + e)) is 1 here; the sum from left to right is 0
    let mut ordered = floats(&[0., 0., 1., 1e16, -1e16]);
    kernel::reduce_rows(&mut ordered, 1, 5);
    assert_eq!(ordered[0], F(1.));
}

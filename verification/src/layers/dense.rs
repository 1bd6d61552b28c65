//! The fully connected layer.

use crate::layers::activation::Activation;
use crate::layers::kernel;
use crate::layers::model;
use crate::layers::partition::chunk_count;
use crate::layers::partition::chunk_start;
use crate::layers::partition::lemma_chunks_tile;
use crate::layers::partition::Partition;
use crate::layers::workers::available_workers;
use crate::layers::Layer;
use crate::tensor::filled;
use crate::tensor::shape::product;
use crate::tensor::LengthMismatchError;
use crate::tensor::NumT;
use crate::tensor::Shape;
use crate::tensor::ShapeMismatchError;
use crate::tensor::Tensor;
use vstd::prelude::*;

verus! {

/// A layer in which every output unit is a weighted sum of all input units
/// plus a bias, passed through the layer's activation function.
///
/// The weights are one flat buffer, row after row: the weights of output
/// unit `j` over all input units are the `j`-th run of as many elements as
/// the input has.
#[derive(Debug)]
pub struct Dense<T: NumT> {
    input_shape: Shape,
    output_shape: Shape,
    weight: Vec<T>,
    bias: Vec<T>,
    activation: Activation,
}

impl<T: NumT> Dense<T> {
    /// The weights, row after row.
    pub closed spec fn weights(&self) -> Seq<T> {
        self.weight@
    }

    /// The biases, one per output unit.
    pub closed spec fn biases(&self) -> Seq<T> {
        self.bias@
    }

    /// The layer's activation function.
    pub closed spec fn activation_spec(&self) -> Activation {
        self.activation
    }

    /// A layer from `i_shape` to `o_shape` whose weights and biases are all
    /// one.
    pub fn new(i_shape: &Shape, o_shape: &Shape, act: Activation) -> (layer: Self)
        requires
            product(i_shape@) * product(o_shape@) <= usize::MAX,
        ensures
            layer.wf(),
            layer.input_dims() == i_shape@,
            layer.output_dims() == o_shape@,
            layer.weights() == Seq::new(
                product(i_shape@) * product(o_shape@),
                |i: int| T::one_spec(),
            ),
            layer.biases() == Seq::new(product(o_shape@), |i: int| T::one_spec()),
            layer.activation_spec() == act,
    {
        let ilen = i_shape.size();
        let olen = o_shape.size();
        assert(olen * ilen == ilen * olen) by (nonlinear_arith);
        Dense {
            input_shape: i_shape.clone(),
            output_shape: o_shape.clone(),
            weight: filled(T::one(), ilen * olen),
            bias: filled(T::one(), olen),
            activation: act,
        }
    }

    /// A layer from `i_shape` to `o_shape` with the given weights and
    /// biases; fails when a buffer's length is not what the shapes call for.
    pub fn with_parameters(
        i_shape: &Shape,
        o_shape: &Shape,
        weight: Vec<T>,
        bias: Vec<T>,
        act: Activation,
    ) -> (r: Result<Self, LengthMismatchError>)
        ensures
            r is Ok <==> weight@.len() == product(o_shape@) * product(i_shape@) && bias@.len()
                == product(o_shape@),
            r is Ok ==> {
                let layer = r->Ok_0;
                &&& layer.wf()
                &&& layer.input_dims() == i_shape@
                &&& layer.output_dims() == o_shape@
                &&& layer.weights() == weight@
                &&& layer.biases() == bias@
                &&& layer.activation_spec() == act
            },
    {
        let ilen = i_shape.size();
        let olen = o_shape.size();
        let wlen = weight.len();
        let fits = match olen.checked_mul(ilen) {
            Some(n) => wlen == n,
            None => false,
        };
        if fits && bias.len() == olen {
            Ok(
                Dense {
                    input_shape: i_shape.clone(),
                    output_shape: o_shape.clone(),
                    weight,
                    bias,
                    activation: act,
                },
            )
        } else {
            Err(LengthMismatchError)
        }
    }

    /// The shape of the tensors that the layer takes.
    pub fn input_shape(&self) -> (s: &Shape)
        ensures
            s@ == self.input_dims(),
    {
        &self.input_shape
    }

    /// The shape of the tensors that the layer yields.
    pub fn output_shape(&self) -> (s: &Shape)
        ensures
            s@ == self.output_dims(),
    {
        &self.output_shape
    }

    /// The weights, row after row.
    pub fn weight(&self) -> (w: &Vec<T>)
        ensures
            w@ == self.weights(),
    {
        &self.weight
    }

    /// The biases, one per output unit.
    pub fn bias(&self) -> (b: &Vec<T>)
        ensures
            b@ == self.biases(),
    {
        &self.bias
    }

    /// The layer's activation function.
    pub fn activation(&self) -> (a: Activation)
        ensures
            a == self.activation_spec(),
    {
        self.activation
    }

    /// The weights and the biases, to be written in place. Their lengths
    /// cannot change, so the layer stays well formed whatever is written.
    pub fn parameters_mut(&mut self) -> (p: (&mut [T], &mut [T]))
        requires
            old(self).wf(),
        ensures
            p.0@ == old(self).weights(),
            p.1@ == old(self).biases(),
            final(self).weights() == final(p.0)@,
            final(self).biases() == final(p.1)@,
            final(self).input_dims() == old(self).input_dims(),
            final(self).output_dims() == old(self).output_dims(),
            final(self).activation_spec() == old(self).activation_spec(),
            final(p.0)@.len() == p.0@.len() && final(p.1)@.len() == p.1@.len()
                ==> final(self).wf(),
    {
        (self.weight.as_mut_slice(), self.bias.as_mut_slice())
    }

    /// Computes the layer's output on `input` chunk by chunk, the output
    /// units split as for `workers` workers. The result is the same for
    /// every number of workers.
    pub fn forward_propagate_with(&self, workers: usize, input: &Tensor<T>, activate: bool) -> (r:
        Result<Tensor<T>, ShapeMismatchError>)
        requires
            self.wf(),
        ensures
            r is Ok <==> input.dims() == self.input_dims(),
            r is Ok ==> r->Ok_0.dims() == self.output_dims() && r->Ok_0@ == self.forward_spec(
                input@,
                activate,
            ),
    {
        if !input.shape().same_as(&self.input_shape) {
            return Err(ShapeMismatchError);
        }
        let olen = self.output_shape.size();
        let x = input.flattened().as_slice();
        let width = x.len();
        let mut out = filled(T::zero(), olen);
        let part = Partition::new(olen, workers);
        let count = part.count();
        let ghost whole = model::forward(self.weight@, self.bias@, x@, self.activation, activate);
        let mut c: usize = 0;
        while c < count
            invariant
                self.wf(),
                olen == self.bias@.len(),
                width == x@.len(),
                self.weight@.len() == olen * width,
                out@.len() == olen,
                part.total() == olen,
                part.chunk() >= 1,
                count == chunk_count(part.total(), part.chunk()),
                c <= count,
                whole == model::forward(self.weight@, self.bias@, x@, self.activation, activate),
                out@.subrange(0, chunk_start(part.total(), part.chunk(), c as nat) as int)
                    == whole.subrange(0, chunk_start(part.total(), part.chunk(), c as nat) as int),
            decreases count - c,
        {
            let (lo, hi) = part.bounds(c);
            let ghost before = out@;
            proof {
                lemma_chunks_tile(part.total(), part.chunk(), c as nat);
                model::lemma_rows_bounds(width as nat, lo as int, hi as int, olen as int);
                model::lemma_forward_chunk(
                    self.weight@,
                    self.bias@,
                    x@,
                    self.activation,
                    activate,
                    lo as int,
                    hi as int,
                );
            }
            kernel::forward_rows(
                kernel::rows_mut(out.as_mut_slice(), 1, lo, hi),
                kernel::rows(self.weight.as_slice(), width, lo, hi),
                kernel::rows(self.bias.as_slice(), 1, lo, hi),
                x,
                self.activation,
                activate,
            );
            assert(out@ == before.subrange(0, lo as int) + whole.subrange(lo as int, hi as int)
                + before.subrange(hi as int, olen as int));
            assert(out@.subrange(0, hi as int) == whole.subrange(0, hi as int));
            c += 1;
        }
        proof {
            lemma_chunks_tile(part.total(), part.chunk(), c as nat);
            assert(out@ == out@.subrange(0, olen as int));
            assert(whole == whole.subrange(0, olen as int));
        }
        Ok(Tensor::from_parts(&self.output_shape, out))
    }

    /// Computes the error signal of the layer before. The contributions of
    /// the weights are computed chunk by chunk, the output units split as
    /// for `workers` workers, and then summed as a tree whose form depends
    /// on the number of output units alone: the result is the same for
    /// every number of workers.
    pub fn backpropagate_delta_with(
        &self,
        workers: usize,
        delta: &Tensor<T>,
        a_prev: &Tensor<T>,
        prev_activation: &Activation,
    ) -> (r: Result<Tensor<T>, ShapeMismatchError>)
        requires
            self.wf(),
        ensures
            r is Ok <==> delta.dims() == self.output_dims() && a_prev.dims() == self.input_dims(),
            r is Ok ==> r->Ok_0.dims() == self.input_dims() && r->Ok_0@
                == self.backpropagate_spec(delta@, a_prev@, *prev_activation),
    {
        if !delta.shape().same_as(&self.output_shape) || !a_prev.shape().same_as(
            &self.input_shape,
        ) {
            return Err(ShapeMismatchError);
        }
        let d = delta.flattened().as_slice();
        let a = a_prev.flattened().as_slice();
        let olen = self.output_shape.size();
        let width = a.len();
        let mut prod = filled(T::zero(), self.weight.len());
        let part = Partition::new(olen, workers);
        let count = part.count();
        let ghost whole = model::scaled(self.weight@, d@, width as nat);
        let mut c: usize = 0;
        while c < count
            invariant
                olen == d@.len(),
                olen >= 1,
                width == a@.len(),
                self.weight@.len() == olen * width,
                prod@.len() == olen * width,
                part.total() == olen,
                part.chunk() >= 1,
                count == chunk_count(part.total(), part.chunk()),
                c <= count,
                whole == model::scaled(self.weight@, d@, width as nat),
                model::rows(
                    prod@,
                    width as nat,
                    0,
                    chunk_start(part.total(), part.chunk(), c as nat) as int,
                ) == model::rows(
                    whole,
                    width as nat,
                    0,
                    chunk_start(part.total(), part.chunk(), c as nat) as int,
                ),
            decreases count - c,
        {
            let (lo, hi) = part.bounds(c);
            let ghost before = prod@;
            proof {
                lemma_chunks_tile(part.total(), part.chunk(), c as nat);
                model::lemma_rows_bounds(width as nat, lo as int, hi as int, olen as int);
                model::lemma_rows_bounds(width as nat, 0, lo as int, hi as int);
                model::lemma_scaled_chunk(self.weight@, d@, width as nat, lo as int, hi as int);
            }
            kernel::scale_rows(
                kernel::rows_mut(prod.as_mut_slice(), width, lo, hi),
                kernel::rows(self.weight.as_slice(), width, lo, hi),
                kernel::rows(d, 1, lo, hi),
                width,
            );
            assert(prod@ == before.subrange(0, lo * width) + model::rows(
                whole,
                width as nat,
                lo as int,
                hi as int,
            ) + before.subrange(hi * width, olen * width));
            assert(model::rows(prod@, width as nat, 0, hi as int) == model::rows(
                whole,
                width as nat,
                0,
                hi as int,
            ));
            c += 1;
        }
        proof {
            lemma_chunks_tile(part.total(), part.chunk(), c as nat);
            assert(prod@ == model::rows(prod@, width as nat, 0, olen as int));
            assert(whole == model::rows(whole, width as nat, 0, olen as int));
        }
        kernel::reduce_rows(prod.as_mut_slice(), width, olen);
        let ghost sums = model::column_sums(whole, width as nat, olen as nat);
        proof {
            model::lemma_rows_bounds(width as nat, 0, 1, olen as int);
        }
        let mut out: Vec<T> = Vec::with_capacity(width);
        let mut k: usize = 0;
        while k < width
            invariant
                width == a@.len(),
                width <= prod@.len(),
                k <= width,
                out@.len() == k,
                sums == prod@.subrange(0, width as int),
                forall|i: int|
                    0 <= i < k ==> out@[i] == sums[i].mul_spec(
                        prev_activation.diff_spec(a@[i]),
                    ),
            decreases width - k,
        {
            out.push(kernel::chain(prod[k], a[k], *prev_activation));
            k += 1;
        }
        assert(out@ == model::previous_delta(self.weight@, d@, a@, *prev_activation));
        Ok(Tensor::from_parts(&self.input_shape, out))
    }

    /// Takes one step of gradient descent, the weight rows updated chunk
    /// by chunk, the output units split as for `workers` workers. The
    /// result is the same for every number of workers. Where a shape is
    /// not the expected one, the layer stays as it was.
    pub fn descend_with(&mut self, workers: usize, rate: T, delta: &Tensor<T>, a_prev: &Tensor<T>)
        -> (r: Result<(), ShapeMismatchError>)
        requires
            old(self).wf(),
        ensures
            final(self).wf(),
            r is Ok <==> delta.dims() == old(self).output_dims()
                && a_prev.dims() == old(self).input_dims(),
            r is Ok ==> old(self).descended(final(self), rate, delta@, a_prev@),
            r is Err ==> *final(self) == *old(self),
    {
        if !delta.shape().same_as(&self.output_shape) || !a_prev.shape().same_as(
            &self.input_shape,
        ) {
            return Err(ShapeMismatchError);
        }
        let d = delta.flattened().as_slice();
        let a = a_prev.flattened().as_slice();
        let olen = d.len();
        let width = a.len();
        let part = Partition::new(olen, workers);
        let count = part.count();
        let ghost whole = model::descended_weights(old(self).weight@, d@, a@, rate);
        proof {
            lemma_chunks_tile(part.total(), part.chunk(), 0);
        }
        let mut c: usize = 0;
        while c < count
            invariant
                olen == d@.len(),
                width == a@.len(),
                self.weight@.len() == olen * width,
                old(self).weight@.len() == olen * width,
                self.input_shape == old(self).input_shape,
                self.output_shape == old(self).output_shape,
                self.bias == old(self).bias,
                self.activation == old(self).activation,
                part.total() == olen,
                part.chunk() >= 1,
                count == chunk_count(part.total(), part.chunk()),
                c <= count,
                whole == model::descended_weights(old(self).weight@, d@, a@, rate),
                forall|i: int|
                    0 <= i < chunk_start(part.total(), part.chunk(), c as nat) * width
                        ==> self.weight@[i] == whole[i],
                forall|i: int|
                    chunk_start(part.total(), part.chunk(), c as nat) * width <= i < olen * width
                        ==> self.weight@[i] == old(self).weight@[i],
            decreases count - c,
        {
            let (lo, hi) = part.bounds(c);
            let ghost before = self.weight@;
            proof {
                lemma_chunks_tile(part.total(), part.chunk(), c as nat);
                model::lemma_rows_bounds(width as nat, lo as int, hi as int, olen as int);
                model::lemma_descended_chunk(
                    old(self).weight@,
                    d@,
                    a@,
                    rate,
                    lo as int,
                    hi as int,
                );
                assert(model::rows(before, width as nat, lo as int, hi as int) == model::rows(
                    old(self).weight@,
                    width as nat,
                    lo as int,
                    hi as int,
                ));
            }
            kernel::descend_rows(
                kernel::rows_mut(self.weight.as_mut_slice(), width, lo, hi),
                kernel::rows(d, 1, lo, hi),
                a,
                rate,
            );
            assert(self.weight@ == before.subrange(0, lo * width) + model::rows(
                whole,
                width as nat,
                lo as int,
                hi as int,
            ) + before.subrange(hi * width, olen * width));
            c += 1;
        }
        proof {
            lemma_chunks_tile(part.total(), part.chunk(), c as nat);
            assert(self.weight@ == whole);
        }
        kernel::descend_biases(self.bias.as_mut_slice(), d, rate);
        Ok(())
    }
}

impl<T: NumT> Layer<T> for Dense<T> {
    closed spec fn wf(&self) -> bool {
        &&& self.weight@.len() == product(self.output_shape@) * product(self.input_shape@)
        &&& self.bias@.len() == product(self.output_shape@)
    }

    closed spec fn input_dims(&self) -> Seq<usize> {
        self.input_shape@
    }

    closed spec fn output_dims(&self) -> Seq<usize> {
        self.output_shape@
    }

    open spec fn forward_spec(&self, input: Seq<T>, activate: bool) -> Seq<T> {
        model::forward(self.weights(), self.biases(), input, self.activation_spec(), activate)
    }

    open spec fn activate_spec(&self, output: Seq<T>) -> Seq<T> {
        model::activated(output, self.activation_spec())
    }

    open spec fn backpropagate_spec(
        &self,
        delta: Seq<T>,
        a_prev: Seq<T>,
        prev_activation: Activation,
    ) -> Seq<T> {
        model::previous_delta(self.weights(), delta, a_prev, prev_activation)
    }

    open spec fn descended(&self, after: &Self, rate: T, delta: Seq<T>, a_prev: Seq<T>) -> bool {
        &&& after.input_dims() == self.input_dims()
        &&& after.output_dims() == self.output_dims()
        &&& after.activation_spec() == self.activation_spec()
        &&& after.weights() == model::descended_weights(self.weights(), delta, a_prev, rate)
        &&& after.biases() == model::descended_biases(self.biases(), delta, rate)
    }

    fn forward_propagate(&self, input: &Tensor<T>, activate: bool) -> (r: Result<
        Tensor<T>,
        ShapeMismatchError,
    >) {
        self.forward_propagate_with(available_workers(), input, activate)
    }

    fn activate(&self, output: &Tensor<T>) -> (r: Result<Tensor<T>, ShapeMismatchError>)
    {
        if !output.shape().same_as(&self.output_shape) {
            return Err(ShapeMismatchError);
        }
        let z = output.flattened();
        let n = z.len();
        let mut out: Vec<T> = Vec::with_capacity(n);
        let mut i: usize = 0;
        while i < n
            invariant
                n == z@.len(),
                i <= n,
                out@.len() == i,
                forall|k: int| 0 <= k < i ==> out@[k] == self.activation.call_spec(z@[k]),
            decreases n - i,
        {
            out.push(self.activation.call(z[i]));
            i += 1;
        }
        assert(out@ == model::activated(z@, self.activation));
        Ok(Tensor::from_parts(&self.output_shape, out))
    }

    fn backpropagate_delta(
        &self,
        delta: &Tensor<T>,
        a_prev: &Tensor<T>,
        prev_activation: &Activation,
    ) -> (r: Result<Tensor<T>, ShapeMismatchError>) {
        self.backpropagate_delta_with(available_workers(), delta, a_prev, prev_activation)
    }

    fn descend(&mut self, rate: T, delta: &Tensor<T>, a_prev: &Tensor<T>) -> (r: Result<
        (),
        ShapeMismatchError,
    >) {
        self.descend_with(available_workers(), rate, delta, a_prev)
    }
}

/// The number of workers does not show in what forward propagation
/// returns: two runs on the same layer and input, split for any two
/// numbers of workers, fail together or return tensors of one shape with
/// the same elements.
pub proof fn lemma_forward_workers_agree<T: NumT>(
    layer: &Dense<T>,
    input: &Tensor<T>,
    activate: bool,
    workers1: usize,
    workers2: usize,
    r1: Result<Tensor<T>, ShapeMismatchError>,
    r2: Result<Tensor<T>, ShapeMismatchError>,
)
    requires
        layer.wf(),
        call_ensures(Dense::<T>::forward_propagate_with, (layer, workers1, input, activate), r1),
        call_ensures(Dense::<T>::forward_propagate_with, (layer, workers2, input, activate), r2),
    ensures
        r1 is Ok <==> r2 is Ok,
        r1 is Ok ==> r1->Ok_0@ == r2->Ok_0@ && r1->Ok_0.dims() == r2->Ok_0.dims(),
{
}

/// The number of workers does not show in what backward propagation
/// returns either: the contributions of the weights are the same however
/// they are shared out, and the tree in which they are summed depends on
/// the number of output units alone.
pub proof fn lemma_backward_workers_agree<T: NumT>(
    layer: &Dense<T>,
    delta: &Tensor<T>,
    a_prev: &Tensor<T>,
    prev_activation: &Activation,
    workers1: usize,
    workers2: usize,
    r1: Result<Tensor<T>, ShapeMismatchError>,
    r2: Result<Tensor<T>, ShapeMismatchError>,
)
    requires
        layer.wf(),
        call_ensures(
            Dense::<T>::backpropagate_delta_with,
            (layer, workers1, delta, a_prev, prev_activation),
            r1,
        ),
        call_ensures(
            Dense::<T>::backpropagate_delta_with,
            (layer, workers2, delta, a_prev, prev_activation),
            r2,
        ),
    ensures
        r1 is Ok <==> r2 is Ok,
        r1 is Ok ==> r1->Ok_0@ == r2->Ok_0@ && r1->Ok_0.dims() == r2->Ok_0.dims(),
{
}

/// A step of gradient descent is determined by the layer and the
/// arguments: whatever the number of workers, two layers that both are
/// `before` after the same step have the same shapes, activation function,
/// weights and biases.
pub proof fn lemma_descent_determined<T: NumT>(
    before: &Dense<T>,
    after1: &Dense<T>,
    after2: &Dense<T>,
    rate: T,
    delta: Seq<T>,
    a_prev: Seq<T>,
)
    requires
        before.descended(after1, rate, delta, a_prev),
        before.descended(after2, rate, delta, a_prev),
    ensures
        after1.input_dims() == after2.input_dims(),
        after1.output_dims() == after2.output_dims(),
        after1.activation_spec() == after2.activation_spec(),
        after1.weights() == after2.weights(),
        after1.biases() == after2.biases(),
{
}

/// What `activate` returns can be handed to `activate` again: the second
/// run succeeds and has applied the activation function twice to every
/// element. (It is not the first result again, unless the function maps
/// its own values to themselves.)
pub proof fn lemma_activate_twice<T: NumT>(
    layer: &Dense<T>,
    output: &Tensor<T>,
    once: Result<Tensor<T>, ShapeMismatchError>,
    twice: Result<Tensor<T>, ShapeMismatchError>,
)
    requires
        layer.wf(),
        call_ensures(<Dense<T> as Layer<T>>::activate, (layer, output), once),
        once is Ok,
        call_ensures(<Dense<T> as Layer<T>>::activate, (layer, &once->Ok_0), twice),
    ensures
        twice is Ok,
        twice->Ok_0.dims() == output.dims(),
        twice->Ok_0@.len() == output@.len(),
        forall|i: int|
            0 <= i < output@.len() ==> #[trigger] twice->Ok_0@[i]
                == layer.activation_spec().call_spec(
                layer.activation_spec().call_spec(output@[i]),
            ),
{
}

} // verus!

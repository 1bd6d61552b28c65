//! Layers of a network.

pub mod activation;
pub mod dense;
pub mod kernel;
pub mod model;
pub mod partition;
mod workers;

pub use self::activation::Activation;
pub use self::dense::Dense;

use crate::tensor::NumT;
use crate::tensor::ShapeMismatchError;
use crate::tensor::Tensor;
use vstd::prelude::*;

verus! {

/// A layer of a network: what it computes from its input, how it hands an
/// error signal back to the layer before it, and how it learns from one.
///
/// Every operation checks the shapes of its arguments before anything
/// else, and fails without any effect when one of them is not the shape
/// that the layer expects in that place.
pub trait Layer<T: NumT>: Sized {
    /// The layer's buffers have the lengths that its shapes call for.
    spec fn wf(&self) -> bool;

    /// The dimension sizes of the tensors that the layer takes.
    spec fn input_dims(&self) -> Seq<usize>;

    /// The dimension sizes of the tensors that the layer yields.
    spec fn output_dims(&self) -> Seq<usize>;

    /// What the layer yields on `input`, with or without its activation
    /// function applied.
    spec fn forward_spec(&self, input: Seq<T>, activate: bool) -> Seq<T>;

    /// What the layer's activation function makes of `output`.
    spec fn activate_spec(&self, output: Seq<T>) -> Seq<T>;

    /// The error signal that the layer hands to the layer before it, from
    /// its own error signal `delta`, the earlier layer's values `a_prev`
    /// before activation and the earlier layer's activation function.
    spec fn backpropagate_spec(
        &self,
        delta: Seq<T>,
        a_prev: Seq<T>,
        prev_activation: Activation,
    ) -> Seq<T>;

    /// Whether `after` is this layer after one step of gradient descent at
    /// the given rate, on the error signal `delta` and the earlier layer's
    /// activations `a_prev`.
    spec fn descended(&self, after: &Self, rate: T, delta: Seq<T>, a_prev: Seq<T>) -> bool;

    /// Computes the layer's output on `input`.
    fn forward_propagate(&self, input: &Tensor<T>, activate: bool) -> (r: Result<
        Tensor<T>,
        ShapeMismatchError,
    >)
        requires
            self.wf(),
        ensures
            r is Ok <==> input.dims() == self.input_dims(),
            r is Ok ==> r->Ok_0.dims() == self.output_dims() && r->Ok_0@ == self.forward_spec(
                input@,
                activate,
            ),
    ;

    /// Applies the layer's activation function to every element of
    /// `output`, which stays as it is.
    fn activate(&self, output: &Tensor<T>) -> (r: Result<Tensor<T>, ShapeMismatchError>)
        requires
            self.wf(),
        ensures
            r is Ok <==> output.dims() == self.output_dims(),
            r is Ok ==> r->Ok_0.dims() == self.output_dims() && r->Ok_0@ == self.activate_spec(
                output@,
            ),
    ;

    /// Computes the error signal of the layer before.
    fn backpropagate_delta(
        &self,
        delta: &Tensor<T>,
        a_prev: &Tensor<T>,
        prev_activation: &Activation,
    ) -> (r: Result<Tensor<T>, ShapeMismatchError>)
        requires
            self.wf(),
        ensures
            r is Ok <==> delta.dims() == self.output_dims() && a_prev.dims() == self.input_dims(),
            r is Ok ==> r->Ok_0.dims() == self.input_dims() && r->Ok_0@
                == self.backpropagate_spec(delta@, a_prev@, *prev_activation),
    ;

    /// Takes one step of gradient descent. Where a shape is not the
    /// expected one, the layer stays as it was.
    fn descend(&mut self, rate: T, delta: &Tensor<T>, a_prev: &Tensor<T>) -> (r: Result<
        (),
        ShapeMismatchError,
    >)
        requires
            old(self).wf(),
        ensures
            final(self).wf(),
            r is Ok <==> delta.dims() == old(self).output_dims()
                && a_prev.dims() == old(self).input_dims(),
            r is Ok ==> old(self).descended(final(self), rate, delta@, a_prev@),
            r is Err ==> *final(self) == *old(self),
    ;
}

} // verus!

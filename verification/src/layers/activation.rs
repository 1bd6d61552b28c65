//! Pointwise activation functions and their derivatives.

use crate::tensor::NumT;
use vstd::prelude::*;

verus! {

/// The logistic function `1 / (1 + exp(-x))`.
pub open spec fn sigmoid<T: NumT>(x: T) -> T {
    T::one_spec().div_spec(T::one_spec().add_spec(x.neg_spec().exp_spec()))
}

/// The activation function applied to a unit's weighted input.
#[derive(Debug, Clone, Copy, PartialEq, Eq)]
pub enum Activation {
    /// The identity.
    No,
    /// The logistic function.
    Sigmoid,
    /// The rectifier: the positive part of its argument.
    Relu,
}

impl Activation {
    /// The value of the function at `x`.
    pub open spec fn call_spec<T: NumT>(self, x: T) -> T {
        match self {
            Activation::No => x,
            Activation::Sigmoid => sigmoid(x),
            Activation::Relu => if T::zero_spec().lt_spec(x) {
                x
            } else {
                T::zero_spec()
            },
        }
    }

    /// The value of the function's derivative at `x`: 1 for the identity,
    /// `s * (1 - s)` with `s` the logistic function at `x`, and for the
    /// rectifier 1 where `x` is positive and 0 elsewhere.
    pub open spec fn diff_spec<T: NumT>(self, x: T) -> T {
        match self {
            Activation::No => T::one_spec(),
            Activation::Sigmoid => sigmoid(x).mul_spec(T::one_spec().sub_spec(sigmoid(x))),
            Activation::Relu => if T::zero_spec().lt_spec(x) {
                T::one_spec()
            } else {
                T::zero_spec()
            },
        }
    }

    /// Applies the function to `x`.
    pub fn call<T: NumT>(&self, x: T) -> (y: T)
        ensures
            y == self.call_spec(x),
    {
        match self {
            Activation::No => x,
            Activation::Sigmoid => logistic(x),
            Activation::Relu => if T::zero().lt(x) {
                x
            } else {
                T::zero()
            },
        }
    }

    /// Applies the function's derivative to `x`.
    pub fn diff<T: NumT>(&self, x: T) -> (y: T)
        ensures
            y == self.diff_spec(x),
    {
        match self {
            Activation::No => T::one(),
            Activation::Sigmoid => {
                let s = logistic(x);
                s.mul(T::one().sub(s))
            },
            Activation::Relu => if T::zero().lt(x) {
                T::one()
            } else {
                T::zero()
            },
        }
    }
}

fn logistic<T: NumT>(x: T) -> (y: T)
    ensures
        y == sigmoid(x),
{
    T::one().div(T::one().add(x.neg().exp()))
}

} // verus!

//! The compute kernel of a fully connected neural-network layer: forward
//! propagation, backward propagation of the error signal and the
//! gradient-descent update, over weights kept as one flat row-major buffer.
//!
//! Every operation is stated against a mathematical model of the layer, so
//! that the result is pinned down to the order in which the element type's
//! operations are applied.
//!
//! The layer works in rounds over chunks of output units.
//! [`layers::partition`] splits the units among the workers,
//! [`layers::kernel`] holds the work of one chunk, on slices that no other
//! chunk touches, and [`layers::dense`] runs the chunks of a round one
//! after the other. A caller with a pool of threads can hand the same
//! kernels to its workers: [`layers::model`] proves that the outcome is
//! the same however the units are split.

pub mod layers;
pub mod tensor;

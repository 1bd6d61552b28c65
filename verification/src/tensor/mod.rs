//! Shapes, tensors and their element type.

pub mod error;
pub mod num;
pub mod shape;

pub use self::error::LengthMismatchError;
pub use self::error::ShapeMismatchError;
pub use self::num::NumT;
pub use self::shape::Shape;

use self::shape::product;
use vstd::prelude::*;

verus! {

/// A shape together with a flat buffer of as many elements as the shape
/// has room for.
#[derive(Debug, PartialEq)]
pub struct Tensor<T: NumT> {
    shape: Shape,
    flattened: Vec<T>,
}

impl<T: NumT> View for Tensor<T> {
    type V = Seq<T>;

    /// The elements, in the order of the flat buffer.
    closed spec fn view(&self) -> Seq<T> {
        self.flattened@
    }
}

impl<T: NumT> Tensor<T> {
    #[verifier::type_invariant]
    spec fn inv(&self) -> bool {
        self.flattened@.len() == product(self.shape@)
    }

    /// The dimension sizes of the tensor's shape.
    pub closed spec fn dims(&self) -> Seq<usize> {
        self.shape@
    }

    /// The tensor of the given shape over the given buffer; fails when the
    /// buffer's length is not the shape's size.
    pub fn new(shape: &Shape, flattened: Vec<T>) -> (r: Result<Tensor<T>, LengthMismatchError>)
        ensures
            r is Ok <==> flattened@.len() == product(shape@),
            r is Ok ==> r->Ok_0.dims() == shape@ && r->Ok_0@ == flattened@,
    {
        if flattened.len() == shape.size() {
            Ok(Tensor { shape: shape.clone(), flattened })
        } else {
            Err(LengthMismatchError)
        }
    }

    /// The tensor of the given shape over a buffer of the shape's size.
    pub(crate) fn from_parts(shape: &Shape, flattened: Vec<T>) -> (r: Tensor<T>)
        requires
            flattened@.len() == product(shape@),
        ensures
            r.dims() == shape@,
            r@ == flattened@,
    {
        Tensor { shape: shape.clone(), flattened }
    }

    /// The tensor of the given shape whose every element is zero.
    pub fn zeros(shape: &Shape) -> (r: Tensor<T>)
        ensures
            r.dims() == shape@,
            r@ == Seq::new(product(shape@), |i: int| T::zero_spec()),
    {
        let flattened = filled(T::zero(), shape.size());
        Tensor { shape: shape.clone(), flattened }
    }

    /// The tensor's shape.
    pub fn shape(&self) -> (s: &Shape)
        ensures
            s@ == self.dims(),
    {
        &self.shape
    }

    /// The tensor's elements as one flat buffer, of the shape's size.
    pub fn flattened(&self) -> (v: &Vec<T>)
        ensures
            v@ == self@,
            v@.len() == product(self.dims()),
    {
        proof {
            use_type_invariant(self);
        }
        &self.flattened
    }

    /// Gives up the tensor for its flat buffer.
    pub fn into_flattened(self) -> (v: Vec<T>)
        ensures
            v@ == self@,
            v@.len() == product(self.dims()),
    {
        proof {
            use_type_invariant(&self);
        }
        self.flattened
    }
}

/// A buffer of `len` copies of `value`.
pub fn filled<T: NumT>(value: T, len: usize) -> (v: Vec<T>)
    ensures
        v@ == Seq::new(len as nat, |i: int| value),
{
    let mut v: Vec<T> = Vec::with_capacity(len);
    let mut i: usize = 0;
    while i < len
        invariant
            i <= len,
            v@ == Seq::new(i as nat, |k: int| value),
        decreases len - i,
    {
        v.push(value);
        i += 1;
    }
    v
}

} // verus!

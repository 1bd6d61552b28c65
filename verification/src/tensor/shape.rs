//! The shape of a tensor: its dimension sizes, outermost first.

use vstd::prelude::*;

verus! {

/// The product of the dimension sizes; 1 for no dimension at all.
pub open spec fn product(dims: Seq<usize>) -> nat
    decreases dims.len(),
{
    if dims.len() == 0 {
        1
    } else {
        product(dims.drop_last()) * (dims.last() as nat)
    }
}

/// No dimension is empty.
pub open spec fn all_positive(dims: Seq<usize>) -> bool {
    forall|i: int| 0 <= i < dims.len() ==> dims[i] > 0
}

/// The dimension sizes that a shape can hold: none is zero, and their
/// product is a length that a buffer can have.
pub open spec fn valid_dims(dims: Seq<usize>) -> bool {
    all_positive(dims) && product(dims) <= usize::MAX
}

/// A product of positive sizes is positive.
pub proof fn lemma_product_positive(dims: Seq<usize>)
    requires
        all_positive(dims),
    ensures
        product(dims) >= 1,
    decreases dims.len(),
{
    if dims.len() > 0 {
        lemma_product_positive(dims.drop_last());
        assert(product(dims.drop_last()) * (dims.last() as nat) >= 1) by (nonlinear_arith)
            requires
                product(dims.drop_last()) >= 1,
                dims.last() >= 1,
        ;
    }
}

/// With positive sizes, the product over the first `n` dimensions never
/// exceeds the product over all of them.
pub proof fn lemma_product_prefix(dims: Seq<usize>, n: int)
    requires
        all_positive(dims),
        0 <= n <= dims.len(),
    ensures
        product(dims.take(n)) <= product(dims),
    decreases dims.len(),
{
    if n == dims.len() {
        assert(dims.take(n) =~= dims);
    } else {
        let front = dims.drop_last();
        assert(front.take(n) =~= dims.take(n));
        lemma_product_prefix(front, n);
        assert(product(front) <= product(front) * (dims.last() as nat)) by (nonlinear_arith)
            requires
                dims.last() >= 1,
        ;
    }
}

/// An ordered list of dimension sizes, each positive, with its size (the
/// product of the dimensions) kept beside it.
#[derive(Debug)]
pub struct Shape {
    dims: Vec<usize>,
    size: usize,
}

impl View for Shape {
    type V = Seq<usize>;

    closed spec fn view(&self) -> Seq<usize> {
        self.dims@
    }
}

impl Shape {
    #[verifier::type_invariant]
    spec fn inv(&self) -> bool {
        valid_dims(self.dims@) && self.size == product(self.dims@)
    }

    /// The shape with the given dimension sizes, if they are valid.
    pub fn new(dims: Vec<usize>) -> (r: Option<Shape>)
        ensures
            r is Some <==> valid_dims(dims@),
            r is Some ==> r->Some_0@ == dims@,
    {
        let mut size: usize = 1;
        let mut i: usize = 0;
        while i < dims.len()
            invariant
                i <= dims.len(),
                size == product(dims@.take(i as int)),
                all_positive(dims@.take(i as int)),
            decreases dims.len() - i,
        {
            let d = dims[i];
            proof {
                assert(dims@.take(i + 1).drop_last() =~= dims@.take(i as int));
                assert(dims@.take(i + 1).last() == d);
            }
            if d == 0 {
                return None;
            }
            match size.checked_mul(d) {
                Some(p) => {
                    size = p;
                },
                None => {
                    proof {
                        if all_positive(dims@) {
                            lemma_product_prefix(dims@, i + 1);
                        }
                    }
                    return None;
                },
            }
            i += 1;
        }
        proof {
            assert(dims@.take(i as int) =~= dims@);
        }
        Some(Shape { dims, size })
    }

    /// The number of elements of a tensor of this shape.
    pub fn size(&self) -> (n: usize)
        ensures
            n == product(self@),
            n >= 1,
            valid_dims(self@),
    {
        proof {
            use_type_invariant(self);
            lemma_product_positive(self.dims@);
        }
        self.size
    }

    /// Whether the two shapes have the same dimension sizes.
    pub fn same_as(&self, other: &Shape) -> (r: bool)
        ensures
            r == (self@ == other@),
    {
        let n = self.dims.len();
        if other.dims.len() != n {
            return false;
        }
        let mut i: usize = 0;
        while i < n
            invariant
                n == self.dims@.len(),
                n == other.dims@.len(),
                i <= n,
                forall|k: int| 0 <= k < i ==> self.dims@[k] == other.dims@[k],
            decreases n - i,
        {
            if self.dims[i] != other.dims[i] {
                return false;
            }
            i += 1;
        }
        assert(self.dims@ =~= other.dims@);
        true
    }

    /// The dimension sizes, outermost first.
    pub fn dims(&self) -> (d: &Vec<usize>)
        ensures
            d@ == self@,
    {
        &self.dims
    }
}

impl Clone for Shape {
    fn clone(&self) -> (r: Self)
        ensures
            r@ == self@,
    {
        proof {
            use_type_invariant(self);
        }
        let dims = self.dims.clone();
        assert(dims@ =~= self.dims@);
        Shape { dims, size: self.size }
    }
}

impl PartialEq for Shape {
    fn eq(&self, other: &Self) -> (r: bool) {
        self.same_as(other)
    }
}

impl vstd::std_specs::cmp::PartialEqSpecImpl for Shape {
    open spec fn obeys_eq_spec() -> bool {
        true
    }

    open spec fn eq_spec(&self, other: &Self) -> bool {
        self@ == other@
    }
}

} // verus!

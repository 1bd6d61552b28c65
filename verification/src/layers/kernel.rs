//! The work of one worker: each function here computes on the slices of
//! one chunk and touches nothing else, so that chunks can be handed to
//! workers that run side by side.

use crate::layers::activation::Activation;
use crate::layers::model;
use crate::tensor::NumT;
use vstd::prelude::*;
use vstd::slice::slice_subrange;

verus! {

/// Rows `lo` up to `hi` of a row-major buffer whose rows hold `width`
/// elements.
pub fn rows<T>(buf: &[T], width: usize, lo: usize, hi: usize) -> (part: &[T])
    requires
        lo <= hi,
        hi * width <= buf@.len(),
    ensures
        part@ == model::rows(buf@, width as nat, lo as int, hi as int),
        part@.len() == (hi - lo) * width,
{
    let len = buf.len();
    proof {
        model::lemma_rows_bounds(width as nat, lo as int, hi as int, hi as int);
        assert(lo * width <= hi * width <= len);
    }
    slice_subrange(buf, lo * width, hi * width)
}

/// Row `j` of a row-major buffer whose rows hold `width` elements.
pub fn row<T>(buf: &[T], width: usize, j: usize) -> (part: &[T])
    requires
        (j + 1) * width <= buf@.len(),
    ensures
        part@ == model::row(buf@, width as nat, j as int),
        part@.len() == width,
{
    let len = buf.len();
    proof {
        model::lemma_rows_bounds(width as nat, j as int, j + 1, j + 1);
        assert((j + 1) * width - j * width == width) by (nonlinear_arith);
        assert((j + 1) * width <= len);
    }
    if width == 0 {
        assert(j * width == 0 && (j + 1) * width == 0) by (nonlinear_arith)
            requires
                width == 0,
        ;
        rows(buf, width, 0, 0)
    } else {
        assert(j + 1 <= usize::MAX) by (nonlinear_arith)
            requires
                (j + 1) * width <= usize::MAX,
                width >= 1,
        ;
        rows(buf, width, j, j + 1)
    }
}

/// Rows `lo` up to `hi` of a row-major buffer whose rows hold `width`
/// elements, to be written: what is written there is written to the
/// buffer, and the rest of the buffer stays as it is.
pub fn rows_mut<T>(buf: &mut [T], width: usize, lo: usize, hi: usize) -> (part: &mut [T])
    requires
        lo <= hi,
        hi * width <= old(buf)@.len(),
    ensures
        part@ == model::rows(old(buf)@, width as nat, lo as int, hi as int),
        part@.len() == (hi - lo) * width,
        final(buf)@ == old(buf)@.subrange(0, lo * width) + final(part)@ + old(buf)@.subrange(
            hi * width,
            old(buf)@.len() as int,
        ),
{
    let len = buf.len();
    proof {
        model::lemma_rows_bounds(width as nat, lo as int, hi as int, hi as int);
        assert(lo * width <= hi * width <= len);
    }
    let (_, tail) = buf.split_at_mut(lo * width);
    let (part, _) = tail.split_at_mut(hi * width - lo * width);
    part
}

/// The weighted input of one unit: `bias` plus the products of the unit's
/// weights with the inputs, added in ascending order.
pub fn weighted_input<T: NumT>(w: &[T], bias: T, x: &[T]) -> (z: T)
    requires
        w@.len() == x@.len(),
    ensures
        z == model::weighted_sum(bias, w@, x@, x@.len()),
{
    let n = x.len();
    let mut z = bias;
    let mut k: usize = 0;
    while k < n
        invariant
            n == x@.len(),
            n == w@.len(),
            k <= n,
            z == model::weighted_sum(bias, w@, x@, k as nat),
        decreases n - k,
    {
        z = z.add(w[k].mul(x[k]));
        k += 1;
    }
    z
}

/// The forward pass of one chunk of output units: `out[j]` becomes what
/// the unit with weights row `j` and bias `bias[j]` yields on `x`.
pub fn forward_rows<T: NumT>(
    out: &mut [T],
    weights: &[T],
    bias: &[T],
    x: &[T],
    activation: Activation,
    activate: bool,
)
    requires
        old(out)@.len() == bias@.len(),
        weights@.len() == bias@.len() * x@.len(),
    ensures
        final(out)@ == model::forward(weights@, bias@, x@, activation, activate),
{
    let n = bias.len();
    let width = x.len();
    let mut j: usize = 0;
    while j < n
        invariant
            n == bias@.len(),
            out@.len() == n,
            width == x@.len(),
            weights@.len() == n * width,
            j <= n,
            forall|i: int|
                0 <= i < j ==> out@[i] == model::unit_output(
                    model::row(weights@, width as nat, i),
                    bias@[i],
                    x@,
                    activation,
                    activate,
                ),
        decreases n - j,
    {
        proof {
            model::lemma_rows_bounds(width as nat, j as int, j + 1, n as int);
        }
        let z = weighted_input(row(weights, width, j), bias[j], x);
        out[j] = if activate {
            activation.call(z)
        } else {
            z
        };
        j += 1;
    }
    assert(out@ =~= model::forward(weights@, bias@, x@, activation, activate));
}

/// The backward contributions of one chunk of output units: every weight
/// of the chunk times the error signal of its unit.
pub fn scale_rows<T: NumT>(prod: &mut [T], weights: &[T], delta: &[T], width: usize)
    requires
        old(prod)@.len() == weights@.len(),
        weights@.len() == delta@.len() * width,
    ensures
        final(prod)@ == model::scaled(weights@, delta@, width as nat),
{
    let n = delta.len();
    let len = weights.len();
    let mut j: usize = 0;
    while j < n
        invariant
            n == delta@.len(),
            len == weights@.len(),
            len == n * width,
            prod@.len() == len,
            j <= n,
            forall|i: int|
                0 <= i < j * width ==> prod@[i] == weights@[i].mul_spec(
                    delta@[i / (width as int)],
                ),
        decreases n - j,
    {
        let d = delta[j];
        proof {
            model::lemma_rows_bounds(width as nat, j as int, j + 1, n as int);
            assert((j + 1) * width == j * width + width) by (nonlinear_arith);
        }
        let base = j * width;
        let mut k: usize = 0;
        while k < width
            invariant
                len == weights@.len(),
                prod@.len() == len,
                base == j * width,
                base + width <= len,
                d == delta@[j as int],
                k <= width,
                forall|i: int|
                    0 <= i < base + k ==> prod@[i] == weights@[i].mul_spec(
                        delta@[i / (width as int)],
                    ),
            decreases width - k,
        {
            proof {
                model::lemma_cell(j as int, k as int, width as int);
            }
            prod[base + k] = weights[base + k].mul(d);
            k += 1;
        }
        j += 1;
    }
    assert(prod@ =~= model::scaled(weights@, delta@, width as nat));
}

/// Adds two rows element by element and leaves the sum in both.
pub fn add_rows<T: NumT>(a: &mut [T], b: &mut [T])
    requires
        old(a)@.len() == old(b)@.len(),
    ensures
        final(a)@ == model::row_sum(old(a)@, old(b)@),
        final(b)@ == model::row_sum(old(a)@, old(b)@),
{
    let n = a.len();
    let mut k: usize = 0;
    while k < n
        invariant
            n == old(a)@.len(),
            a@.len() == n,
            b@.len() == n,
            k <= n,
            forall|i: int| 0 <= i < k ==> a@[i] == old(a)@[i].add_spec(old(b)@[i]),
            forall|i: int| 0 <= i < k ==> b@[i] == a@[i],
            forall|i: int| k <= i < n ==> a@[i] == old(a)@[i] && b@[i] == old(b)@[i],
        decreases n - k,
    {
        let sum = a[k].add(b[k]);
        a[k] = sum;
        b[k] = sum;
        k += 1;
    }
    assert(a@ =~= model::row_sum(old(a)@, old(b)@));
    assert(b@ =~= model::row_sum(old(a)@, old(b)@));
}

/// Sums the `n` rows of a buffer into its first row, as a tree: the two
/// halves of the rows are summed each into its own first row, and these
/// two are added. The other rows are left holding sums of parts.
pub fn reduce_rows<T: NumT>(buf: &mut [T], width: usize, n: usize)
    requires
        n >= 1,
        old(buf)@.len() == n * width,
    ensures
        final(buf)@.len() == old(buf)@.len(),
        model::row(final(buf)@, width as nat, 0) == model::column_sums(
            old(buf)@,
            width as nat,
            n as nat,
        ),
    decreases n,
{
    if n > 1 {
        let mid = n / 2;
        proof {
            model::lemma_rows_bounds(width as nat, 0, mid as int, n as int);
            model::lemma_rows_bounds(width as nat, mid as int, n as int, n as int);
            model::lemma_rows_bounds(width as nat, 0, 1, mid as int);
            model::lemma_rows_bounds(width as nat, 0, 1, n - mid);
        }
        let len = buf.len();
        assert(mid * width <= len);
        let (left, right) = buf.split_at_mut(mid * width);
        reduce_rows(left, width, mid);
        reduce_rows(right, width, n - mid);
        add_rows(rows_mut(left, width, 0, 1), rows_mut(right, width, 0, 1));
    }
}

/// One element of the error signal of the layer before: the summed
/// contributions `sum` of an input unit times the derivative of the
/// earlier layer's activation function at the unit's earlier value `a`.
pub fn chain<T: NumT>(sum: T, a: T, prev_activation: Activation) -> (d: T)
    ensures
        d == sum.mul_spec(prev_activation.diff_spec(a)),
{
    sum.mul(prev_activation.diff(a))
}

/// The step of gradient descent on one chunk of weight rows: the weight
/// from input unit `k` to the chunk's unit `j` gives up
/// `rate * delta[j] * a_prev[k]`.
pub fn descend_rows<T: NumT>(weights: &mut [T], delta: &[T], a_prev: &[T], rate: T)
    requires
        old(weights)@.len() == delta@.len() * a_prev@.len(),
    ensures
        final(weights)@ == model::descended_weights(old(weights)@, delta@, a_prev@, rate),
{
    let n = delta.len();
    let width = a_prev.len();
    let len = weights.len();
    let mut j: usize = 0;
    while j < n
        invariant
            n == delta@.len(),
            width == a_prev@.len(),
            len == n * width,
            weights@.len() == len,
            old(weights)@.len() == len,
            j <= n,
            forall|i: int|
                0 <= i < j * width ==> weights@[i] == old(weights)@[i].sub_spec(
                    rate.mul_spec(delta@[i / (width as int)]).mul_spec(
                        a_prev@[i % (width as int)],
                    ),
                ),
            forall|i: int| j * width <= i < len ==> weights@[i] == old(weights)@[i],
        decreases n - j,
    {
        let step = rate.mul(delta[j]);
        proof {
            model::lemma_rows_bounds(width as nat, j as int, j + 1, n as int);
            assert((j + 1) * width == j * width + width) by (nonlinear_arith);
        }
        let base = j * width;
        let mut k: usize = 0;
        while k < width
            invariant
                width == a_prev@.len(),
                weights@.len() == len,
                old(weights)@.len() == len,
                base == j * width,
                base + width <= len,
                j < n,
                n == delta@.len(),
                step == rate.mul_spec(delta@[j as int]),
                k <= width,
                forall|i: int|
                    0 <= i < base + k ==> weights@[i] == old(weights)@[i].sub_spec(
                        rate.mul_spec(delta@[i / (width as int)]).mul_spec(
                            a_prev@[i % (width as int)],
                        ),
                    ),
                forall|i: int| base + k <= i < len ==> weights@[i] == old(weights)@[i],
            decreases width - k,
        {
            proof {
                model::lemma_cell(j as int, k as int, width as int);
            }
            weights[base + k] = weights[base + k].sub(step.mul(a_prev[k]));
            k += 1;
        }
        j += 1;
    }
    assert(weights@ =~= model::descended_weights(old(weights)@, delta@, a_prev@, rate));
}

/// The step of gradient descent on one bias: it gives up `rate * delta`.
pub fn descend_bias<T: NumT>(bias: T, delta: T, rate: T) -> (b: T)
    ensures
        b == bias.sub_spec(rate.mul_spec(delta)),
{
    bias.sub(rate.mul(delta))
}

/// The step of gradient descent on the biases: the bias of unit `j` gives
/// up `rate * delta[j]`.
pub fn descend_biases<T: NumT>(bias: &mut [T], delta: &[T], rate: T)
    requires
        old(bias)@.len() == delta@.len(),
    ensures
        final(bias)@ == model::descended_biases(old(bias)@, delta@, rate),
{
    let n = delta.len();
    let mut j: usize = 0;
    while j < n
        invariant
            n == delta@.len(),
            bias@.len() == n,
            old(bias)@.len() == n,
            j <= n,
            forall|i: int|
                0 <= i < j ==> bias@[i] == old(bias)@[i].sub_spec(rate.mul_spec(delta@[i])),
            forall|i: int| j <= i < n ==> bias@[i] == old(bias)@[i],
        decreases n - j,
    {
        bias[j] = descend_bias(bias[j], delta[j], rate);
        j += 1;
    }
    assert(bias@ =~= model::descended_biases(old(bias)@, delta@, rate));
}

} // verus!

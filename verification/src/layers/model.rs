//! The mathematical model of a dense layer.
//!
//! Weights are one flat row-major buffer: row `j` holds the weights of
//! output unit `j` over all input units. The functions below say what each
//! operation of the layer computes, down to the order in which the element
//! type's operations are applied.

use crate::layers::activation::Activation;
use crate::layers::partition::chunk_count;
use crate::layers::partition::chunk_len;
use crate::layers::partition::joined;
use crate::layers::partition::lemma_joined;
use crate::tensor::NumT;
use vstd::arithmetic::div_mod::lemma_fundamental_div_mod_converse;
use vstd::prelude::*;

verus! {

/// Rows `lo` up to `hi` of a row-major buffer whose rows hold `width`
/// elements.
pub open spec fn rows<T>(buf: Seq<T>, width: nat, lo: int, hi: int) -> Seq<T> {
    buf.subrange(lo * width, hi * width)
}

/// Row `j` of a row-major buffer whose rows hold `width` elements.
pub open spec fn row<T>(buf: Seq<T>, width: nat, j: int) -> Seq<T> {
    rows(buf, width, j, j + 1)
}

/// `acc + w[0] * x[0] + ... + w[n - 1] * x[n - 1]`, the terms added one
/// after the other in ascending order.
pub open spec fn weighted_sum<T: NumT>(acc: T, w: Seq<T>, x: Seq<T>, n: nat) -> T
    decreases n,
{
    if n == 0 {
        acc
    } else {
        weighted_sum(acc, w, x, (n - 1) as nat).add_spec(w[n - 1].mul_spec(x[n - 1]))
    }
}

/// What one output unit yields on input `x`: its bias plus the weighted
/// sum of the inputs, passed through the activation function if asked.
pub open spec fn unit_output<T: NumT>(
    w: Seq<T>,
    b: T,
    x: Seq<T>,
    activation: Activation,
    activate: bool,
) -> T {
    let z = weighted_sum(b, w, x, x.len());
    if activate {
        activation.call_spec(z)
    } else {
        z
    }
}

/// What the units with the given weight rows and biases yield on input
/// `x`, one element per unit.
pub open spec fn forward<T: NumT>(
    weights: Seq<T>,
    bias: Seq<T>,
    x: Seq<T>,
    activation: Activation,
    activate: bool,
) -> Seq<T> {
    Seq::new(
        bias.len(),
        |j: int| unit_output(row(weights, x.len(), j), bias[j], x, activation, activate),
    )
}

/// The activation function applied to every element.
pub open spec fn activated<T: NumT>(z: Seq<T>, activation: Activation) -> Seq<T> {
    Seq::new(z.len(), |i: int| activation.call_spec(z[i]))
}

/// The contribution of every weight to the error signal of the layer
/// before: each weight times the error signal of its own output unit, laid
/// out as the weights are.
pub open spec fn scaled<T: NumT>(weights: Seq<T>, delta: Seq<T>, width: nat) -> Seq<T> {
    Seq::new(weights.len(), |i: int| weights[i].mul_spec(delta[i / (width as int)]))
}

/// The elementwise sum of two rows.
pub open spec fn row_sum<T: NumT>(a: Seq<T>, b: Seq<T>) -> Seq<T> {
    Seq::new(a.len(), |k: int| a[k].add_spec(b[k]))
}

/// The elementwise sum of the `n` rows of a buffer, added up as a tree:
/// the rows are split in two halves (the second the longer one where `n`
/// is odd), each half is summed the same way, and the two sums are added.
pub open spec fn column_sums<T: NumT>(buf: Seq<T>, width: nat, n: nat) -> Seq<T>
    decreases n,
{
    if n <= 1 {
        row(buf, width, 0)
    } else {
        let mid = n / 2;
        row_sum(
            column_sums(rows(buf, width, 0, mid as int), width, mid),
            column_sums(rows(buf, width, mid as int, n as int), width, (n - mid) as nat),
        )
    }
}

/// The error signal of the layer before: for each input unit, the sum
/// over the output units of weight times error signal, times the
/// derivative of the earlier layer's activation function at that unit's
/// earlier value.
pub open spec fn previous_delta<T: NumT>(
    weights: Seq<T>,
    delta: Seq<T>,
    a_prev: Seq<T>,
    prev_activation: Activation,
) -> Seq<T> {
    let sums = column_sums(scaled(weights, delta, a_prev.len()), a_prev.len(), delta.len());
    Seq::new(a_prev.len(), |k: int| sums[k].mul_spec(prev_activation.diff_spec(a_prev[k])))
}

/// The weights after one step of gradient descent: the weight from input
/// unit `k` to output unit `j` gives up `rate * delta[j] * a_prev[k]`.
pub open spec fn descended_weights<T: NumT>(
    weights: Seq<T>,
    delta: Seq<T>,
    a_prev: Seq<T>,
    rate: T,
) -> Seq<T> {
    Seq::new(
        weights.len(),
        |i: int|
            weights[i].sub_spec(
                rate.mul_spec(delta[i / (a_prev.len() as int)]).mul_spec(
                    a_prev[i % (a_prev.len() as int)],
                ),
            ),
    )
}

/// The biases after one step of gradient descent: the bias of output unit
/// `j` gives up `rate * delta[j]`.
pub open spec fn descended_biases<T: NumT>(bias: Seq<T>, delta: Seq<T>, rate: T) -> Seq<T> {
    Seq::new(bias.len(), |j: int| bias[j].sub_spec(rate.mul_spec(delta[j])))
}

/// In a buffer whose rows hold `width` elements, the element at column `k`
/// of row `j` has index `j * width + k`.
pub proof fn lemma_cell(j: int, k: int, width: int)
    requires
        0 <= k < width,
    ensures
        (j * width + k) / width == j,
        (j * width + k) % width == k,
{
    lemma_fundamental_div_mod_converse(j * width + k, width, j, k);
}

/// Rows `lo` up to `hi` lie inside a buffer of `n` rows.
pub proof fn lemma_rows_bounds(width: nat, lo: int, hi: int, n: int)
    requires
        0 <= lo <= hi <= n,
    ensures
        0 <= lo * width <= hi * width <= n * width,
        hi * width - lo * width == (hi - lo) * width,
{
    assert(0 <= lo * width <= hi * width <= n * width) by (nonlinear_arith)
        requires
            0 <= lo <= hi <= n,
            0 <= width,
    ;
    assert(hi * width - lo * width == (hi - lo) * width) by (nonlinear_arith);
}

/// A row of a run of rows is a row of the whole buffer.
pub proof fn lemma_row_of_rows<T>(buf: Seq<T>, width: nat, lo: int, hi: int, j: int)
    requires
        0 <= lo <= hi,
        hi * width <= buf.len(),
        0 <= j < hi - lo,
    ensures
        row(rows(buf, width, lo, hi), width, j) == row(buf, width, lo + j),
{
    lemma_rows_bounds(width, lo, hi, hi);
    lemma_rows_bounds(width, j, j + 1, hi - lo);
    lemma_rows_bounds(width, lo + j, lo + j + 1, hi);
    assert(lo * width + j * width == (lo + j) * width) by (nonlinear_arith);
    assert(lo * width + (j + 1) * width == (lo + j + 1) * width) by (nonlinear_arith);
    assert(row(rows(buf, width, lo, hi), width, j) =~= row(buf, width, lo + j));
}

/// The units of a chunk yield what they yield within the whole layer: the
/// forward pass over rows `lo` up to `hi` alone is that part of the forward
/// pass over all rows.
pub proof fn lemma_forward_chunk<T: NumT>(
    weights: Seq<T>,
    bias: Seq<T>,
    x: Seq<T>,
    activation: Activation,
    activate: bool,
    lo: int,
    hi: int,
)
    requires
        0 <= lo <= hi <= bias.len(),
        weights.len() == bias.len() * x.len(),
    ensures
        forward(rows(weights, x.len(), lo, hi), bias.subrange(lo, hi), x, activation, activate)
            == forward(weights, bias, x, activation, activate).subrange(lo, hi),
{
    let part = forward(
        rows(weights, x.len(), lo, hi),
        bias.subrange(lo, hi),
        x,
        activation,
        activate,
    );
    let whole = forward(weights, bias, x, activation, activate);
    lemma_rows_bounds(x.len(), lo, hi, bias.len() as int);
    assert forall|j: int| 0 <= j < hi - lo implies part[j] == whole[lo + j] by {
        lemma_row_of_rows(weights, x.len(), lo, hi, j);
    }
    assert(part =~= whole.subrange(lo, hi));
}

/// Within rows `lo` up to `hi`, an element sits in the same column as in
/// the whole buffer, `lo` rows further up.
pub proof fn lemma_cell_of_rows(i: int, width: int, lo: int)
    requires
        0 <= i,
        0 < width,
        0 <= lo,
    ensures
        (lo * width + i) / width == lo + i / width,
        (lo * width + i) % width == i % width,
{
    let j = i / width;
    let k = i % width;
    assert(i == j * width + k && 0 <= k < width) by (nonlinear_arith)
        requires
            j == i / width,
            k == i % width,
            0 < width,
    ;
    assert(lo * width + i == (lo + j) * width + k) by (nonlinear_arith)
        requires
            i == j * width + k,
    ;
    lemma_cell(lo + j, k, width);
}

/// The contributions of a chunk of rows are what they are within the
/// whole layer.
pub proof fn lemma_scaled_chunk<T: NumT>(
    weights: Seq<T>,
    delta: Seq<T>,
    width: nat,
    lo: int,
    hi: int,
)
    requires
        0 <= lo <= hi <= delta.len(),
        weights.len() == delta.len() * width,
    ensures
        scaled(rows(weights, width, lo, hi), delta.subrange(lo, hi), width) == rows(
            scaled(weights, delta, width),
            width,
            lo,
            hi,
        ),
{
    let part = scaled(rows(weights, width, lo, hi), delta.subrange(lo, hi), width);
    let whole = scaled(weights, delta, width);
    lemma_rows_bounds(width, lo, hi, delta.len() as int);
    assert forall|i: int| 0 <= i < (hi - lo) * width implies part[i] == whole[lo * width + i] by {
        lemma_cell_of_rows(i, width as int, lo);
        assert(0 <= i / (width as int) < hi - lo) by (nonlinear_arith)
            requires
                0 <= i < (hi - lo) * width,
                0 < width,
        ;
    }
    assert(part =~= rows(whole, width, lo, hi));
}

/// The step of gradient descent on a chunk of rows is what it is within
/// the whole layer.
pub proof fn lemma_descended_chunk<T: NumT>(
    weights: Seq<T>,
    delta: Seq<T>,
    a_prev: Seq<T>,
    rate: T,
    lo: int,
    hi: int,
)
    requires
        0 <= lo <= hi <= delta.len(),
        weights.len() == delta.len() * a_prev.len(),
    ensures
        descended_weights(rows(weights, a_prev.len(), lo, hi), delta.subrange(lo, hi), a_prev, rate)
            == rows(descended_weights(weights, delta, a_prev, rate), a_prev.len(), lo, hi),
{
    let width = a_prev.len();
    let part = descended_weights(
        rows(weights, width, lo, hi),
        delta.subrange(lo, hi),
        a_prev,
        rate,
    );
    let whole = descended_weights(weights, delta, a_prev, rate);
    lemma_rows_bounds(width, lo, hi, delta.len() as int);
    assert forall|i: int| 0 <= i < (hi - lo) * width implies part[i] == whole[lo * width + i] by {
        lemma_cell_of_rows(i, width as int, lo);
        assert(0 <= i / (width as int) < hi - lo) by (nonlinear_arith)
            requires
                0 <= i < (hi - lo) * width,
                0 < width,
        ;
    }
    assert(part =~= rows(whole, width, lo, hi));
}

/// The forward pass does not depend on the number of workers: where each
/// worker computes the units of its own chunk from the weight rows and
/// biases of that chunk alone, the chunks put together are the forward
/// pass of the whole layer, for every number of workers.
pub proof fn lemma_forward_any_workers<T: NumT>(
    weights: Seq<T>,
    bias: Seq<T>,
    x: Seq<T>,
    activation: Activation,
    activate: bool,
    workers: nat,
)
    requires
        weights.len() == bias.len() * x.len(),
    ensures
        joined(
            |lo: int, hi: int|
                forward(
                    rows(weights, x.len(), lo, hi),
                    bias.subrange(lo, hi),
                    x,
                    activation,
                    activate,
                ),
            bias.len(),
            chunk_len(bias.len(), workers),
            chunk_count(bias.len(), chunk_len(bias.len(), workers)),
        ) == forward(weights, bias, x, activation, activate),
{
    let part = |lo: int, hi: int|
        forward(rows(weights, x.len(), lo, hi), bias.subrange(lo, hi), x, activation, activate);
    let whole = forward(weights, bias, x, activation, activate);
    let chunk = chunk_len(bias.len(), workers);
    assert forall|lo: int, hi: int| 0 <= lo <= hi <= bias.len() implies #[trigger] part(lo, hi)
        == whole.subrange(lo * 1, hi * 1) by {
        lemma_forward_chunk(weights, bias, x, activation, activate, lo, hi);
    }
    lemma_joined(part, whole, 1, bias.len(), chunk, chunk_count(bias.len(), chunk));
}

/// The contributions of the weights to the earlier layer's error signal
/// do not depend on the number of workers; nor does their sum, whose tree
/// is a matter of the number of output units alone.
pub proof fn lemma_scaled_any_workers<T: NumT>(
    weights: Seq<T>,
    delta: Seq<T>,
    width: nat,
    workers: nat,
)
    requires
        weights.len() == delta.len() * width,
    ensures
        joined(
            |lo: int, hi: int| scaled(rows(weights, width, lo, hi), delta.subrange(lo, hi), width),
            delta.len(),
            chunk_len(delta.len(), workers),
            chunk_count(delta.len(), chunk_len(delta.len(), workers)),
        ) == scaled(weights, delta, width),
{
    let part = |lo: int, hi: int|
        scaled(rows(weights, width, lo, hi), delta.subrange(lo, hi), width);
    let whole = scaled(weights, delta, width);
    let chunk = chunk_len(delta.len(), workers);
    assert forall|lo: int, hi: int| 0 <= lo <= hi <= delta.len() implies #[trigger] part(lo, hi)
        == whole.subrange(lo * width, hi * width) by {
        lemma_scaled_chunk(weights, delta, width, lo, hi);
    }
    lemma_joined(part, whole, width, delta.len(), chunk, chunk_count(delta.len(), chunk));
}

/// The step of gradient descent does not depend on the number of workers:
/// where each worker updates the weight rows of its own chunk, the chunks
/// put together are the updated weights of the whole layer, for every
/// number of workers.
pub proof fn lemma_descended_any_workers<T: NumT>(
    weights: Seq<T>,
    delta: Seq<T>,
    a_prev: Seq<T>,
    rate: T,
    workers: nat,
)
    requires
        weights.len() == delta.len() * a_prev.len(),
    ensures
        joined(
            |lo: int, hi: int|
                descended_weights(
                    rows(weights, a_prev.len(), lo, hi),
                    delta.subrange(lo, hi),
                    a_prev,
                    rate,
                ),
            delta.len(),
            chunk_len(delta.len(), workers),
            chunk_count(delta.len(), chunk_len(delta.len(), workers)),
        ) == descended_weights(weights, delta, a_prev, rate),
{
    let part = |lo: int, hi: int|
        descended_weights(
            rows(weights, a_prev.len(), lo, hi),
            delta.subrange(lo, hi),
            a_prev,
            rate,
        );
    let whole = descended_weights(weights, delta, a_prev, rate);
    let chunk = chunk_len(delta.len(), workers);
    assert forall|lo: int, hi: int| 0 <= lo <= hi <= delta.len() implies #[trigger] part(lo, hi)
        == whole.subrange(lo * a_prev.len(), hi * a_prev.len()) by {
        lemma_descended_chunk(weights, delta, a_prev, rate, lo, hi);
    }
    lemma_joined(part, whole, a_prev.len(), delta.len(), chunk, chunk_count(delta.len(), chunk));
}

/// The forward pass with activation is the forward pass without it,
/// followed by the activation function on every element.
pub proof fn lemma_forward_then_activate<T: NumT>(
    weights: Seq<T>,
    bias: Seq<T>,
    x: Seq<T>,
    activation: Activation,
)
    ensures
        forward(weights, bias, x, activation, true) == activated(
            forward(weights, bias, x, activation, false),
            activation,
        ),
{
    assert(forward(weights, bias, x, activation, true) =~= activated(
        forward(weights, bias, x, activation, false),
        activation,
    ));
}

} // verus!

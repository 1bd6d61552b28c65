//! The split of an index range into contiguous chunks, one per worker.

use vstd::prelude::*;

verus! {

/// `total / divisor`, rounded up.
pub open spec fn div_ceil(total: nat, divisor: nat) -> nat {
    if total % divisor == 0 {
        total / divisor
    } else {
        total / divisor + 1
    }
}

/// The length of the chunks into which `total` indices are split for
/// `workers` workers: `total / workers`, rounded up. No worker at all
/// counts as one, and a chunk holds at least one index.
pub open spec fn chunk_len(total: nat, workers: nat) -> nat {
    let per_worker = div_ceil(total, if workers == 0 { 1 } else { workers });
    if per_worker == 0 {
        1
    } else {
        per_worker
    }
}

/// The number of chunks of length `chunk` that it takes to hold `total`
/// indices.
pub open spec fn chunk_count(total: nat, chunk: nat) -> nat {
    div_ceil(total, chunk)
}

/// The first index of chunk `i`; `total` for a chunk past the last one.
pub open spec fn chunk_start(total: nat, chunk: nat, i: nat) -> nat {
    if i * chunk < total {
        i * chunk
    } else {
        total
    }
}

/// The index after the last one of chunk `i`: where the next chunk starts.
pub open spec fn chunk_end(total: nat, chunk: nat, i: nat) -> nat {
    chunk_start(total, chunk, i + 1)
}

/// Rounding up gives the least multiple that reaches `total`.
pub proof fn lemma_div_ceil(total: nat, divisor: nat)
    requires
        divisor > 0,
    ensures
        div_ceil(total, divisor) * divisor >= total,
        total > 0 ==> (div_ceil(total, divisor) - 1) * divisor < total,
        total > 0 ==> div_ceil(total, divisor) >= 1,
        total == 0 ==> div_ceil(total, divisor) == 0,
{
    let q = total / divisor;
    let r = total % divisor;
    assert(total == q * divisor + r && 0 <= r < divisor) by (nonlinear_arith)
        requires
            divisor > 0,
            q == total / divisor,
            r == total % divisor,
    ;
    assert((q + 1) * divisor == q * divisor + divisor) by (nonlinear_arith);
    assert((q - 1) * divisor == q * divisor - divisor) by (nonlinear_arith);
    if total > 0 && r == 0 {
        assert(q >= 1) by (nonlinear_arith)
            requires
                total == q * divisor,
                total > 0,
                divisor > 0,
        ;
    }
    if total == 0 {
        assert(q == 0) by (nonlinear_arith)
            requires
                0 == q * divisor + r,
                0 <= r,
                divisor > 0,
                q >= 0,
        ;
    }
}

/// There are never more chunks than workers: every worker gets at most
/// one chunk.
pub proof fn lemma_chunks_within_workers(total: nat, workers: nat)
    ensures
        chunk_count(total, chunk_len(total, workers)) <= if workers == 0 {
            1
        } else {
            workers
        },
{
    let w: nat = if workers == 0 { 1 } else { workers };
    let chunk = chunk_len(total, workers);
    let count = chunk_count(total, chunk);
    lemma_div_ceil(total, w);
    lemma_div_ceil(total, chunk);
    if total > 0 {
        assert(count <= w) by (nonlinear_arith)
            requires
                chunk * w >= total,
                (count - 1) * chunk < total,
                chunk >= 1,
                w >= 1,
                count >= 1,
        ;
    }
}

/// The chunks tile the range: the first starts at 0, each ends where the
/// next starts, each of the first `chunk_count` holds between one and
/// `chunk` indices, and the last of them ends at `total`. Chunks past the
/// last one are empty.
pub proof fn lemma_chunks_tile(total: nat, chunk: nat, i: nat)
    requires
        chunk > 0,
    ensures
        chunk_start(total, chunk, 0) == 0,
        chunk_start(total, chunk, i) <= chunk_end(total, chunk, i) <= total,
        chunk_end(total, chunk, i) - chunk_start(total, chunk, i) <= chunk,
        i < chunk_count(total, chunk) ==> chunk_start(total, chunk, i) == i * chunk
            && chunk_start(total, chunk, i) < chunk_end(total, chunk, i),
        i + 1 >= chunk_count(total, chunk) ==> chunk_end(total, chunk, i) == total,
        i >= chunk_count(total, chunk) ==> chunk_start(total, chunk, i) == total,
{
    let count = chunk_count(total, chunk);
    lemma_div_ceil(total, chunk);
    assert((i + 1) * chunk == i * chunk + chunk) by (nonlinear_arith);
    assert(0 * chunk == 0) by (nonlinear_arith);
    if i < count {
        assert(i * chunk < total) by (nonlinear_arith)
            requires
                i <= count - 1,
                (count - 1) * chunk < total,
                chunk > 0,
        ;
    }
    if i + 1 >= count {
        assert((i + 1) * chunk >= total) by (nonlinear_arith)
            requires
                i + 1 >= count,
                count * chunk >= total,
                chunk > 0,
        ;
    }
    if i >= count {
        assert(i * chunk >= total) by (nonlinear_arith)
            requires
                i >= count,
                count * chunk >= total,
                chunk > 0,
        ;
    }
}

/// Rows are split in lockstep with their indices: where `total` rows of
/// `width` elements each are split by rows, the elements are split into
/// chunks of `chunk * width`, and chunk `i` of the elements holds exactly
/// the rows of chunk `i`.
pub proof fn lemma_chunks_in_lockstep(total: nat, chunk: nat, width: nat, i: nat)
    requires
        chunk > 0,
        width > 0,
    ensures
        chunk_start(total * width, chunk * width, i) == chunk_start(total, chunk, i) * width,
        chunk_end(total * width, chunk * width, i) == chunk_end(total, chunk, i) * width,
{
    assert(i * (chunk * width) == (i * chunk) * width) by (nonlinear_arith);
    assert((i + 1) * (chunk * width) == ((i + 1) * chunk) * width) by (nonlinear_arith);
    assert((i * chunk < total) == ((i * chunk) * width < total * width)) by (nonlinear_arith)
        requires
            width > 0,
    ;
    assert(((i + 1) * chunk < total) == (((i + 1) * chunk) * width < total * width))
        by (nonlinear_arith)
        requires
            width > 0,
    ;
}

/// What the workers of the first `upto` chunks hand back, put one after
/// the other: `part(lo, hi)` is what the worker of the chunk from `lo` to
/// `hi` computes.
pub open spec fn joined<T>(
    part: spec_fn(int, int) -> Seq<T>,
    total: nat,
    chunk: nat,
    upto: nat,
) -> Seq<T>
    decreases upto,
{
    if upto == 0 {
        Seq::empty()
    } else {
        let i = (upto - 1) as nat;
        joined(part, total, chunk, i) + part(
            chunk_start(total, chunk, i) as int,
            chunk_end(total, chunk, i) as int,
        )
    }
}

/// Where every worker computes its own rows of one and the same buffer
/// `whole`, the chunks put together are `whole`, however long the chunks
/// are.
pub proof fn lemma_joined<T>(
    part: spec_fn(int, int) -> Seq<T>,
    whole: Seq<T>,
    width: nat,
    total: nat,
    chunk: nat,
    upto: nat,
)
    requires
        chunk > 0,
        whole.len() == total * width,
        forall|lo: int, hi: int|
            0 <= lo <= hi <= total ==> #[trigger] part(lo, hi) == whole.subrange(
                lo * width,
                hi * width,
            ),
    ensures
        joined(part, total, chunk, upto) == whole.subrange(
            0,
            (chunk_start(total, chunk, upto) * width) as int,
        ),
        upto >= chunk_count(total, chunk) ==> joined(part, total, chunk, upto) == whole,
    decreases upto,
{
    lemma_chunks_tile(total, chunk, upto);
    if upto == 0 {
        assert(0 * width == 0) by (nonlinear_arith);
        assert(joined(part, total, chunk, upto) =~= whole.subrange(0, 0));
    } else {
        let i = (upto - 1) as nat;
        let lo = chunk_start(total, chunk, i) as int;
        let hi = chunk_end(total, chunk, i) as int;
        lemma_joined(part, whole, width, total, chunk, i);
        lemma_chunks_tile(total, chunk, i);
        assert(0 <= lo * width <= hi * width <= total * width) by (nonlinear_arith)
            requires
                0 <= lo <= hi <= total,
        ;
        assert(joined(part, total, chunk, upto) =~= whole.subrange(0, hi * width));
    }
    if upto >= chunk_count(total, chunk) {
        assert(whole.subrange(0, (total * width) as int) =~= whole);
    }
}

/// A range of `total` indices split into chunks of one length.
#[derive(Debug, Clone, Copy)]
pub struct Partition {
    total: usize,
    chunk: usize,
}

impl Partition {
    #[verifier::type_invariant]
    spec fn inv(&self) -> bool {
        self.chunk >= 1
    }

    /// The number of indices that are split.
    pub closed spec fn total(&self) -> nat {
        self.total as nat
    }

    /// The length of each chunk but the last, which may be shorter.
    pub closed spec fn chunk(&self) -> nat {
        self.chunk as nat
    }

    /// Splits `total` indices for `workers` workers.
    pub fn new(total: usize, workers: usize) -> (p: Partition)
        ensures
            p.total() == total,
            p.chunk() == chunk_len(total as nat, workers as nat),
    {
        let w: usize = if workers == 0 {
            1
        } else {
            workers
        };
        let per_worker: usize = if total % w == 0 {
            total / w
        } else {
            proof {
                lemma_div_ceil(total as nat, w as nat);
                assert(total / w < total) by (nonlinear_arith)
                    requires
                        (total / w + 1 - 1) * w < total,
                        w >= 1,
                ;
            }
            total / w + 1
        };
        Partition { total, chunk: if per_worker == 0 {
            1
        } else {
            per_worker
        } }
    }

    /// The length of each chunk but the last.
    pub fn chunk_len(&self) -> (c: usize)
        ensures
            c == self.chunk(),
            c >= 1,
    {
        proof {
            use_type_invariant(self);
        }
        self.chunk
    }

    /// The number of chunks.
    pub fn count(&self) -> (n: usize)
        ensures
            n == chunk_count(self.total(), self.chunk()),
    {
        proof {
            use_type_invariant(self);
            lemma_div_ceil(self.total as nat, self.chunk as nat);
        }
        if self.total % self.chunk == 0 {
            self.total / self.chunk
        } else {
            assert(self.total / self.chunk < self.total) by (nonlinear_arith)
                requires
                    (self.total / self.chunk + 1 - 1) * self.chunk < self.total,
                    self.chunk >= 1,
            ;
            self.total / self.chunk + 1
        }
    }

    /// Where chunk `i` starts and where it ends; a chunk past the last one
    /// is empty.
    pub fn bounds(&self, i: usize) -> (r: (usize, usize))
        ensures
            r.0 == chunk_start(self.total(), self.chunk(), i as nat),
            r.1 == chunk_end(self.total(), self.chunk(), i as nat),
            r.0 <= r.1 <= self.total(),
    {
        proof {
            use_type_invariant(self);
            lemma_chunks_tile(self.total as nat, self.chunk as nat, i as nat);
            assert((i + 1) * self.chunk == i * self.chunk + self.chunk) by (nonlinear_arith);
        }
        let lo = match i.checked_mul(self.chunk) {
            Some(p) => if p < self.total {
                p
            } else {
                self.total
            },
            None => self.total,
        };
        let hi = if self.total - lo <= self.chunk {
            self.total
        } else {
            lo + self.chunk
        };
        (lo, hi)
    }
}

} // verus!

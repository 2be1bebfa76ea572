//! The integer part of a ternary linear layer: trit weights of shape
//! `[out_dim, in_dim]`, built from the fixed pattern or from quantised
//! rows, and the exact integer accumulation of the forward pass.
//!
//! The per-tensor float scale and the float bias are applied by the caller
//! after the accumulation; this crate holds no floating-point values.

use vstd::prelude::*;
use vstd::arithmetic::mul::{lemma_mul_inequality, lemma_mul_is_distributive_add_other_way};
use vstd::arithmetic::div_mod::lemma_fundamental_div_mod;
use crate::trit::{Trit, clamp, clamp_activation};
use crate::pattern::{pattern_matrix, pattern_fits, is_pattern};

verus! {

/// Row multiplier of the weight pattern of a new layer.
pub const LINEAR_ROW_MULT: usize = 31;

/// Column multiplier of the weight pattern of a new layer.
pub const LINEAR_COL_MULT: usize = 17;

/// Trit weights of a ternary linear layer, `weights[i][j]` for output `i`
/// and input `j`.
pub struct TernaryLinear {
    pub weights: Vec<Vec<Trit>>,
    pub in_dim: usize,
    pub out_dim: usize,
}

/// Number of chunks of length `size` (the last one possibly shorter) that
/// cover `len` elements.
pub open spec fn num_chunks(len: int, size: int) -> int {
    (len + size - 1) / size
}

/// The `k`-th chunk of `flat`: elements `k * size` up to `(k + 1) * size`,
/// cut at the end of `flat`.
pub open spec fn chunk(flat: Seq<Trit>, size: int, k: int) -> Seq<Trit> {
    let start = k * size;
    let end = if start + size <= flat.len() {
        start + size
    } else {
        flat.len() as int
    };
    flat.subrange(start, end)
}

/// The rows of `rows` concatenated in order.
pub open spec fn concat_rows(rows: Seq<Vec<Trit>>) -> Seq<Trit>
    decreases rows.len(),
{
    if rows.len() == 0 {
        Seq::empty()
    } else {
        concat_rows(rows.drop_last()) + rows.last()@
    }
}

/// Sum of the first `k` products `row[j] * clamp(x[j], -127, 127)`.
pub open spec fn dot_prefix(row: Seq<Trit>, x: Seq<i32>, k: int) -> int
    decreases k,
{
    if k <= 0 {
        0
    } else {
        dot_prefix(row, x, k - 1) + (row[k - 1] as int) * clamp(x[k - 1] as int, -127, 127)
    }
}

/// The inputs of `x` negated.
pub open spec fn negated(x: Seq<i32>) -> Seq<i32> {
    Seq::new(x.len(), |j: int| (-x[j]) as i32)
}

/// The accumulation starts from zero and each input adds exactly its weight
/// times its clamped value, whatever their signs.
pub proof fn lemma_dot_prefix_terms(row: Seq<Trit>, x: Seq<i32>, k: int)
    requires
        0 <= k,
    ensures
        dot_prefix(row, x, 0) == 0,
        dot_prefix(row, x, k + 1) - dot_prefix(row, x, k) == (row[k] as int) * clamp(
            x[k] as int,
            -127,
            127,
        ),
{
}

/// Negating every input negates the accumulation: the integer forward pass
/// is odd in its input (the clamp range is symmetric).
pub proof fn lemma_dot_prefix_odd(row: Seq<Trit>, x: Seq<i32>, k: int)
    requires
        0 <= k <= x.len(),
        forall|j: int| 0 <= j < x.len() ==> #[trigger] x[j] > i32::MIN,
    ensures
        dot_prefix(row, negated(x), k) == -dot_prefix(row, x, k),
    decreases k,
{
    if k > 0 {
        lemma_dot_prefix_odd(row, x, k - 1);
        let w = row[k - 1] as int;
        let v = x[k - 1] as int;
        assert(negated(x)[k - 1] as int == -v);
        assert(clamp(-v, -127, 127) == -clamp(v, -127, 127));
        assert(w * clamp(-v, -127, 127) == -(w * clamp(v, -127, 127))) by (nonlinear_arith)
            requires
                clamp(-v, -127, 127) == -clamp(v, -127, 127),
        ;
    }
}

/// Number of terms a row contributes: the row and the input are zipped.
pub open spec fn zip_len(row: Seq<Trit>, x: Seq<i32>) -> int {
    if row.len() <= x.len() {
        row.len() as int
    } else {
        x.len() as int
    }
}

/// A row and the input are zipped to the shorter of the two.
pub proof fn lemma_zip_len_is_shorter(row: Seq<Trit>, x: Seq<i32>)
    ensures
        zip_len(row, x) <= row.len(),
        zip_len(row, x) <= x.len(),
        zip_len(row, x) == row.len() || zip_len(row, x) == x.len(),
{
}

/// Every partial sum of the accumulation of `x` against the first
/// `out_dim` rows of `weights` fits in an `i32`.
pub open spec fn accumulation_fits(weights: Seq<Vec<Trit>>, out_dim: int, x: Seq<i32>) -> bool {
    forall|i: int, k: int|
        0 <= i < out_dim && 0 <= k <= zip_len(weights[i]@, x) ==> i32::MIN <= #[trigger] dot_prefix(
            weights[i]@,
            x,
            k,
        ) <= i32::MAX
}

/// Cuts `flat` into rows of `size` trits; the last row holds what is left.
pub fn chunk_rows(flat: &[Trit], size: usize) -> (rows: Vec<Vec<Trit>>)
    requires
        size > 0,
    ensures
        rows@.len() == num_chunks(flat@.len() as int, size as int),
        forall|k: int| 0 <= k < rows@.len() ==> (#[trigger] rows@[k])@ == chunk(flat@, size as int, k),
        forall|k: int| 0 <= k < rows@.len() - 1 ==> (#[trigger] rows@[k])@.len() == size,
        forall|k: int, m: int|
            0 <= k < rows@.len() && 0 <= m < rows@[k]@.len() ==> #[trigger] rows@[k]@[m]
                == flat@[k * size + m],
        concat_rows(rows@) == flat@,
{
    let len = flat.len();
    let mut rows: Vec<Vec<Trit>> = Vec::new();
    let mut start: usize = 0;
    let ghost mut k: int = 0;
    while start < len
        invariant
            size > 0,
            len == flat@.len(),
            start <= len,
            k >= 0,
            rows@.len() == k,
            k * size <= len ==> start == k * size,
            k * size > len ==> start == len,
            k > 0 ==> (k - 1) * size < len,
            forall|m: int| 0 <= m < k ==> (#[trigger] rows@[m])@ == chunk(flat@, size as int, m),
            concat_rows(rows@) == flat@.subrange(0, start as int),
        decreases len - start,
    {
        proof {
            if k * size > len {
                assert(false);
            }
        }
        let end = if len - start >= size {
            start + size
        } else {
            len
        };
        let mut row: Vec<Trit> = Vec::with_capacity(end - start);
        let mut j: usize = start;
        while j < end
            invariant
                start <= j <= end,
                end <= len,
                len == flat@.len(),
                row@ == flat@.subrange(start as int, j as int),
            decreases end - j,
        {
            row.push(flat[j]);
            assert(row@ =~= flat@.subrange(start as int, (j + 1) as int));
            j = j + 1;
        }
        let ghost old_rows = rows@;
        rows.push(row);
        proof {
            assert(rows@.drop_last() =~= old_rows);
            assert(flat@.subrange(0, start as int) + flat@.subrange(start as int, end as int)
                =~= flat@.subrange(0, end as int));
            lemma_mul_is_distributive_add_other_way(size as int, k, 1);
            assert(rows@[k]@ == chunk(flat@, size as int, k));
            k = k + 1;
        }
        start = end;
    }
    proof {
        assert(flat@.subrange(0, len as int) =~= flat@);
        lemma_chunk_count(len as int, size as int, k);
        lemma_chunk_shape(flat@, size as int);
        assert forall|kk: int, m: int|
            0 <= kk < rows@.len() && 0 <= m < rows@[kk]@.len() implies #[trigger] rows@[kk]@[m]
            == flat@[kk * size + m] by {
            assert(rows@[kk]@ == chunk(flat@, size as int, kk));
            assert(chunk(flat@, size as int, kk)[m] == flat@[kk * size + m]);
        }
        assert forall|kk: int| 0 <= kk < rows@.len() - 1 implies (#[trigger] rows@[kk])@.len()
            == size by {
            assert(rows@[kk]@ == chunk(flat@, size as int, kk));
        }
    }
    rows
}

/// `num_chunks` rows of `size` cover `len` elements, and one row fewer
/// would not.
pub proof fn lemma_num_chunks_bounds(len: int, size: int)
    requires
        size > 0,
        len >= 0,
    ensures
        num_chunks(len, size) >= 0,
        num_chunks(len, size) * size >= len,
        num_chunks(len, size) > 0 ==> (num_chunks(len, size) - 1) * size < len,
        len > 0 ==> num_chunks(len, size) > 0,
{
    let n = num_chunks(len, size);
    lemma_fundamental_div_mod(len + size - 1, size);
    let r = (len + size - 1) % size;
    assert(0 <= r < size);
    assert(len + size - 1 == size * n + r);
    assert(n >= 0) by (nonlinear_arith)
        requires
            len + size - 1 == size * n + r,
            0 <= r < size,
            size > 0,
            len >= 0,
    ;
    lemma_mul_is_distributive_add_other_way(size, n - 1, 1);
    assert(n * size == size * n) by (nonlinear_arith);
    assert((n - 1) * size == n * size - size);
    if len > 0 {
        assert(n > 0) by (nonlinear_arith)
            requires
                n * size >= len,
                len > 0,
                size > 0,
        ;
    }
}

/// Cutting `flat` into rows of `size`: every row but the last holds exactly
/// `size` elements, row `k` starts at element `k * size` of `flat` and
/// continues it in order, and the last row holds what is left, between 1
/// and `size` elements.
pub proof fn lemma_chunk_shape(flat: Seq<Trit>, size: int)
    requires
        size > 0,
    ensures
        forall|k: int|
            0 <= k < num_chunks(flat.len() as int, size) - 1 ==> (#[trigger] chunk(
                flat,
                size,
                k,
            )).len() == size,
        forall|k: int, m: int|
            0 <= k < num_chunks(flat.len() as int, size) && 0 <= m < chunk(flat, size, k).len()
                ==> #[trigger] chunk(flat, size, k)[m] == flat[k * size + m],
        num_chunks(flat.len() as int, size) > 0 ==> {
            let last = num_chunks(flat.len() as int, size) - 1;
            &&& chunk(flat, size, last).len() == flat.len() - last * size
            &&& 1 <= chunk(flat, size, last).len() <= size
        },
{
    let len = flat.len() as int;
    let n = num_chunks(len, size);
    lemma_num_chunks_bounds(len, size);
    assert forall|k: int| 0 <= k < n - 1 implies (#[trigger] chunk(flat, size, k)).len() == size by {
        lemma_mul_inequality(k + 1, n - 1, size);
        lemma_mul_is_distributive_add_other_way(size, k, 1);
    }
    assert forall|k: int, m: int|
        0 <= k < n && 0 <= m < chunk(flat, size, k).len() implies #[trigger] chunk(
        flat,
        size,
        k,
    )[m] == flat[k * size + m] by {
        lemma_mul_inequality(k, n - 1, size);
        assert(0 <= k * size) by (nonlinear_arith)
            requires
                0 <= k,
                size > 0,
        ;
        let start = k * size;
        assert(start < len);
        let end = if start + size <= len {
            start + size
        } else {
            len
        };
        assert(chunk(flat, size, k) == flat.subrange(start, end));
        assert(chunk(flat, size, k).len() == end - start);
        assert(chunk(flat, size, k)[m] == flat[start + m]);
    }
    if n > 0 {
        let last = n - 1;
        lemma_mul_is_distributive_add_other_way(size, last, 1);
        assert(last * size + size == n * size);
        assert(0 <= last * size) by (nonlinear_arith)
            requires
                0 <= last,
                size > 0,
        ;
    }
}

/// `k` chunks of length `size` are exactly what `len` elements need.
proof fn lemma_chunk_count(len: int, size: int, k: int)
    requires
        size > 0,
        len >= 0,
        k >= 0,
        k * size >= len,
        k > 0 ==> (k - 1) * size < len,
    ensures
        num_chunks(len, size) == k,
{
    if k == 0 {
        assert(0 <= len + size - 1 < size);
        assert((len + size - 1) / size == 0) by (nonlinear_arith)
            requires
                0 <= len + size - 1 < size,
        ;
    } else {
        assert((len + size - 1) / size == k) by (nonlinear_arith)
            requires
                size > 0,
                k >= 1,
                (k - 1) * size < len,
                len <= k * size,
        ;
    }
}

/// One product term of the accumulation is at most 128 * 127 in size.
proof fn lemma_term_bound(w: int, a: int)
    requires
        -128 <= w <= 127,
        -127 <= a <= 127,
    ensures
        -16256 <= w * a <= 16256,
{
    assert(-16256 <= w * a <= 16256) by (nonlinear_arith)
        requires
            -128 <= w <= 127,
            -127 <= a <= 127,
    ;
}

impl TernaryLinear {
    /// A layer of the given shape whose weights follow the fixed pattern
    /// `weights[i][j] = trit((31 * i + 17 * j) % 3)`, with 0 -> -1, 1 -> 0, 2 -> +1.
    pub fn new(in_dim: usize, out_dim: usize) -> (layer: Self)
        requires
            pattern_fits(out_dim as int, in_dim as int, 31, 17),
        ensures
            layer.in_dim == in_dim,
            layer.out_dim == out_dim,
            is_pattern(layer.weights@, out_dim as int, in_dim as int, 31, 17),
    {
        let weights = pattern_matrix(out_dim, in_dim, LINEAR_ROW_MULT, LINEAR_COL_MULT);
        TernaryLinear { weights, in_dim, out_dim }
    }

    /// A layer from already quantised weights given row after row:
    /// `trits_flat` is cut into rows of `in_dim` trits.
    pub fn from_quantized(trits_flat: &[Trit], in_dim: usize, out_dim: usize) -> (layer: Self)
        requires
            in_dim > 0,
        ensures
            layer.in_dim == in_dim,
            layer.out_dim == out_dim,
            layer.weights@.len() == num_chunks(trits_flat@.len() as int, in_dim as int),
            forall|k: int|
                0 <= k < layer.weights@.len() ==> (#[trigger] layer.weights@[k])@ == chunk(
                    trits_flat@,
                    in_dim as int,
                    k,
                ),
            concat_rows(layer.weights@) == trits_flat@,
    {
        let weights = chunk_rows(trits_flat, in_dim);
        TernaryLinear { weights, in_dim, out_dim }
    }

    /// The integer accumulation of the forward pass, or `None` where a
    /// partial sum leaves the `i32` range: for each output `i`, the sum over
    /// the zipped row and input of `weights[i][j] * clamp(x[j], -127, 127)`.
    /// `x` holds the inputs already rounded to integers.
    pub fn try_accumulate(&self, x: &[i32]) -> (acc: Option<Vec<i32>>)
        requires
            x@.len() == self.in_dim,
            self.weights@.len() >= self.out_dim,
        ensures
            acc is Some <==> accumulation_fits(self.weights@, self.out_dim as int, x@),
            acc matches Some(a) ==> {
                &&& a@.len() == self.out_dim
                &&& forall|i: int|
                    0 <= i < self.out_dim ==> #[trigger] a@[i] == dot_prefix(
                        self.weights@[i]@,
                        x@,
                        zip_len(self.weights@[i]@, x@),
                    )
            },
    {
        let mut acc: Vec<i32> = Vec::with_capacity(self.out_dim);
        let mut i: usize = 0;
        while i < self.out_dim
            invariant
                i <= self.out_dim,
                x@.len() == self.in_dim,
                self.weights@.len() >= self.out_dim,
                acc@.len() == i,
                forall|m: int|
                    0 <= m < i ==> #[trigger] acc@[m] == dot_prefix(
                        self.weights@[m]@,
                        x@,
                        zip_len(self.weights@[m]@, x@),
                    ),
                forall|m: int, k: int|
                    0 <= m < i && 0 <= k <= zip_len(self.weights@[m]@, x@) ==> i32::MIN
                        <= #[trigger] dot_prefix(self.weights@[m]@, x@, k) <= i32::MAX,
            decreases self.out_dim - i,
        {
            let row = &self.weights[i];
            let n = if row.len() <= x.len() {
                row.len()
            } else {
                x.len()
            };
            let mut s: i32 = 0;
            let mut j: usize = 0;
            while j < n
                invariant
                    i < self.out_dim,
                    self.weights@.len() >= self.out_dim,
                    *row == self.weights@[i as int],
                    j <= n,
                    n == zip_len(row@, x@),
                    n <= row@.len(),
                    n <= x@.len(),
                    s == dot_prefix(row@, x@, j as int),
                    forall|k: int|
                        0 <= k <= j ==> i32::MIN <= #[trigger] dot_prefix(row@, x@, k)
                            <= i32::MAX,
                decreases n - j,
            {
                let a = clamp_activation(x[j]);
                let w = row[j] as i32;
                proof {
                    lemma_term_bound(w as int, a as int);
                }
                let term = w * a;
                match s.checked_add(term) {
                    Some(v) => {
                        s = v;
                    },
                    None => {
                        proof {
                            assert(!(i32::MIN <= dot_prefix(row@, x@, j + 1) <= i32::MAX));
                            assert(self.weights@[i as int] == *row);
                        }
                        return None;
                    },
                }
                j = j + 1;
            }
            acc.push(s);
            proof {
                assert(self.weights@[i as int] == *row);
            }
            i = i + 1;
        }
        Some(acc)
    }

    /// The integer accumulation of the forward pass on inputs whose partial
    /// sums all fit in an `i32` (elsewhere the summation overflows).
    pub fn accumulate(&self, x: &[i32]) -> (acc: Vec<i32>)
        requires
            x@.len() == self.in_dim,
            self.weights@.len() >= self.out_dim,
            accumulation_fits(self.weights@, self.out_dim as int, x@),
        ensures
            acc@.len() == self.out_dim,
            forall|i: int|
                0 <= i < self.out_dim ==> #[trigger] acc@[i] == dot_prefix(
                    self.weights@[i]@,
                    x@,
                    zip_len(self.weights@[i]@, x@),
                ),
    {
        match self.try_accumulate(x) {
            Some(acc) => acc,
            None => {
                proof {
                    assert(false);
                }
                Vec::new()
            },
        }
    }
}

} // verus!

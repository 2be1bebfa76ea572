//! Selecting the positions a mask keeps and scattering values back into
//! them, as causal attention does when it normalises only the scores a
//! query may see and writes zeros elsewhere.

use vstd::prelude::*;

verus! {

/// Number of `true` entries among the first `k` of `mask`.
pub open spec fn count_true(mask: Seq<bool>, k: int) -> nat
    decreases k,
{
    if k <= 0 {
        0
    } else {
        count_true(mask, k - 1) + if mask[k - 1] {
            1nat
        } else {
            0nat
        }
    }
}

/// The elements of `values` among the first `k` whose mask entry is
/// `true`, in order.
pub open spec fn masked<T>(values: Seq<T>, mask: Seq<bool>, k: int) -> Seq<T>
    decreases k,
{
    if k <= 0 {
        Seq::empty()
    } else if mask[k - 1] {
        masked(values, mask, k - 1).push(values[k - 1])
    } else {
        masked(values, mask, k - 1)
    }
}

/// `picked` written back in order into the positions `mask` keeps, `fill`
/// in the others.
pub open spec fn scattered<T>(mask: Seq<bool>, picked: Seq<T>, fill: T) -> Seq<T> {
    Seq::new(
        mask.len(),
        |j: int|
            if mask[j] {
                picked[count_true(mask, j) as int]
            } else {
                fill
            },
    )
}

/// `count_true` counts kept positions: none in an empty prefix, at most one
/// per position, all of them when every position is kept, none when none is,
/// and one more exactly when the next position is kept.
pub proof fn lemma_count_true_counts(mask: Seq<bool>, k: int)
    requires
        0 <= k <= mask.len(),
    ensures
        count_true(mask, 0) == 0,
        count_true(mask, k) <= k,
        (forall|j: int| 0 <= j < k ==> #[trigger] mask[j]) ==> count_true(mask, k) == k,
        (forall|j: int| 0 <= j < k ==> !#[trigger] mask[j]) ==> count_true(mask, k) == 0,
        k < mask.len() ==> count_true(mask, k + 1) == count_true(mask, k) + if mask[k] {
            1int
        } else {
            0int
        },
    decreases k,
{
    if k > 0 {
        lemma_count_true_counts(mask, k - 1);
    }
}

/// The selection starts empty, holds at most one value per position, holds
/// every value when every position is kept and nothing when none is, and
/// each value it holds is the value of a kept position.
pub proof fn lemma_masked_selects<T>(values: Seq<T>, mask: Seq<bool>, k: int)
    requires
        0 <= k <= mask.len(),
        values.len() == mask.len(),
    ensures
        masked(values, mask, 0) == Seq::<T>::empty(),
        masked(values, mask, k).len() <= k,
        (forall|j: int| 0 <= j < k ==> #[trigger] mask[j]) ==> masked(values, mask, k)
            == values.subrange(0, k),
        (forall|j: int| 0 <= j < k ==> !#[trigger] mask[j]) ==> masked(values, mask, k).len()
            == 0,
        forall|m: int|
            0 <= m < masked(values, mask, k).len() ==> exists|j: int|
                0 <= j < k && mask[j] && #[trigger] masked(values, mask, k)[m] == values[j],
    decreases k,
{
    if k > 0 {
        lemma_masked_selects(values, mask, k - 1);
        let prev = masked(values, mask, k - 1);
        if forall|j: int| 0 <= j < k ==> #[trigger] mask[j] {
            assert(mask[k - 1]);
            assert(values.subrange(0, k - 1).push(values[k - 1]) =~= values.subrange(0, k));
        }
        assert forall|m: int| 0 <= m < masked(values, mask, k).len() implies exists|j: int|
            0 <= j < k && mask[j] && #[trigger] masked(values, mask, k)[m] == values[j] by {
            if m < prev.len() {
                let j = choose|j: int| 0 <= j < k - 1 && mask[j] && prev[m] == values[j];
                assert(masked(values, mask, k)[m] == prev[m]);
                assert(0 <= j < k && mask[j] && masked(values, mask, k)[m] == values[j]);
            } else {
                assert(mask[k - 1]);
                assert(masked(values, mask, k)[m] == values[k - 1]);
            }
        }
    }
}

/// The scatter has exactly one element per mask position: `fill` at every
/// position not kept, and, when every position is kept, the picked values
/// in order.
pub proof fn lemma_scattered_shape<T>(mask: Seq<bool>, picked: Seq<T>, fill: T)
    ensures
        scattered(mask, picked, fill).len() == mask.len(),
        forall|j: int|
            0 <= j < mask.len() && !mask[j] ==> #[trigger] scattered(mask, picked, fill)[j]
                == fill,
        (forall|j: int| 0 <= j < mask.len() ==> #[trigger] mask[j]) && picked.len()
            >= mask.len() ==> scattered(mask, picked, fill) == picked.subrange(
            0,
            mask.len() as int,
        ),
{
    if (forall|j: int| 0 <= j < mask.len() ==> #[trigger] mask[j]) {
        assert forall|j: int| 0 <= j < mask.len() implies count_true(mask, j) == j by {
            lemma_count_true_counts(mask, j);
        }
    }
    if (forall|j: int| 0 <= j < mask.len() ==> #[trigger] mask[j]) && picked.len() >= mask.len() {
        assert(scattered(mask, picked, fill) =~= picked.subrange(0, mask.len() as int));
    }
}

/// The count of kept positions grows with the prefix and never passes it.
pub proof fn lemma_count_true_monotone(mask: Seq<bool>, j: int, k: int)
    requires
        0 <= j <= k,
    ensures
        count_true(mask, j) <= count_true(mask, k),
        count_true(mask, k) <= count_true(mask, j) + (k - j),
    decreases k - j,
{
    if j < k {
        lemma_count_true_monotone(mask, j, k - 1);
    }
}

/// The selection has one element per kept position, and the kept position
/// `j` lands at index `count_true(mask, j)` of it.
pub proof fn lemma_masked_layout<T>(values: Seq<T>, mask: Seq<bool>, k: int)
    requires
        0 <= k,
    ensures
        masked(values, mask, k).len() == count_true(mask, k),
        forall|j: int|
            0 <= j < k && mask[j] ==> #[trigger] masked(values, mask, k)[count_true(
                mask,
                j,
            ) as int] == values[j],
    decreases k,
{
    if k > 0 {
        lemma_masked_layout(values, mask, k - 1);
        assert forall|j: int| 0 <= j < k && mask[j] implies #[trigger] masked(
            values,
            mask,
            k,
        )[count_true(mask, j) as int] == values[j] by {
            if j < k - 1 {
                lemma_count_true_monotone(mask, j + 1, k - 1);
            }
        }
    }
}

/// Selecting with a mask and scattering the selection back with the same
/// mask restores every kept value and puts `fill` everywhere else.
pub proof fn lemma_select_then_scatter<T>(values: Seq<T>, mask: Seq<bool>, fill: T)
    requires
        values.len() == mask.len(),
    ensures
        forall|j: int|
            0 <= j < mask.len() ==> #[trigger] scattered(
                mask,
                masked(values, mask, mask.len() as int),
                fill,
            )[j] == if mask[j] {
                values[j]
            } else {
                fill
            },
{
    lemma_masked_layout(values, mask, mask.len() as int);
}

/// Scattering values with a mask and selecting with the same mask gives
/// back the values that were scattered.
pub proof fn lemma_scatter_then_select<T>(mask: Seq<bool>, picked: Seq<T>, fill: T)
    requires
        picked.len() == count_true(mask, mask.len() as int),
    ensures
        masked(scattered(mask, picked, fill), mask, mask.len() as int) == picked,
{
    lemma_scatter_then_select_prefix(mask, picked, fill, mask.len() as int);
    assert(picked.subrange(0, picked.len() as int) =~= picked);
}

proof fn lemma_scatter_then_select_prefix<T>(mask: Seq<bool>, picked: Seq<T>, fill: T, k: int)
    requires
        0 <= k <= mask.len(),
        picked.len() >= count_true(mask, mask.len() as int),
    ensures
        masked(scattered(mask, picked, fill), mask, k) == picked.subrange(
            0,
            count_true(mask, k) as int,
        ),
    decreases k,
{
    lemma_count_true_monotone(mask, k, mask.len() as int);
    if k > 0 {
        lemma_scatter_then_select_prefix(mask, picked, fill, k - 1);
        let c = count_true(mask, k - 1) as int;
        if mask[k - 1] {
            assert(picked.subrange(0, c).push(picked[c]) =~= picked.subrange(0, c + 1));
        }
    } else {
        assert(picked.subrange(0, 0) =~= Seq::<T>::empty());
    }
}

/// The values at the positions `mask` keeps, in order
/// (`values.iter().zip(mask).filter(|(_, m)| *m)`).
pub fn select_masked<T: Copy>(values: &[T], mask: &[bool]) -> (picked: Vec<T>)
    requires
        values@.len() == mask@.len(),
    ensures
        picked@ == masked(values@, mask@, mask@.len() as int),
        picked@.len() == count_true(mask@, mask@.len() as int),
        picked@.len() <= values@.len(),
{
    let mut picked: Vec<T> = Vec::new();
    let mut j: usize = 0;
    while j < mask.len()
        invariant
            j <= mask@.len(),
            values@.len() == mask@.len(),
            picked@ == masked(values@, mask@, j as int),
        decreases mask@.len() - j,
    {
        if mask[j] {
            picked.push(values[j]);
        }
        j = j + 1;
    }
    proof {
        lemma_masked_layout(values@, mask@, mask@.len() as int);
        lemma_count_true_counts(mask@, mask@.len() as int);
    }
    picked
}

/// Writes `picked` in order into the positions `mask` keeps and `fill` into
/// the others; `picked` must hold a value for every kept position.
pub fn scatter_masked<T: Copy>(mask: &[bool], picked: &[T], fill: T) -> (out: Vec<T>)
    requires
        picked@.len() >= count_true(mask@, mask@.len() as int),
    ensures
        out@ == scattered(mask@, picked@, fill),
        out@.len() == mask@.len(),
{
    let mut out: Vec<T> = Vec::with_capacity(mask.len());
    let mut vi: usize = 0;
    let mut j: usize = 0;
    while j < mask.len()
        invariant
            j <= mask@.len(),
            picked@.len() >= count_true(mask@, mask@.len() as int),
            vi == count_true(mask@, j as int),
            out@.len() == j,
            forall|m: int|
                0 <= m < j ==> #[trigger] out@[m] == scattered(mask@, picked@, fill)[m],
        decreases mask@.len() - j,
    {
        proof {
            lemma_count_true_monotone(mask@, (j + 1) as int, mask@.len() as int);
        }
        if mask[j] {
            out.push(picked[vi]);
            vi = vi + 1;
        } else {
            out.push(fill);
        }
        j = j + 1;
    }
    proof {
        assert(out@ =~= scattered(mask@, picked@, fill));
    }
    out
}

} // verus!

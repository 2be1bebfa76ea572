//! The deterministic trit patterns that seed freshly built layers and tables.

use vstd::prelude::*;
use vstd::arithmetic::mul::{lemma_mul_inequality, lemma_mul_is_distributive_add_other_way};
use vstd::arithmetic::div_mod::lemma_mod_multiples_vanish;
use crate::trit::{Trit, residue_trit, is_trit, all_trits, trit_from_residue};

verus! {

/// Trit at row `i`, column `j` of the pattern with multipliers
/// `row_mult` and `col_mult`: the residue of `i * row_mult + j * col_mult`
/// modulo 3, mapped to a trit.
pub open spec fn pattern_trit(i: int, j: int, row_mult: int, col_mult: int) -> int {
    residue_trit((i * row_mult + j * col_mult) % 3)
}

/// The largest index sum of a `rows` by `cols` pattern fits in `usize`.
pub open spec fn pattern_fits(rows: int, cols: int, row_mult: int, col_mult: int) -> bool {
    rows == 0 || cols == 0 || (rows - 1) * row_mult + (cols - 1) * col_mult <= usize::MAX
}

/// `m` is the `rows` by `cols` pattern with the given multipliers.
pub open spec fn is_pattern(
    m: Seq<Vec<Trit>>,
    rows: int,
    cols: int,
    row_mult: int,
    col_mult: int,
) -> bool {
    &&& m.len() == rows
    &&& forall|i: int| 0 <= i < rows ==> (#[trigger] m[i])@.len() == cols
    &&& forall|i: int, j: int|
        0 <= i < rows && 0 <= j < cols ==> #[trigger] m[i]@[j] == pattern_trit(
            i,
            j,
            row_mult,
            col_mult,
        )
}

/// Builds the `rows` by `cols` trit pattern.
pub(crate) fn pattern_matrix(
    rows: usize,
    cols: usize,
    row_mult: usize,
    col_mult: usize,
) -> (m: Vec<Vec<Trit>>)
    requires
        pattern_fits(rows as int, cols as int, row_mult as int, col_mult as int),
    ensures
        is_pattern(m@, rows as int, cols as int, row_mult as int, col_mult as int),
{
    let mut m: Vec<Vec<Trit>> = Vec::with_capacity(rows);
    let mut i: usize = 0;
    while i < rows
        invariant
            i <= rows,
            pattern_fits(rows as int, cols as int, row_mult as int, col_mult as int),
            is_pattern(m@, i as int, cols as int, row_mult as int, col_mult as int),
        decreases rows - i,
    {
        let mut row: Vec<Trit> = Vec::with_capacity(cols);
        let mut j: usize = 0;
        while j < cols
            invariant
                i < rows,
                j <= cols,
                pattern_fits(rows as int, cols as int, row_mult as int, col_mult as int),
                row@.len() == j,
                forall|k: int|
                    0 <= k < j ==> #[trigger] row@[k] == pattern_trit(
                        i as int,
                        k,
                        row_mult as int,
                        col_mult as int,
                    ),
            decreases cols - j,
        {
            proof {
                lemma_mul_inequality(i as int, rows - 1, row_mult as int);
                lemma_mul_inequality(j as int, cols - 1, col_mult as int);
            }
            let h = (i * row_mult + j * col_mult) % 3;
            let t = trit_from_residue(h);
            row.push(t);
            j = j + 1;
        }
        m.push(row);
        proof {
            assert forall|a: int, b: int|
                0 <= a < i + 1 && 0 <= b < cols implies #[trigger] m@[a]@[b] == pattern_trit(
                a,
                b,
                row_mult as int,
                col_mult as int,
            ) by {
                if a < i {
                } else {
                    assert(m@[a] == row);
                }
            }
        }
        i = i + 1;
    }
    m
}

/// Every row of a pattern holds only trits.
pub proof fn lemma_pattern_rows_are_trits(
    m: Seq<Vec<Trit>>,
    rows: int,
    cols: int,
    row_mult: int,
    col_mult: int,
)
    requires
        is_pattern(m, rows, cols, row_mult, col_mult),
    ensures
        forall|i: int| 0 <= i < rows ==> all_trits(#[trigger] m[i]@),
{
    assert forall|i: int| 0 <= i < rows implies all_trits(#[trigger] m[i]@) by {
        assert forall|j: int| 0 <= j < m[i]@.len() implies is_trit(#[trigger] m[i]@[j] as int) by {
            assert(m[i]@[j] == pattern_trit(i, j, row_mult, col_mult));
        }
    }
}

/// The pattern repeats every 3 rows and every 3 columns: shifting an index
/// by 3 adds a multiple of 3 to the exact index sum and keeps its residue.
pub proof fn lemma_pattern_period_three(i: int, j: int, row_mult: int, col_mult: int)
    ensures
        pattern_trit(i + 3, j, row_mult, col_mult) == pattern_trit(i, j, row_mult, col_mult),
        pattern_trit(i, j + 3, row_mult, col_mult) == pattern_trit(i, j, row_mult, col_mult),
{
    lemma_mul_is_distributive_add_other_way(row_mult, i, 3);
    lemma_mul_is_distributive_add_other_way(col_mult, j, 3);
    lemma_mod_multiples_vanish(row_mult, i * row_mult + j * col_mult, 3);
    lemma_mod_multiples_vanish(col_mult, i * row_mult + j * col_mult, 3);
    assert((i + 3) * row_mult + j * col_mult == 3 * row_mult + (i * row_mult + j * col_mult));
    assert(i * row_mult + (j + 3) * col_mult == 3 * col_mult + (i * row_mult + j * col_mult));
}

/// Which trit the pattern holds is decided by the exact index sum
/// `s = i * row_mult + j * col_mult`: -1 where 3 divides `s`, 0 where `s`
/// leaves 1, +1 where it leaves 2.
pub proof fn lemma_pattern_by_index_sum(i: int, j: int, row_mult: int, col_mult: int)
    ensures
        (i * row_mult + j * col_mult) % 3 == 0 <==> pattern_trit(i, j, row_mult, col_mult) == -1,
        (i * row_mult + j * col_mult) % 3 == 1 <==> pattern_trit(i, j, row_mult, col_mult) == 0,
        (i * row_mult + j * col_mult) % 3 == 2 <==> pattern_trit(i, j, row_mult, col_mult) == 1,
{
}

} // verus!

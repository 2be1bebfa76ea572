//! The trit table of a token embedding.
//!
//! Looking a token up gives its trit row; the per-table float scale is
//! applied by the caller.

use vstd::prelude::*;
use crate::trit::Trit;
use crate::pattern::{pattern_matrix, pattern_fits, is_pattern};

verus! {

/// Row multiplier of the pattern of a new embedding table.
pub const EMBEDDING_ROW_MULT: usize = 13;

/// Column multiplier of the pattern of a new embedding table.
pub const EMBEDDING_COL_MULT: usize = 7;

/// Token embedding table mapping token ids to ternary vectors:
/// `table[v]` is the row of token `v`, of length `dim`.
pub struct TokenEmbedding {
    pub table: Vec<Vec<Trit>>,
    pub dim: usize,
    pub vocab_size: usize,
}

impl TokenEmbedding {
    /// A table of `vocab_size` rows of `dim` trits following the fixed
    /// pattern `table[v][d] = trit((13 * v + 7 * d) % 3)`, with
    /// 0 -> -1, 1 -> 0, 2 -> +1.
    pub fn new(vocab_size: usize, dim: usize) -> (emb: Self)
        requires
            pattern_fits(vocab_size as int, dim as int, 13, 7),
        ensures
            emb.vocab_size == vocab_size,
            emb.dim == dim,
            is_pattern(emb.table@, vocab_size as int, dim as int, 13, 7),
    {
        let table = pattern_matrix(vocab_size, dim, EMBEDDING_ROW_MULT, EMBEDDING_COL_MULT);
        TokenEmbedding { table, dim, vocab_size }
    }

    /// The trit row of a token (a token id at or past `vocab_size` is out of range).
    pub fn row(&self, token_id: usize) -> (r: &Vec<Trit>)
        requires
            token_id < self.vocab_size,
            token_id < self.table@.len(),
        ensures
            *r == self.table@[token_id as int],
    {
        &self.table[token_id]
    }
}

} // verus!

use ternary_llm::embedding::TokenEmbedding;

#[test]
fn test_token_embedding_trit_values() {
    let emb = TokenEmbedding::new(50, 8);
    for tid in 0..50_usize {
        for &t in &emb.table[tid] {
            assert!(t == -1 || t == 0 || t == 1);
        }
    }
}

#[test]
fn embedding_table_follows_pattern() {
    let emb = TokenEmbedding::new(3, 3);
    assert_eq!(emb.vocab_size, 3);
    assert_eq!(emb.dim, 3);
    assert_eq!(emb.table, vec![vec![-1, 0, 1], vec![0, 1, -1], vec![1, -1, 0]]);
}

#[test]
fn embedding_row_is_table_row() {
    let emb = TokenEmbedding::new(100, 16);
    let r = emb.row(7);
    assert_eq!(r.len(), 16);
    assert_eq!(r, &emb.table[7]);
    // (13 * 7 + 7 * 0) % 3 == 1 gives 0; (13 * 7 + 7 * 1) % 3 == 2 gives +1
    assert_eq!(r[0], 0);
    assert_eq!(r[1], 1);
}

#[test]
fn embedding_of_empty_vocabulary() {
    let emb = TokenEmbedding::new(0, 4);
    assert!(emb.table.is_empty());
}

use ternary_llm::linear::{chunk_rows, TernaryLinear};

#[test]
fn linear_weights_follow_pattern() {
    let layer = TernaryLinear::new(3, 2);
    assert_eq!(layer.in_dim, 3);
    assert_eq!(layer.out_dim, 2);
    assert_eq!(layer.weights, vec![vec![-1, 1, 0], vec![0, -1, 1]]);
}

#[test]
fn linear_weights_are_trits_and_shaped() {
    let layer = TernaryLinear::new(8, 4);
    assert_eq!(layer.weights.len(), 4);
    for row in &layer.weights {
        assert_eq!(row.len(), 8);
        for &t in row {
            assert!(t == -1 || t == 0 || t == 1);
        }
    }
}

#[test]
fn accumulate_clamps_inputs_and_sums() {
    let layer = TernaryLinear::new(3, 2);
    // inputs clamp to [5, 127, -2]
    let acc = layer.accumulate(&[5, 300, -2]);
    assert_eq!(acc, vec![122, -129]);
}

#[test]
fn accumulate_output_has_out_dim_entries() {
    let layer = TernaryLinear::new(8, 4);
    let acc = layer.accumulate(&[1; 8]);
    assert_eq!(acc.len(), 4);
}

#[test]
fn accumulate_zips_short_rows() {
    let layer = TernaryLinear { weights: vec![vec![1, 1], vec![-1]], in_dim: 3, out_dim: 2 };
    assert_eq!(layer.accumulate(&[4, 5, 6]), vec![9, -4]);
}

#[test]
fn try_accumulate_reports_overflow() {
    let n = 140_000usize;
    let layer = TernaryLinear { weights: vec![vec![127i8; n]], in_dim: n, out_dim: 1 };
    let x = vec![127i32; n];
    assert_eq!(layer.try_accumulate(&x), None);
    let small = TernaryLinear { weights: vec![vec![127i8; 10]], in_dim: 10, out_dim: 1 };
    assert_eq!(small.try_accumulate(&[127; 10]), Some(vec![161_290]));
}

#[test]
fn from_quantized_cuts_rows() {
    // the trits of [[1.0, -1.0, 0.5], [-0.5, 0.8, -0.3]] under their mean-abs scale
    let layer = TernaryLinear::from_quantized(&[1, -1, 1, -1, 1, 0], 3, 2);
    assert_eq!(layer.weights, vec![vec![1, -1, 1], vec![-1, 1, 0]]);
    let acc = layer.accumulate(&[1, 0, -1]);
    assert_eq!(acc, vec![0, -1]);
}

#[test]
fn chunk_rows_keeps_short_last_row() {
    let rows = chunk_rows(&[1, -1, 0, 1, 0], 2);
    assert_eq!(rows, vec![vec![1, -1], vec![0, 1], vec![0]]);
    let flat: Vec<i8> = rows.concat();
    assert_eq!(flat, vec![1, -1, 0, 1, 0]);
    assert!(chunk_rows(&[], 3).is_empty());
}

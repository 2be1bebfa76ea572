use ternary_llm::mask::{scatter_masked, select_masked};

#[test]
fn select_keeps_masked_values() {
    let picked = select_masked(&[1.0_f32, 2.0, 3.0, 4.0], &[true, true, false, false]);
    assert_eq!(picked, vec![1.0, 2.0]);
}

#[test]
fn scatter_fills_unmasked_positions() {
    let out = scatter_masked(&[true, false, true, false], &[0.25_f32, 0.75], 0.0);
    assert_eq!(out, vec![0.25, 0.0, 0.75, 0.0]);
}

#[test]
fn select_then_scatter_round_trip() {
    let values = [5i32, 6, 7, 8, 9];
    let mask = [false, true, true, false, true];
    let out = scatter_masked(&mask, &select_masked(&values, &mask), 0);
    assert_eq!(out, vec![0, 6, 7, 0, 9]);
    assert_eq!(select_masked(&out, &mask), vec![6, 7, 9]);
}

#[test]
fn scatter_ignores_extra_values() {
    let out = scatter_masked(&[false, true], &[1u8, 2, 3], 9);
    assert_eq!(out, vec![9, 1]);
}

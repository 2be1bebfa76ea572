use ternary_llm::trit::{clamp_activation, clamp_trit, quantize_rounded, trit_from_residue};

#[test]
fn quantize_rounded_clamps_to_trits() {
    let trits = quantize_rounded(&[2, -3, 0, 1, -1, 127, -128]);
    assert_eq!(trits, vec![1, -1, 0, 1, -1, 1, -1]);
}

#[test]
fn quantize_keeps_signs() {
    // [10.0, -10.0, 0.0001] over their mean-abs scale round to [2, -2, 0]
    let trits = quantize_rounded(&[2, -2, 0]);
    assert_eq!(trits[0], 1);
    assert_eq!(trits[1], -1);
    assert_eq!(trits[2], 0);
}

#[test]
fn quantize_empty() {
    assert!(quantize_rounded(&[]).is_empty());
}

#[test]
fn clamp_trit_values() {
    assert_eq!(clamp_trit(-128), -1);
    assert_eq!(clamp_trit(0), 0);
    assert_eq!(clamp_trit(5), 1);
}

#[test]
fn clamp_activation_values() {
    assert_eq!(clamp_activation(1000), 127);
    assert_eq!(clamp_activation(-1000), -127);
    assert_eq!(clamp_activation(-12), -12);
}

#[test]
fn residues_map_to_trits() {
    assert_eq!(trit_from_residue(0), -1);
    assert_eq!(trit_from_residue(1), 0);
    assert_eq!(trit_from_residue(2), 1);
}

use ternary_llm::generate::Generation;

#[test]
fn generation_collects_chosen_tokens() {
    let mut g = Generation::new(&[0, 1], 3);
    assert!(!g.is_done());
    assert_eq!(g.context(), &[0, 1]);
    g.advance(5);
    assert_eq!(g.context(), &[0, 1, 5]);
    g.advance(2);
    g.advance(7);
    assert!(g.is_done());
    assert_eq!(g.context(), &[0, 1, 5, 2, 7]);
    assert_eq!(g.finish(), vec![5, 2, 7]);
}

#[test]
fn generation_of_nothing() {
    let g = Generation::new(&[3], 0);
    assert!(g.is_done());
    assert!(g.finish().is_empty());
}

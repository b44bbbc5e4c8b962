use lau_penrose_growth::growth::penrose_inflation_step;

#[test]
fn penrose_inflation_step_triples_count() {
    assert_eq!(penrose_inflation_step(0, Some(10)), (1, Some(30)));
    assert_eq!(penrose_inflation_step(4, None), (5, None));
    assert_eq!(penrose_inflation_step(2, Some(0)), (3, Some(0)));
}

#[test]
fn penrose_inflation_three_steps() {
    let mut state = (0usize, Some(10usize));
    for _ in 0..3 {
        state = penrose_inflation_step(state.0, state.1);
    }
    assert_eq!(state, (3, Some(270)));
}

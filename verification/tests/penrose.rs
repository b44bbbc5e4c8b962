use lau_penrose_growth::penrose::{Edge, EdgeArrow, PenroseTiling, Rhomb, RhombType};

#[test]
fn test_edge_matching() {
    let e1 = Edge::new(EdgeArrow::Forward, 0);
    let e2 = Edge::new(EdgeArrow::Backward, 0);
    assert!(e1.matches(&e2));
}

#[test]
fn test_edge_no_match_same_arrow() {
    let e1 = Edge::new(EdgeArrow::Forward, 0);
    let e2 = Edge::new(EdgeArrow::Forward, 0);
    assert!(!e1.matches(&e2));
}

#[test]
fn test_edge_no_match_different_type() {
    let e1 = Edge::new(EdgeArrow::Forward, 0);
    let e2 = Edge::new(EdgeArrow::Backward, 1);
    assert!(!e1.matches(&e2));
}

#[test]
fn test_sun_tiling() {
    let tiling = PenroseTiling::sun();
    assert_eq!(tiling.len(), 10);
    assert_eq!(tiling.generation, 0);
}

#[test]
fn test_star_tiling() {
    let tiling = PenroseTiling::star();
    assert_eq!(tiling.len(), 10);
}

#[test]
fn test_inflation_grows() {
    let tiling = PenroseTiling::sun();
    let inflated = tiling.inflate();
    assert!(inflated.len() >= tiling.len());
    assert_eq!(inflated.generation, 1);
}

#[test]
fn test_inflate_n() {
    let tiling = PenroseTiling::sun();
    let inflated = tiling.inflate_n(3);
    assert_eq!(inflated.generation, 3);
}

#[test]
fn test_matching_rules_valid() {
    let tiling = PenroseTiling::sun();
    assert!(tiling.verify_matching_rules());
}

#[test]
fn test_count_by_type_sun() {
    let tiling = PenroseTiling::sun();
    let (fat, thin) = tiling.count_by_type();
    assert_eq!(fat, 10);
    assert_eq!(thin, 0);
}

#[test]
fn test_rhomb_edges_match() {
    let r1 = Rhomb::new(RhombType::Fat);
    let r2 = Rhomb::new(RhombType::Thin);
    assert!(!r1.edges_match(&r2));
}

#[test]
fn rhomb_edges_of_each_type() {
    let fat = Rhomb::new(RhombType::Fat);
    assert_eq!(
        fat.edges,
        [
            Edge::new(EdgeArrow::Forward, 0),
            Edge::new(EdgeArrow::Backward, 1),
            Edge::new(EdgeArrow::Forward, 0),
            Edge::new(EdgeArrow::Backward, 1),
        ]
    );
    let thin = Rhomb::new(RhombType::Thin);
    assert_eq!(
        thin.edges,
        [
            Edge::new(EdgeArrow::Forward, 2),
            Edge::new(EdgeArrow::Backward, 3),
            Edge::new(EdgeArrow::Forward, 2),
            Edge::new(EdgeArrow::Backward, 3),
        ]
    );
}

#[test]
fn rhombs_never_match_themselves() {
    for t in [RhombType::Fat, RhombType::Thin] {
        let r = Rhomb::new(t);
        assert!(!r.edges_match(&r));
    }
}

#[test]
fn edges_match_when_arrows_oppose() {
    let r1 = Rhomb::new(RhombType::Fat);
    let mut r2 = Rhomb::new(RhombType::Fat);
    r2.edges[3] = Edge::new(EdgeArrow::Forward, 1);
    assert!(r1.edges_match(&r2));
}

#[test]
fn deflation_swaps_type() {
    let fat = Rhomb::new(RhombType::Fat);
    let deflated = fat.deflate().unwrap();
    assert_eq!(deflated.rhomb_type, RhombType::Thin);
    assert_eq!(deflated.deflate().unwrap().rhomb_type, RhombType::Fat);
}

#[test]
fn rhomb_inflation_children() {
    let fat: Vec<RhombType> = Rhomb::new(RhombType::Fat)
        .inflate()
        .iter()
        .map(|r| r.rhomb_type)
        .collect();
    assert_eq!(fat, vec![RhombType::Fat, RhombType::Thin, RhombType::Thin]);
    let thin: Vec<RhombType> = Rhomb::new(RhombType::Thin)
        .inflate()
        .iter()
        .map(|r| r.rhomb_type)
        .collect();
    assert_eq!(thin, vec![RhombType::Fat]);
}

#[test]
fn inflation_counts_follow_substitution() {
    // (fat, thin) -> (fat + thin, 2 * fat)
    let mut tiling = PenroseTiling::sun();
    let mut expected = (10usize, 0usize);
    for _ in 0..5 {
        tiling = tiling.inflate();
        expected = (expected.0 + expected.1, 2 * expected.0);
        assert_eq!(tiling.count_by_type(), expected);
        assert!(tiling.verify_matching_rules());
    }
    assert_eq!(tiling.count_by_type(), (210, 220));
    assert_eq!(tiling.len(), 430);
}

#[test]
fn inflate_n_matches_repeated_inflate() {
    let star = PenroseTiling::star();
    assert_eq!(star.count_by_type(), (5, 5));
    let once = star.inflate().inflate();
    let twice = star.inflate_n(2);
    assert_eq!(once.count_by_type(), twice.count_by_type());
    assert_eq!(twice.count_by_type(), (20, 20));
    let order: Vec<RhombType> = star.inflate().rhombs.iter().map(|r| r.rhomb_type).collect();
    assert_eq!(
        &order[..4],
        &[RhombType::Fat, RhombType::Thin, RhombType::Thin, RhombType::Fat]
    );
    assert_eq!(star.inflate_n(0).len(), 10);
    assert_eq!(star.inflate_n(0).generation, 0);
}

#[test]
fn broken_rhomb_fails_matching_rules() {
    let mut tiling = PenroseTiling::star();
    assert!(!tiling.is_empty());
    tiling.rhombs[3].edges[2] = Edge::new(EdgeArrow::Forward, 7);
    assert!(!tiling.verify_matching_rules());
}

#[test]
fn empty_tiling() {
    let tiling = PenroseTiling { rhombs: Vec::new(), generation: 4 };
    assert!(tiling.is_empty());
    assert_eq!(tiling.count_by_type(), (0, 0));
    assert!(tiling.verify_matching_rules());
    assert_eq!(tiling.inflate().generation, 5);
}

fn types(t: &PenroseTiling) -> Vec<RhombType> {
    t.rhombs.iter().map(|r| r.rhomb_type).collect()
}

#[test]
fn inflation_is_local() {
    // Inflating the star equals inflating each of its rhombs in turn.
    let star = PenroseTiling::star();
    let mut pieces: Vec<RhombType> = Vec::new();
    for r in &star.rhombs {
        pieces.extend(r.inflate().iter().map(|c| c.rhomb_type));
    }
    assert_eq!(types(&star.inflate()), pieces);
}

#[test]
fn inflate_n_composes() {
    let sun = PenroseTiling::sun();
    let a = sun.inflate_n(2).inflate_n(1);
    let b = sun.inflate_n(3);
    assert_eq!(types(&a), types(&b));
    assert_eq!(a.generation, 3);
    assert_eq!(b.count_by_type(), (50, 60));
}

#[test]
fn deflation_undoes_thin_inflation() {
    let thin = Rhomb::new(RhombType::Thin);
    let kids = thin.inflate();
    assert_eq!(kids.len(), 1);
    assert_eq!(kids[0].deflate().unwrap().rhomb_type, RhombType::Thin);
    // The first child of a fat rhomb deflates to a thin rhomb instead.
    let fat = Rhomb::new(RhombType::Fat);
    assert_eq!(fat.inflate()[0].deflate().unwrap().rhomb_type, RhombType::Thin);
}

#[test]
fn inflated_tilings_obey_matching_rules_and_never_match() {
    let t = PenroseTiling::star().inflate_n(3);
    assert!(t.verify_matching_rules());
    for a in &t.rhombs[..6] {
        for b in &t.rhombs[..6] {
            assert!(!a.edges_match(b));
        }
    }
}

#[test]
fn test_deflation() {
    let rhomb = Rhomb::new(RhombType::Fat);
    let deflated = rhomb.deflate().unwrap();
    assert_eq!(deflated.rhomb_type, RhombType::Thin);
}

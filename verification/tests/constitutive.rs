use lau_penrose_growth::constitutive::{ConstitutiveIdentity, ConstitutiveProjection};

#[test]
fn test_growth_is_computation() {
    let cp = ConstitutiveProjection::golden_ratio();
    assert!(cp.growth_is_computation());
}

#[test]
fn test_spiral_growth_projection() {
    let cp = ConstitutiveProjection::spiral_growth();
    assert!(cp.growth_is_computation());
}

#[test]
fn test_penrose_projection() {
    let cp = ConstitutiveProjection::penrose_tiling();
    assert!(cp.growth_is_computation());
}

#[test]
fn projection_names() {
    assert_eq!(ConstitutiveProjection::golden_ratio().name, "Golden Ratio Projection");
    assert_eq!(
        ConstitutiveProjection::golden_ratio().description,
        "x → 1 + 1/x, fixed point φ = (1+√5)/2"
    );
    assert_eq!(
        ConstitutiveProjection::spiral_growth().name,
        "Logarithmic Spiral Projection"
    );
    assert_eq!(
        ConstitutiveProjection::spiral_growth().description,
        "Constant-angle growth: each increment determined by curvature"
    );
    assert_eq!(
        ConstitutiveProjection::penrose_tiling().name,
        "Penrose Inflation Projection"
    );
    assert_eq!(
        ConstitutiveProjection::penrose_tiling().description,
        "Local matching rules → global aperiodic order"
    );
}

#[test]
fn identity_keeps_projection() {
    let ci = ConstitutiveIdentity::new(ConstitutiveProjection::penrose_tiling());
    assert_eq!(ci.projection.name, "Penrose Inflation Projection");
}

//! Growth laws read as constitutive projections: an idempotent `e` whose
//! image is the grown structure.
use vstd::prelude::*;

verus! {

/// A constitutive projection, described by its name and its rule.
#[derive(Debug, Clone)]
pub struct ConstitutiveProjection {
    /// Name of this projection.
    pub name: String,
    /// The growth law as a function: f(x) -> y.
    pub description: String,
}

impl ConstitutiveProjection {
    /// The golden ratio projection, x -> 1 + 1/x, whose fixed point is the
    /// golden ratio.
    pub fn golden_ratio() -> (r: Self)
        ensures
            r.name@ == "Golden Ratio Projection"@,
            r.description@ == "x → 1 + 1/x, fixed point φ = (1+√5)/2"@,
    {
        Self {
            name: "Golden Ratio Projection".to_owned(),
            description: "x → 1 + 1/x, fixed point φ = (1+√5)/2".to_owned(),
        }
    }

    /// The spiral growth projection.
    pub fn spiral_growth() -> (r: Self)
        ensures
            r.name@ == "Logarithmic Spiral Projection"@,
            r.description@ == "Constant-angle growth: each increment determined by curvature"@,
    {
        Self {
            name: "Logarithmic Spiral Projection".to_owned(),
            description: "Constant-angle growth: each increment determined by curvature".to_owned(),
        }
    }

    /// The Penrose tiling projection.
    pub fn penrose_tiling() -> (r: Self)
        ensures
            r.name@ == "Penrose Inflation Projection"@,
            r.description@ == "Local matching rules → global aperiodic order"@,
    {
        Self {
            name: "Penrose Inflation Projection".to_owned(),
            description: "Local matching rules → global aperiodic order".to_owned(),
        }
    }

    /// The growth process itself is the computation: always `true`.
    pub fn growth_is_computation(&self) -> (r: bool)
        ensures
            r,
    {
        true
    }
}

/// The constitutive identity: the identity on the image of a projection.
#[derive(Debug, Clone)]
pub struct ConstitutiveIdentity {
    /// The projection.
    pub projection: ConstitutiveProjection,
}

impl ConstitutiveIdentity {
    /// Wrap a projection.
    pub fn new(projection: ConstitutiveProjection) -> (r: Self)
        ensures
            r.projection == projection,
    {
        Self { projection }
    }
}

} // verus!

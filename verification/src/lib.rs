//! Grow, don't calculate: Penrose tilings, Fibonacci convergents and growth
//! laws as deterministic aperiodic structure, with their integer and
//! combinatorial side verified.
//!
//! - `golden`: Fibonacci numbers, the continued fraction of the golden ratio
//!   and its convergents.
//! - `penrose`: rhombs with matching-rule edges, tilings and their inflation.
//! - `constitutive`: growth laws named as constitutive projections.
//! - `diffraction`: labels of diffraction peaks.
//! - `growth`: the integer state of the Penrose-inflation growth law.
pub mod constitutive;
pub mod diffraction;
pub mod golden;
pub mod growth;
pub mod penrose;

pub use constitutive::{ConstitutiveIdentity, ConstitutiveProjection};
pub use golden::GoldenRatio;
pub use penrose::{Edge, EdgeArrow, PenroseTiling, Rhomb, RhombType};

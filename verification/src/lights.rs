//! The forms of light a scene can hold.
use vstd::prelude::*;
use crate::properties::Color;
use crate::scalar::Scalar;
use crate::serialization_defs::Vector3Def;

verus! {

#[derive(Debug, Copy, Clone, PartialEq, Eq)]
pub enum Light {
    /// Light that arrives everywhere from one direction.
    Directional { direction: Vector3Def<Scalar>, intensity: Color<Scalar> },
    /// Light that reaches every surface, whatever faces it.
    Ambient { intensity: Color<Scalar> },
    /// Light that spreads from one position.
    Point { position: Vector3Def<Scalar>, intensity: Color<Scalar> },
}

impl Light {
    /// The color and strength of the light.
    pub open spec fn intensity(self) -> Color<Scalar> {
        match self {
            Light::Directional { intensity, .. } => intensity,
            Light::Ambient { intensity } => intensity,
            Light::Point { intensity, .. } => intensity,
        }
    }
}

} // verus!

//! The shapes a scene can hold.
use vstd::prelude::*;
use crate::properties::Color;
use crate::properties::Material;
use crate::scalar::Scalar;
use crate::serialization_defs::Vector3Def;

verus! {

#[derive(Debug, Copy, Clone, PartialEq, Eq)]
pub struct Sphere {
    pub center: Vector3Def<Scalar>,
    pub radius: Scalar,
    pub material: Material,
}

impl Sphere {
    /// The base color of the sphere's material.
    pub fn get_color(self) -> (color: Color<u8>)
        ensures
            color == self.material.base_color(),
    {
        match self.material {
            Material::Matte { color } => color,
            Material::Specular { color, .. } => color,
        }
    }
}

} // verus!

//! The plain form of a three-component vector.
use vstd::prelude::*;

verus! {

/// Three components, as a scene description spells a vector out.
#[derive(Debug, Copy, Clone, PartialEq, Eq)]
pub struct Vector3Def<S> {
    pub x: S,
    pub y: S,
    pub z: S,
}

} // verus!

//! A scene: the objects in the world and the lights that fall on them.
use vstd::prelude::*;
use crate::lights::Light;
use crate::objects::Sphere;

verus! {

#[derive(Debug)]
pub struct Scene {
    pub objects: Vec<Sphere>,
    pub lights: Vec<Light>,
}

impl Scene {
    /// A scene with no object and no light.
    pub fn new() -> (scene: Self)
        ensures
            scene.objects@ == Seq::<Sphere>::empty(),
            scene.lights@ == Seq::<Light>::empty(),
    {
        Self { objects: Vec::new(), lights: Vec::new() }
    }
}

} // verus!

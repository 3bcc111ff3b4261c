//! The single point light of the illumination model.
use crate::tuples::Tuple;
use vstd::prelude::*;

verus! {

/// A light at a point, shining with a colour.
#[derive(Clone, Copy, Debug)]
pub struct PointLight {
    pub intensity: Tuple,
    pub position: Tuple,
}

impl PointLight {
    /// A light at `position`, of the colour `intensity`.
    pub fn new(position: Tuple, intensity: Tuple) -> (light: PointLight)
        ensures
            light.position == position,
            light.intensity == intensity,
    {
        PointLight { position, intensity }
    }
}

} // verus!

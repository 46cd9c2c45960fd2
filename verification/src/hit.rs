//! The record of a ray meeting a surface.

use crate::scalar::Scalar;
use crate::vec3::Vec3;
use vstd::prelude::*;

verus! {

/// Where a ray met a surface: the point, the surface normal there, and the
/// distance `t` along the ray.
#[derive(Clone, Copy, Debug)]
pub struct Hit {
    pub pos: Vec3,
    pub normal: Vec3,
    pub t: Scalar,
}

/// What a query looks for.
#[derive(Clone, Copy, Debug, PartialEq, Eq, Structural)]
pub enum HitType {
    /// The nearest surface in the window.
    Closest,
    /// Any surface in the window: the search stops at the first one found.
    Any,
}

} // verus!

//! Triangles: the primitives of a scene.

use crate::aabb::Aabb;
use crate::scalar::{Scalar, INFINITY_BITS};
use crate::vec3::Vec3;
use vstd::prelude::*;

verus! {

/// Three vertices.  The winding from the first to the second to the third
/// vertex decides which way the surface faces.
#[derive(Clone, Copy, Debug)]
pub struct Triangle {
    pub vertices: [Vec3; 3],
}

impl Triangle {
    /// No vertex has a NaN component.
    pub open spec fn is_numeric(&self) -> bool {
        !self.vertices[0].has_nan_spec() && !self.vertices[1].has_nan_spec()
            && !self.vertices[2].has_nan_spec()
    }

    /// The least coordinate of the three vertices on axis `idx`, ignoring
    /// NaNs; positive infinity if all three are NaNs.
    pub open spec fn min_on_spec(&self, idx: int) -> Scalar {
        Scalar { bits: INFINITY_BITS }.min_spec(self.vertices[0].at(idx)).min_spec(
            self.vertices[1].at(idx),
        ).min_spec(self.vertices[2].at(idx))
    }

    /// The smallest box around the three vertices.
    pub open spec fn bounds(&self) -> Aabb {
        Aabb::empty_spec().extend_spec(self.vertices[0]).extend_spec(self.vertices[1]).extend_spec(
            self.vertices[2],
        )
    }

    /// The triangle with the given vertices, in that order.
    pub fn new(v0: Vec3, v1: Vec3, v2: Vec3) -> (r: Triangle)
        ensures
            r.vertices[0] == v0,
            r.vertices[1] == v1,
            r.vertices[2] == v2,
    {
        Triangle { vertices: [v0, v1, v2] }
    }

    /// Whether some vertex has a NaN component.
    pub fn has_nan(&self) -> (r: bool)
        ensures
            r == !self.is_numeric(),
    {
        self.vertices[0].has_nan() || self.vertices[1].has_nan() || self.vertices[2].has_nan()
    }

    /// The least coordinate of the three vertices on axis `idx`.
    pub fn min_on(&self, idx: usize) -> (r: Scalar)
        requires
            idx < 3,
        ensures
            r == self.min_on_spec(idx as int),
            !r.is_nan_spec(),
    {
        proof {
            crate::scalar::lemma_infinity_keys();
        }
        let mut least = Scalar::infinity();
        let mut k: usize = 0;
        while k < 3
            invariant
                idx < 3,
                k <= 3,
                !least.is_nan_spec(),
                k == 0 ==> least == (Scalar { bits: INFINITY_BITS }),
                k == 1 ==> least == (Scalar { bits: INFINITY_BITS }).min_spec(
                    self.vertices[0].at(idx as int),
                ),
                k == 2 ==> least == (Scalar { bits: INFINITY_BITS }).min_spec(
                    self.vertices[0].at(idx as int),
                ).min_spec(self.vertices[1].at(idx as int)),
                k == 3 ==> least == self.min_on_spec(idx as int),
            decreases 3 - k,
        {
            least = least.min(self.vertices[k].get(idx));
            k += 1;
        }
        least
    }
}

} // verus!

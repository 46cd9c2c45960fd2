//! Axis-aligned bounding boxes.
//!
//! A box is a minimum and a maximum corner.  The empty box is the pair
//! (+infinity, -infinity); any box whose minimum exceeds its maximum on some
//! axis counts as empty and contains nothing.

use crate::scalar::{lemma_infinity_keys, Scalar, INFINITY_BITS, NEG_INFINITY_BITS};
use crate::vec3::Vec3;
use vstd::prelude::*;

verus! {

/// An axis-aligned box, possibly empty.
#[derive(Clone, Copy, Debug)]
pub struct Aabb {
    pub min: Vec3,
    pub max: Vec3,
}

impl Aabb {
    /// The canonical empty box.
    pub open spec fn empty_spec() -> Aabb {
        Aabb {
            min: Vec3::splat(Scalar { bits: INFINITY_BITS }),
            max: Vec3::splat(Scalar { bits: NEG_INFINITY_BITS }),
        }
    }

    /// Neither corner has a NaN component.
    pub open spec fn is_numeric(&self) -> bool {
        !self.min.has_nan_spec() && !self.max.has_nan_spec()
    }

    /// The minimum exceeds the maximum on axis `idx`.
    pub open spec fn inverted_on(&self, idx: int) -> bool {
        self.max.at(idx).lt_spec(self.min.at(idx))
    }

    /// The minimum exceeds the maximum on some axis.
    pub open spec fn is_empty_spec(&self) -> bool {
        self.inverted_on(0) || self.inverted_on(1) || self.inverted_on(2)
    }

    /// On axis `idx` the point is neither below the minimum nor above the
    /// maximum.
    pub open spec fn spans(&self, point: Vec3, idx: int) -> bool {
        !point.at(idx).lt_spec(self.min.at(idx)) && !self.max.at(idx).lt_spec(point.at(idx))
    }

    /// The box is not empty and spans the point on every axis.
    pub open spec fn contain_spec(&self, point: Vec3) -> bool {
        !self.is_empty_spec() && self.spans(point, 0) && self.spans(point, 1) && self.spans(
            point,
            2,
        )
    }

    /// The smallest box around `self` and `point`.
    pub open spec fn extend_spec(&self, point: Vec3) -> Aabb {
        if self.is_empty_spec() {
            Aabb { min: point, max: point }
        } else {
            Aabb { min: self.min.min_spec(point), max: self.max.max_spec(point) }
        }
    }

    /// The smallest box around `self` and `b`; an empty `self` yields `b`.
    pub open spec fn union_spec(&self, b: Aabb) -> Aabb {
        if self.is_empty_spec() {
            b
        } else {
            Aabb { min: self.min.min_spec(b.min), max: self.max.max_spec(b.max) }
        }
    }

    /// `inner` is empty, or lies within `self` on every axis.
    pub open spec fn encloses(&self, inner: Aabb) -> bool {
        inner.is_empty_spec() || (!self.is_empty_spec() && forall|idx: int|
            0 <= idx < 3 ==> self.min.at(idx).key() <= #[trigger] inner.min.at(idx).key()
                && inner.max.at(idx).key() <= self.max.at(idx).key())
    }

    /// The canonical empty box.
    pub fn empty() -> (r: Aabb)
        ensures
            r == Aabb::empty_spec(),
            r.is_empty_spec(),
            r.is_numeric(),
    {
        proof {
            lemma_infinity_keys();
        }
        Aabb { min: Vec3::max_value(), max: Vec3::min_value() }
    }

    /// The minimum corner.
    pub fn lower(&self) -> (r: Vec3)
        ensures
            r == self.min,
    {
        self.min
    }

    /// The maximum corner.
    pub fn upper(&self) -> (r: Vec3)
        ensures
            r == self.max,
    {
        self.max
    }

    /// Whether two boxes have the same corners, bit for bit.
    pub fn same_bits(&self, other: &Aabb) -> (r: bool)
        ensures
            r == (*self == *other),
    {
        self.min.x.bits == other.min.x.bits && self.min.y.bits == other.min.y.bits
            && self.min.z.bits == other.min.z.bits && self.max.x.bits == other.max.x.bits
            && self.max.y.bits == other.max.y.bits && self.max.z.bits == other.max.z.bits
    }

    /// Whether the box is empty.
    #[verifier::when_used_as_spec(is_empty_spec)]
    pub fn is_empty(&self) -> (r: bool)
        ensures
            r == self.is_empty_spec(),
    {
        let mut idx: usize = 0;
        while idx < 3
            invariant
                idx <= 3,
                forall|k: int| 0 <= k < idx ==> !self.inverted_on(k),
            decreases 3 - idx,
        {
            if self.min.get(idx).gt(self.max.get(idx)) {
                return true;
            }
            idx += 1;
        }
        false
    }

    /// Whether the point lies in the box.  An empty box contains no point.
    pub fn contain(&self, point: &Vec3) -> (r: bool)
        ensures
            r == self.contain_spec(*point),
    {
        if self.is_empty() {
            return false;
        }
        let mut idx: usize = 0;
        while idx < 3
            invariant
                idx <= 3,
                forall|k: int| 0 <= k < idx ==> self.spans(*point, k),
            decreases 3 - idx,
        {
            let p_idx = point.get(idx);
            if p_idx.lt(self.min.get(idx)) {
                return false;
            }
            if p_idx.gt(self.max.get(idx)) {
                return false;
            }
            idx += 1;
        }
        true
    }

    /// The box grown to contain `point`.  An empty box becomes the single
    /// point.
    pub fn extend(&self, point: &Vec3) -> (r: Aabb)
        ensures
            r == self.extend_spec(*point),
            r.contain_spec(*point),
    {
        if self.is_empty() {
            Aabb { min: *point, max: *point }
        } else {
            Aabb { min: self.min.min(point), max: self.max.max(point) }
        }
    }

    /// The box grown to contain `b`.  An empty box becomes `b`.
    pub fn union(&self, b: &Aabb) -> (r: Aabb)
        ensures
            r == self.union_spec(*b),
    {
        if self.is_empty() {
            Aabb { min: b.min, max: b.max }
        } else {
            Aabb { min: Vec3::min(&self.min, &b.min), max: Vec3::max(&self.max, &b.max) }
        }
    }
}

/// The empty box contains no point, whatever the point's components.
pub proof fn lemma_empty_contains_nothing(point: Vec3)
    ensures
        Aabb::empty_spec().is_empty_spec(),
        !Aabb::empty_spec().contain_spec(point),
{
    lemma_infinity_keys();
}

/// Extending a box by a point yields a box that contains the point.
pub proof fn lemma_extend_contains_point(a: Aabb, point: Vec3)
    ensures
        a.extend_spec(point).contain_spec(point),
{
}

/// Extending a box loses no point: what the box contained, the extended
/// box contains.
pub proof fn lemma_extend_keeps_points(a: Aabb, point: Vec3, x: Vec3)
    requires
        a.is_numeric(),
        !point.has_nan_spec(),
        a.contain_spec(x),
    ensures
        a.extend_spec(point).contain_spec(x),
{
}

/// The union of two boxes contains every point that either box contains.
pub proof fn lemma_union_contains(a: Aabb, b: Aabb, x: Vec3)
    requires
        a.is_numeric(),
        b.is_numeric(),
        a.contain_spec(x) || b.contain_spec(x),
    ensures
        a.union_spec(b).contain_spec(x),
{
}

/// A box that encloses another contains every point of the other.
pub proof fn lemma_encloses_contains(outer: Aabb, inner: Aabb, x: Vec3)
    requires
        outer.is_numeric(),
        inner.is_numeric(),
        outer.encloses(inner),
        inner.contain_spec(x),
    ensures
        outer.contain_spec(x),
{
    assert(inner.min.at(0).key() >= outer.min.at(0).key());
    assert(inner.min.at(1).key() >= outer.min.at(1).key());
    assert(inner.min.at(2).key() >= outer.min.at(2).key());
}

/// The union of two boxes encloses both.
pub proof fn lemma_union_encloses(a: Aabb, b: Aabb)
    requires
        a.is_numeric(),
        b.is_numeric(),
    ensures
        a.union_spec(b).is_numeric(),
        a.union_spec(b).encloses(a),
        a.union_spec(b).encloses(b),
{
}

/// Enclosure is transitive.
pub proof fn lemma_encloses_transitive(a: Aabb, b: Aabb, c: Aabb)
    requires
        a.is_numeric(),
        b.is_numeric(),
        c.is_numeric(),
        a.encloses(b),
        b.encloses(c),
    ensures
        a.encloses(c),
{
    if !c.is_empty_spec() {
        assert(b.min.at(0).key() <= c.min.at(0).key());
        assert(b.min.at(1).key() <= c.min.at(1).key());
        assert(b.min.at(2).key() <= c.min.at(2).key());
        assert(!b.is_empty_spec());
        assert(a.min.at(0).key() <= b.min.at(0).key());
        assert(a.min.at(1).key() <= b.min.at(1).key());
        assert(a.min.at(2).key() <= b.min.at(2).key());
    }
}

} // verus!

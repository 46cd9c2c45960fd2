//! Three-component vectors of [`Scalar`]s: construction, access, and the
//! order-based operations (component-wise and horizontal minimum and
//! maximum) that bounding boxes are made of.

use crate::random::{random_float01, sample_of, state_after, SAMPLE_MASK};
use crate::scalar::{
    lemma_infinity_keys, lemma_key_decides_numbers, Scalar, INFINITY_BITS, NEG_INFINITY_BITS,
    ONE_BITS,
};
use vstd::prelude::*;

verus! {

/// A point or direction in space.
#[derive(Clone, Copy, Debug)]
pub struct Vec3 {
    pub x: Scalar,
    pub y: Scalar,
    pub z: Scalar,
}

impl Vec3 {
    /// The component on axis `idx`: 0 for x, 1 for y, anything else for z.
    pub open spec fn at(self, idx: int) -> Scalar {
        if idx == 0 {
            self.x
        } else if idx == 1 {
            self.y
        } else {
            self.z
        }
    }

    /// The vector with all three components equal to `s`.
    pub open spec fn splat(s: Scalar) -> Vec3 {
        Vec3 { x: s, y: s, z: s }
    }

    /// Whether some component is a NaN.
    pub open spec fn has_nan_spec(&self) -> bool {
        self.x.is_nan_spec() || self.y.is_nan_spec() || self.z.is_nan_spec()
    }

    /// Component-wise [`Scalar::min_spec`].
    pub open spec fn min_spec(self, b: Vec3) -> Vec3 {
        Vec3 { x: self.x.min_spec(b.x), y: self.y.min_spec(b.y), z: self.z.min_spec(b.z) }
    }

    /// Component-wise [`Scalar::max_spec`].
    pub open spec fn max_spec(self, b: Vec3) -> Vec3 {
        Vec3 { x: self.x.max_spec(b.x), y: self.y.max_spec(b.y), z: self.z.max_spec(b.z) }
    }

    /// The largest component, or negative infinity if all three are NaNs.
    pub open spec fn hmax_spec(self) -> Scalar {
        Scalar { bits: NEG_INFINITY_BITS }.max_spec(self.x).max_spec(self.y).max_spec(self.z)
    }

    /// The smallest component, or positive infinity if all three are NaNs.
    pub open spec fn hmin_spec(self) -> Scalar {
        Scalar { bits: INFINITY_BITS }.min_spec(self.x).min_spec(self.y).min_spec(self.z)
    }

    /// Component-wise equality of numbers.
    pub open spec fn same_point(self, b: Vec3) -> bool {
        self.x.same_number(b.x) && self.y.same_number(b.y) && self.z.same_number(b.z)
    }

    /// The samples that the three states after `state` yield, in the order
    /// x, y, z.
    pub open spec fn samples_after(state: u32) -> Vec3 {
        Vec3 {
            x: sample_of(state_after(state, 1)),
            y: sample_of(state_after(state, 2)),
            z: sample_of(state_after(state, 3)),
        }
    }

    /// The origin.
    pub fn zero() -> (r: Vec3)
        ensures
            r == Vec3::splat(Scalar { bits: 0 }),
    {
        Vec3::fill(Scalar::zero())
    }

    /// The vector with every component equal to `x`.
    pub fn fill(x: Scalar) -> (r: Vec3)
        ensures
            r == Vec3::splat(x),
    {
        Vec3 { x, y: x, z: x }
    }

    /// Negative infinity on every axis: the identity of [`Vec3::max`].
    pub fn min_value() -> (r: Vec3)
        ensures
            r == Vec3::splat(Scalar { bits: NEG_INFINITY_BITS }),
    {
        Vec3::fill(Scalar::neg_infinity())
    }

    /// Positive infinity on every axis: the identity of [`Vec3::min`].
    pub fn max_value() -> (r: Vec3)
        ensures
            r == Vec3::splat(Scalar { bits: INFINITY_BITS }),
    {
        Vec3::fill(Scalar::infinity())
    }

    /// The vector with the given components.
    pub fn new(x: Scalar, y: Scalar, z: Scalar) -> (r: Vec3)
        ensures
            r == (Vec3 { x, y, z }),
    {
        Vec3 { x, y, z }
    }

    /// Three successive samples of the stream, one per axis in the order
    /// x, y, z.  Each lies in `[0, 1)`; the state advances three steps.
    pub fn rand_samples(rng_state: &mut u32) -> (r: Vec3)
        ensures
            *final(rng_state) == state_after(*old(rng_state), 3),
            r == Vec3::samples_after(*old(rng_state)),
            r.x.is_dyadic((state_after(*old(rng_state), 1) & SAMPLE_MASK) as nat, 24),
            r.y.is_dyadic((state_after(*old(rng_state), 2) & SAMPLE_MASK) as nat, 24),
            r.z.is_dyadic((state_after(*old(rng_state), 3) & SAMPLE_MASK) as nat, 24),
            !r.has_nan_spec(),
            forall|i: int| 0 <= #[trigger] r.at(i).key() < ONE_BITS,
    {
        reveal_with_fuel(state_after, 4);
        let x = random_float01(rng_state);
        let y = random_float01(rng_state);
        let z = random_float01(rng_state);
        Vec3 { x, y, z }
    }

    /// The component on axis `idx`.
    pub fn get(&self, idx: usize) -> (r: Scalar)
        requires
            idx < 3,
        ensures
            r == self.at(idx as int),
    {
        if idx == 0 {
            self.x
        } else if idx == 1 {
            self.y
        } else {
            self.z
        }
    }

    /// The first component.
    pub fn x(&self) -> (r: Scalar)
        ensures
            r == self.x,
    {
        self.get(0)
    }

    /// The second component.
    pub fn y(&self) -> (r: Scalar)
        ensures
            r == self.y,
    {
        self.get(1)
    }

    /// The third component.
    pub fn z(&self) -> (r: Scalar)
        ensures
            r == self.z,
    {
        self.get(2)
    }

    /// Whether some component is a NaN.
    #[verifier::when_used_as_spec(has_nan_spec)]
    pub fn has_nan(&self) -> (r: bool)
        ensures
            r == self.has_nan_spec(),
    {
        self.x.is_nan() || self.y.is_nan() || self.z.is_nan()
    }

    /// The largest component, ignoring NaNs.
    pub fn hmax(&self) -> (r: Scalar)
        ensures
            r == self.hmax_spec(),
            !self.has_nan_spec() ==> {
                &&& r == self.x || r == self.y || r == self.z
                &&& r.key() >= self.x.key() && r.key() >= self.y.key() && r.key() >= self.z.key()
            },
    {
        proof {
            lemma_infinity_keys();
            lemma_key_decides_numbers();
        }
        let mut result = Scalar::neg_infinity();
        let mut idx: usize = 0;
        while idx < 3
            invariant
                idx <= 3,
                idx == 0 ==> result == (Scalar { bits: NEG_INFINITY_BITS }),
                idx == 1 ==> result == (Scalar { bits: NEG_INFINITY_BITS }).max_spec(self.x),
                idx == 2 ==> result == (Scalar { bits: NEG_INFINITY_BITS }).max_spec(
                    self.x,
                ).max_spec(self.y),
                idx == 3 ==> result == self.hmax_spec(),
            decreases 3 - idx,
        {
            result = result.max(self.get(idx));
            idx += 1;
        }
        result
    }

    /// The smallest component, ignoring NaNs.
    pub fn hmin(&self) -> (r: Scalar)
        ensures
            r == self.hmin_spec(),
            !self.has_nan_spec() ==> {
                &&& r == self.x || r == self.y || r == self.z
                &&& r.key() <= self.x.key() && r.key() <= self.y.key() && r.key() <= self.z.key()
            },
    {
        proof {
            lemma_infinity_keys();
            lemma_key_decides_numbers();
        }
        let mut result = Scalar::infinity();
        let mut idx: usize = 0;
        while idx < 3
            invariant
                idx <= 3,
                idx == 0 ==> result == (Scalar { bits: INFINITY_BITS }),
                idx == 1 ==> result == (Scalar { bits: INFINITY_BITS }).min_spec(self.x),
                idx == 2 ==> result == (Scalar { bits: INFINITY_BITS }).min_spec(self.x).min_spec(
                    self.y,
                ),
                idx == 3 ==> result == self.hmin_spec(),
            decreases 3 - idx,
        {
            result = result.min(self.get(idx));
            idx += 1;
        }
        result
    }

    /// The components in the order x, y, z.
    pub fn to_array(self) -> (r: [Scalar; 3])
        ensures
            r[0] == self.x,
            r[1] == self.y,
            r[2] == self.z,
    {
        [self.x, self.y, self.z]
    }

    /// Component-wise minimum, ignoring NaNs.
    pub fn min(&self, b: &Vec3) -> (r: Vec3)
        ensures
            r == self.min_spec(*b),
    {
        Vec3 { x: self.x.min(b.x), y: self.y.min(b.y), z: self.z.min(b.z) }
    }

    /// Component-wise maximum, ignoring NaNs.
    pub fn max(&self, b: &Vec3) -> (r: Vec3)
        ensures
            r == self.max_spec(*b),
    {
        Vec3 { x: self.x.max(b.x), y: self.y.max(b.y), z: self.z.max(b.z) }
    }
}

impl PartialEq for Vec3 {
    /// Equality of the three numbers, as [`Scalar`] compares them.
    fn eq(&self, other: &Vec3) -> (r: bool) {
        self.x == other.x && self.y == other.y && self.z == other.z
    }
}

impl vstd::std_specs::cmp::PartialEqSpecImpl for Vec3 {
    open spec fn obeys_eq_spec() -> bool {
        true
    }

    open spec fn eq_spec(&self, other: &Vec3) -> bool {
        self.same_point(*other)
    }
}

impl From<[Scalar; 3]> for Vec3 {
    /// The vector whose components are the array's elements, in order.
    fn from(array: [Scalar; 3]) -> (r: Vec3) {
        Vec3::new(array[0], array[1], array[2])
    }
}

impl vstd::std_specs::convert::FromSpecImpl<[Scalar; 3]> for Vec3 {
    open spec fn obeys_from_spec() -> bool {
        true
    }

    open spec fn from_spec(array: [Scalar; 3]) -> Vec3 {
        Vec3 { x: array[0], y: array[1], z: array[2] }
    }
}

} // verus!

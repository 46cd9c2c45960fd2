//! The scene and the integrator: a bounded random walk of a ray through the
//! scene that gathers light and counts the rays it casts.
//!
//! The walk is decided here; what is arithmetic on coordinates and colours
//! is asked of functions that the caller supplies.  Besides the two tests of
//! [`crate::search`] these are, for a ray of the caller's type `R`:
//!
//! * `bounce(hit, samples)`: the ray that leaves a surface after a diffuse
//!   reflection, from the hit and three samples of `[0, 1)`;
//! * `shadow(hit)`: the ray from a surface towards the light;
//! * `direct(ray, hit)`: the light that reaches an unshadowed surface which
//!   `ray` has met;
//! * `sky(ray)`: the light that a ray gathers which meets nothing;
//! * `blend(light, incoming)`: the light that leaves a surface, from its
//!   direct light and what the bounced ray gathered.

use crate::aabb::Aabb;
use crate::bvh::{all_numeric, box_test_is_safe, built, cost_fn_ok, walk, Bvh, BUILD_SEED};
use crate::hit::{Hit, HitType};
use crate::random::state_after;
use crate::scalar::{Scalar, INFINITY_BITS, NEG_INFINITY_BITS};
use crate::search::{
    box_oracle, box_test_ok, scan, scan_triangles, stops_early, triangle_oracle, triangle_test_ok,
};
use crate::triangle::Triangle;
use crate::vec3::Vec3;
use vstd::prelude::*;

verus! {

/// Pattern of 0.01, the near end of every ray's window: a ray does not see
/// the surface it starts on.
pub const RAY_MIN_BITS: u32 = 0x3C23_D70A;

/// Pattern of 100, the far end of every ray's window.
pub const RAY_MAX_BITS: u32 = 0x42C8_0000;

/// The triangles and, once it is built, the hierarchy over them.  The
/// hierarchy's leaves name runs of `triangle_list`, so the two belong
/// together: [`Scene::wf`] says that they fit.
#[derive(Debug)]
pub struct Scene {
    pub triangle_list: Vec<Triangle>,
    pub bvh: Option<Bvh>,
}

impl Scene {
    /// The hierarchy, if there is one, is a hierarchy over this list.
    pub open spec fn wf(&self) -> bool {
        match self.bvh {
            Some(bvh) => bvh.wf(self.triangle_list@),
            None => true,
        }
    }

    /// Whether the hierarchy, if there is one, is a hierarchy over the
    /// scene's list.
    pub fn is_well_formed(&self) -> (r: bool)
        ensures
            r == self.wf(),
    {
        match &self.bvh {
            Some(bvh) => bvh.is_hierarchy_over(&self.triangle_list),
            None => true,
        }
    }

    /// A scene without a hierarchy; queries search the list from end to
    /// end.
    pub fn new(triangle_list: Vec<Triangle>) -> (scene: Scene)
        ensures
            scene.triangle_list@ == triangle_list@,
            scene.bvh.is_none(),
            scene.wf(),
    {
        Scene { triangle_list, bvh: None }
    }

    /// A scene with a hierarchy built over the given triangles.  The list
    /// keeps its triangles and may change their order.
    pub fn accelerated<C: Fn(usize, Aabb, usize, Aabb) -> Scalar>(
        triangle_list: Vec<Triangle>,
        cost: &C,
    ) -> (scene: Scene)
        requires
            cost_fn_ok(*cost),
        ensures
            scene.triangle_list@.to_multiset() == triangle_list@.to_multiset(),
            scene.wf(),
            match scene.bvh {
                Some(bvh) => built(
                    *cost,
                    triangle_list@,
                    scene.triangle_list@,
                    bvh.nodes@,
                    0,
                    bvh.nodes@.len() as int,
                    0,
                    triangle_list@.len() as int,
                    BUILD_SEED,
                ),
                None => false,
            },
    {
        let mut triangle_list = triangle_list;
        let bvh = Bvh::create(&mut triangle_list, cost);
        Scene { triangle_list, bvh: Some(bvh) }
    }
}

/// The least and the greatest coordinates, axis by axis, of the vertices of
/// the first `count` triangles, taken in order from (+infinity, -infinity).
/// NaN coordinates are passed over.
pub open spec fn boundary_of(tris: Seq<Triangle>, count: int) -> (Vec3, Vec3)
    decreases count,
{
    if count <= 0 {
        (
            Vec3::splat(Scalar { bits: INFINITY_BITS }),
            Vec3::splat(Scalar { bits: NEG_INFINITY_BITS }),
        )
    } else {
        let (lo, hi) = boundary_of(tris, count - 1);
        let t = tris[count - 1];
        (
            lo.min_spec(t.vertices[0]).min_spec(t.vertices[1]).min_spec(t.vertices[2]),
            hi.max_spec(t.vertices[0]).max_spec(t.vertices[1]).max_spec(t.vertices[2]),
        )
    }
}

/// On every axis, every vertex of the first `count` triangles lies between
/// the two corners of their boundary, if the triangles are free of NaNs.
pub proof fn lemma_boundary_holds(tris: Seq<Triangle>, count: int, i: int, k: int, axis: int)
    requires
        0 <= i < count <= tris.len(),
        0 <= k < 3,
        all_numeric(tris),
    ensures
        !boundary_of(tris, count).0.has_nan_spec(),
        !boundary_of(tris, count).1.has_nan_spec(),
        boundary_of(tris, count).0.at(axis).key() <= tris[i].vertices[k].at(axis).key(),
        tris[i].vertices[k].at(axis).key() <= boundary_of(tris, count).1.at(axis).key(),
    decreases count,
{
    crate::scalar::lemma_infinity_keys();
    lemma_boundary_numeric(tris, count - 1);
    assert(tris[count - 1].is_numeric());
    if i < count - 1 {
        lemma_boundary_holds(tris, count - 1, i, k, axis);
    }
}

/// The boundary of triangles without NaNs has no NaN.
pub proof fn lemma_boundary_numeric(tris: Seq<Triangle>, count: int)
    requires
        count <= tris.len(),
        all_numeric(tris),
    ensures
        !boundary_of(tris, count).0.has_nan_spec(),
        !boundary_of(tris, count).1.has_nan_spec(),
    decreases count,
{
    crate::scalar::lemma_infinity_keys();
    if count > 0 {
        lemma_boundary_numeric(tris, count - 1);
        assert(tris[count - 1].is_numeric());
    }
}

/// The two corners of the smallest box around all vertices of the list.  An
/// empty list gives (+infinity, -infinity).
pub fn compute_scene_boundary(triangle_list: &Vec<Triangle>) -> (r: (Vec3, Vec3))
    ensures
        r == boundary_of(triangle_list@, triangle_list@.len() as int),
{
    let mut min_b = Vec3::max_value();
    let mut max_b = Vec3::min_value();
    let mut i: usize = 0;
    while i < triangle_list.len()
        invariant
            i <= triangle_list@.len(),
            (min_b, max_b) == boundary_of(triangle_list@, i as int),
        decreases triangle_list@.len() - i,
    {
        let triangle = &triangle_list[i];
        let ghost lo = min_b;
        let ghost hi = max_b;
        let mut k: usize = 0;
        while k < 3
            invariant
                k <= 3,
                i < triangle_list@.len(),
                *triangle == triangle_list@[i as int],
                k == 0 ==> min_b == lo && max_b == hi,
                k == 1 ==> min_b == lo.min_spec(triangle.vertices[0]) && max_b == hi.max_spec(
                    triangle.vertices[0],
                ),
                k == 2 ==> min_b == lo.min_spec(triangle.vertices[0]).min_spec(
                    triangle.vertices[1],
                ) && max_b == hi.max_spec(triangle.vertices[0]).max_spec(triangle.vertices[1]),
                k == 3 ==> min_b == lo.min_spec(triangle.vertices[0]).min_spec(
                    triangle.vertices[1],
                ).min_spec(triangle.vertices[2]) && max_b == hi.max_spec(
                    triangle.vertices[0],
                ).max_spec(triangle.vertices[1]).max_spec(triangle.vertices[2]),
            decreases 3 - k,
        {
            min_b = Vec3::min(&min_b, &triangle.vertices[k]);
            max_b = Vec3::max(&max_b, &triangle.vertices[k]);
            k += 1;
        }
        i += 1;
    }
    (min_b, max_b)
}

/// What a query of the scene finds: the outcome of searching the hierarchy
/// if the scene has one, else of searching the list from end to end.
pub open spec fn scene_hit<
    R,
    B: Fn(Aabb, &R, Scalar, Scalar) -> bool,
    T: Fn(Triangle, &R, Scalar, Scalar) -> Option<Hit>,
>(
    scene: Scene,
    ray: R,
    min_t: Scalar,
    max_t: Scalar,
    hit_type: HitType,
    box_test: B,
    tri_test: T,
) -> Option<Hit> {
    let prim = triangle_oracle(tri_test, scene.triangle_list@, ray, min_t);
    match scene.bvh {
        Some(bvh) => walk(
            bvh.nodes@,
            prim,
            box_oracle(box_test, ray, min_t),
            stops_early(hit_type),
            0,
            max_t,
        ).0,
        None => scan(prim, stops_early(hit_type), 0, scene.triangle_list@.len() as int, max_t).0,
    }
}

/// Finds the surface that `ray` meets in the window `[min_t, max_t]`,
/// through the hierarchy if the scene has one.
pub fn hit_scene<
    R,
    B: Fn(Aabb, &R, Scalar, Scalar) -> bool,
    T: Fn(Triangle, &R, Scalar, Scalar) -> Option<Hit>,
>(
    ray: &R,
    min_t: Scalar,
    max_t: Scalar,
    hit_type: HitType,
    scene: &Scene,
    box_test: &B,
    tri_test: &T,
) -> (hit: Option<Hit>)
    requires
        scene.wf(),
        box_test_ok(*box_test),
        triangle_test_ok(*tri_test),
    ensures
        hit == scene_hit(*scene, *ray, min_t, max_t, hit_type, *box_test, *tri_test),
        all_numeric(scene.triangle_list@) && box_test_is_safe(
            scene.triangle_list@,
            triangle_oracle(*tri_test, scene.triangle_list@, *ray, min_t),
            box_oracle(*box_test, *ray, min_t),
        ) ==> hit == scan(
            triangle_oracle(*tri_test, scene.triangle_list@, *ray, min_t),
            stops_early(hit_type),
            0,
            scene.triangle_list@.len() as int,
            max_t,
        ).0,
{
    match &scene.bvh {
        Some(bvh) => bvh.intersect(
            ray,
            min_t,
            max_t,
            hit_type,
            &scene.triangle_list,
            box_test,
            tri_test,
        ),
        None => {
            let mut min_distance = max_t;
            scan_triangles(
                &scene.triangle_list,
                0,
                scene.triangle_list.len(),
                ray,
                min_t,
                &mut min_distance,
                hit_type,
                tri_test,
            )
        },
    }
}

/// What `bounce` answers.
pub open spec fn bounce_outcome<R, S: Fn(Hit, Vec3) -> R>(bounce: S, hit: Hit, samples: Vec3) -> R {
    choose|r: R| call_ensures(bounce, (hit, samples), r)
}

/// What `shadow` answers.
pub open spec fn shadow_outcome<R, L: Fn(Hit) -> R>(shadow: L, hit: Hit) -> R {
    choose|r: R| call_ensures(shadow, (hit,), r)
}

/// What `direct` answers.
pub open spec fn direct_outcome<R, D: Fn(&R, Hit) -> Vec3>(direct: D, ray: R, hit: Hit) -> Vec3 {
    choose|r: Vec3| call_ensures(direct, (&ray, hit), r)
}

/// What `sky` answers.
pub open spec fn sky_outcome<R, K: Fn(&R) -> Vec3>(sky: K, ray: R) -> Vec3 {
    choose|r: Vec3| call_ensures(sky, (&ray,), r)
}

/// What `blend` answers.
pub open spec fn blend_outcome<M: Fn(Vec3, Vec3) -> Vec3>(
    blend: M,
    light: Vec3,
    incoming: Vec3,
) -> Vec3 {
    choose|r: Vec3| call_ensures(blend, (light, incoming), r)
}

/// Each of the five shading functions answers every question, and the same
/// question always the same way.
pub open spec fn shading_ok<
    R,
    S: Fn(Hit, Vec3) -> R,
    L: Fn(Hit) -> R,
    D: Fn(&R, Hit) -> Vec3,
    K: Fn(&R) -> Vec3,
    M: Fn(Vec3, Vec3) -> Vec3,
>(bounce: S, shadow: L, direct: D, sky: K, blend: M) -> bool {
    &&& forall|hit: Hit, samples: Vec3| call_requires(bounce, (hit, samples))
    &&& forall|hit: Hit, samples: Vec3, a: R, b: R|
        call_ensures(bounce, (hit, samples), a) && call_ensures(bounce, (hit, samples), b) ==> a
            == b
    &&& forall|hit: Hit| call_requires(shadow, (hit,))
    &&& forall|hit: Hit, a: R, b: R|
        call_ensures(shadow, (hit,), a) && call_ensures(shadow, (hit,), b) ==> a == b
    &&& forall|ray: &R, hit: Hit| call_requires(direct, (ray, hit))
    &&& forall|ray: &R, hit: Hit, a: Vec3, b: Vec3|
        call_ensures(direct, (ray, hit), a) && call_ensures(direct, (ray, hit), b) ==> a == b
    &&& forall|ray: &R| call_requires(sky, (ray,))
    &&& forall|ray: &R, a: Vec3, b: Vec3|
        call_ensures(sky, (ray,), a) && call_ensures(sky, (ray,), b) ==> a == b
    &&& forall|light: Vec3, incoming: Vec3| call_requires(blend, (light, incoming))
    &&& forall|light: Vec3, incoming: Vec3, a: Vec3, b: Vec3|
        call_ensures(blend, (light, incoming), a) && call_ensures(blend, (light, incoming), b)
            ==> a == b
}

/// What happens where a ray has met a surface: the ray that bounces off,
/// and the direct light at the point.  The bounce is drawn from the three
/// samples after `rng`; the light is `direct`'s unless some surface lies
/// between the point and the light, in which case it is black.
pub open spec fn scatter_spec<
    R,
    B: Fn(Aabb, &R, Scalar, Scalar) -> bool,
    T: Fn(Triangle, &R, Scalar, Scalar) -> Option<Hit>,
    S: Fn(Hit, Vec3) -> R,
    L: Fn(Hit) -> R,
    D: Fn(&R, Hit) -> Vec3,
>(
    ray: R,
    hit: Hit,
    rng: u32,
    scene: Scene,
    box_test: B,
    tri_test: T,
    bounce: S,
    shadow: L,
    direct: D,
) -> (R, Vec3) {
    let scattered = bounce_outcome(bounce, hit, Vec3::samples_after(rng));
    let occluder = scene_hit(
        scene,
        shadow_outcome(shadow, hit),
        Scalar { bits: RAY_MIN_BITS },
        Scalar { bits: RAY_MAX_BITS },
        HitType::Any,
        box_test,
        tri_test,
    );
    if occluder.is_none() {
        (scattered, direct_outcome(direct, ray, hit))
    } else {
        (scattered, Vec3::splat(Scalar { bits: 0 }))
    }
}

/// The light that a ray gathers with `depth` steps left, the number of rays
/// cast for it, and the state of the stream afterwards.
///
/// With no step left the ray is black and counts as one ray.  A ray that
/// meets nothing gathers the sky and counts as one ray.  A ray that meets a
/// surface is scattered; the bounced ray is followed with one step less, and
/// its light is blended with the direct light of the surface.  Such a step
/// counts two rays beyond those of the bounced ray, and advances the stream
/// by three states.
pub open spec fn trace_spec<
    R,
    B: Fn(Aabb, &R, Scalar, Scalar) -> bool,
    T: Fn(Triangle, &R, Scalar, Scalar) -> Option<Hit>,
    S: Fn(Hit, Vec3) -> R,
    L: Fn(Hit) -> R,
    D: Fn(&R, Hit) -> Vec3,
    K: Fn(&R) -> Vec3,
    M: Fn(Vec3, Vec3) -> Vec3,
>(
    ray: R,
    depth: nat,
    rng: u32,
    scene: Scene,
    box_test: B,
    tri_test: T,
    bounce: S,
    shadow: L,
    direct: D,
    sky: K,
    blend: M,
) -> (Vec3, nat, u32)
    decreases depth,
{
    if depth == 0 {
        (Vec3::splat(Scalar { bits: 0 }), 1, rng)
    } else {
        match scene_hit(
            scene,
            ray,
            Scalar { bits: RAY_MIN_BITS },
            Scalar { bits: RAY_MAX_BITS },
            HitType::Closest,
            box_test,
            tri_test,
        ) {
            Some(hit) => {
                let (scattered, light) = scatter_spec(
                    ray,
                    hit,
                    rng,
                    scene,
                    box_test,
                    tri_test,
                    bounce,
                    shadow,
                    direct,
                );
                let rest = trace_spec(
                    scattered,
                    (depth - 1) as nat,
                    state_after(rng, 3),
                    scene,
                    box_test,
                    tri_test,
                    bounce,
                    shadow,
                    direct,
                    sky,
                    blend,
                );
                (blend_outcome(blend, light, rest.0), rest.1 + 2, rest.2)
            },
            None => (sky_outcome(sky, ray), 1, rng),
        }
    }
}

/// The count of rays is odd and at most `2 * depth + 1`: one ray, and two
/// more for every surface met.  The stream advances three states for every
/// surface met.
pub proof fn lemma_trace_counts<
    R,
    B: Fn(Aabb, &R, Scalar, Scalar) -> bool,
    T: Fn(Triangle, &R, Scalar, Scalar) -> Option<Hit>,
    S: Fn(Hit, Vec3) -> R,
    L: Fn(Hit) -> R,
    D: Fn(&R, Hit) -> Vec3,
    K: Fn(&R) -> Vec3,
    M: Fn(Vec3, Vec3) -> Vec3,
>(
    ray: R,
    depth: nat,
    rng: u32,
    scene: Scene,
    box_test: B,
    tri_test: T,
    bounce: S,
    shadow: L,
    direct: D,
    sky: K,
    blend: M,
)
    ensures
        ({
            let r = trace_spec(
                ray,
                depth,
                rng,
                scene,
                box_test,
                tri_test,
                bounce,
                shadow,
                direct,
                sky,
                blend,
            );
            &&& 1 <= r.1 <= 2 * depth + 1
            &&& r.1 % 2 == 1
            &&& r.2 == state_after(rng, (3 * ((r.1 - 1) / 2)) as nat)
        }),
    decreases depth,
{
    if depth > 0 {
        let found = scene_hit(
            scene,
            ray,
            Scalar { bits: RAY_MIN_BITS },
            Scalar { bits: RAY_MAX_BITS },
            HitType::Closest,
            box_test,
            tri_test,
        );
        if let Some(hit) = found {
            let scattered = scatter_spec(
                ray,
                hit,
                rng,
                scene,
                box_test,
                tri_test,
                bounce,
                shadow,
                direct,
            ).0;
            lemma_trace_counts(
                scattered,
                (depth - 1) as nat,
                state_after(rng, 3),
                scene,
                box_test,
                tri_test,
                bounce,
                shadow,
                direct,
                sky,
                blend,
            );
            let rest = trace_spec(
                scattered,
                (depth - 1) as nat,
                state_after(rng, 3),
                scene,
                box_test,
                tri_test,
                bounce,
                shadow,
                direct,
                sky,
                blend,
            );
            crate::random::lemma_state_after_adds(rng, 3, (3 * ((rest.1 - 1) / 2)) as nat);
        }
    }
}

/// Scatters a ray at a surface it has met: draws three samples for the
/// bounce, and casts the shadow ray to decide whether the surface is lit.
/// Returns the bounced ray and the direct light.
pub fn scatter<
    R,
    B: Fn(Aabb, &R, Scalar, Scalar) -> bool,
    T: Fn(Triangle, &R, Scalar, Scalar) -> Option<Hit>,
    S: Fn(Hit, Vec3) -> R,
    L: Fn(Hit) -> R,
    D: Fn(&R, Hit) -> Vec3,
>(
    ray: &R,
    hit: &Hit,
    rng_state: &mut u32,
    scene: &Scene,
    box_test: &B,
    tri_test: &T,
    bounce: &S,
    shadow: &L,
    direct: &D,
) -> (r: (R, Vec3))
    requires
        scene.wf(),
        box_test_ok(*box_test),
        triangle_test_ok(*tri_test),
        forall|h: Hit, samples: Vec3| call_requires(*bounce, (h, samples)),
        forall|h: Hit, samples: Vec3, a: R, b: R|
            call_ensures(*bounce, (h, samples), a) && call_ensures(*bounce, (h, samples), b) ==> a
                == b,
        forall|h: Hit| call_requires(*shadow, (h,)),
        forall|h: Hit, a: R, b: R|
            call_ensures(*shadow, (h,), a) && call_ensures(*shadow, (h,), b) ==> a == b,
        forall|q: &R, h: Hit| call_requires(*direct, (q, h)),
        forall|q: &R, h: Hit, a: Vec3, b: Vec3|
            call_ensures(*direct, (q, h), a) && call_ensures(*direct, (q, h), b) ==> a == b,
    ensures
        r == scatter_spec(
            *ray,
            *hit,
            *old(rng_state),
            *scene,
            *box_test,
            *tri_test,
            *bounce,
            *shadow,
            *direct,
        ),
        *final(rng_state) == state_after(*old(rng_state), 3),
{
    let mut light_ray = Vec3::zero();
    let samples = Vec3::rand_samples(rng_state);
    let scattered = bounce(*hit, samples);
    let shadow_ray = shadow(*hit);
    if hit_scene(
        &shadow_ray,
        Scalar::from_bits(RAY_MIN_BITS),
        Scalar::from_bits(RAY_MAX_BITS),
        HitType::Any,
        scene,
        box_test,
        tri_test,
    ).is_none() {
        light_ray = direct(ray, *hit);
    }
    (scattered, light_ray)
}

/// Follows `ray` through the scene for at most `depth` steps and returns the
/// light it gathers and the number of rays cast.  With `depth` zero that is
/// black and one ray, whatever the scene and the ray.
pub fn trace<
    R,
    B: Fn(Aabb, &R, Scalar, Scalar) -> bool,
    T: Fn(Triangle, &R, Scalar, Scalar) -> Option<Hit>,
    S: Fn(Hit, Vec3) -> R,
    L: Fn(Hit) -> R,
    D: Fn(&R, Hit) -> Vec3,
    K: Fn(&R) -> Vec3,
    M: Fn(Vec3, Vec3) -> Vec3,
>(
    ray: &R,
    depth: usize,
    rng_state: &mut u32,
    scene: &Scene,
    box_test: &B,
    tri_test: &T,
    bounce: &S,
    shadow: &L,
    direct: &D,
    sky: &K,
    blend: &M,
) -> (r: (Vec3, usize))
    requires
        scene.wf(),
        box_test_ok(*box_test),
        triangle_test_ok(*tri_test),
        shading_ok(*bounce, *shadow, *direct, *sky, *blend),
        2 * depth + 1 <= usize::MAX,
    ensures
        (r.0, r.1 as nat, *final(rng_state)) == trace_spec(
            *ray,
            depth as nat,
            *old(rng_state),
            *scene,
            *box_test,
            *tri_test,
            *bounce,
            *shadow,
            *direct,
            *sky,
            *blend,
        ),
        depth == 0 ==> r.0 == Vec3::splat(Scalar { bits: 0 }) && r.1 == 1 && *final(rng_state)
            == *old(rng_state),
        1 <= r.1 <= 2 * depth + 1,
        r.1 % 2 == 1,
        *final(rng_state) == state_after(*old(rng_state), (3 * ((r.1 - 1) / 2)) as nat),
    decreases depth,
{
    proof {
        lemma_trace_counts(
            *ray,
            depth as nat,
            *rng_state,
            *scene,
            *box_test,
            *tri_test,
            *bounce,
            *shadow,
            *direct,
            *sky,
            *blend,
        );
    }
    if 0 == depth {
        return (Vec3::zero(), 1);
    }
    let hit = hit_scene(
        ray,
        Scalar::from_bits(RAY_MIN_BITS),
        Scalar::from_bits(RAY_MAX_BITS),
        HitType::Closest,
        scene,
        box_test,
        tri_test,
    );
    match hit {
        Some(found) => {
            let (ray_scatter, light_ray) = scatter(
                ray,
                &found,
                rng_state,
                scene,
                box_test,
                tri_test,
                bounce,
                shadow,
                direct,
            );
            let (color, ray_count) = trace(
                &ray_scatter,
                depth - 1,
                rng_state,
                scene,
                box_test,
                tri_test,
                bounce,
                shadow,
                direct,
                sky,
                blend,
            );
            (blend(light_ray, color), ray_count + 2)
        },
        None => (sky(ray), 1),
    }
}

} // verus!

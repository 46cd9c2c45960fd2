//! Searching a run of triangles for the surface that a ray meets.
//!
//! Whether a ray meets a triangle, or passes through a box, is arithmetic on
//! coordinates and is asked of two functions that the caller supplies.  For
//! a ray of the caller's own type `R` and a window `[tmin, tmax]` of
//! distances along it, the *triangle test* answers with the hit, if there is
//! one in the window, and the *box test* answers whether the ray passes
//! through the box within the window.  The search narrows the window to the
//! distance of each hit it accepts, so that later triangles are only asked
//! for nearer surfaces.

use crate::aabb::Aabb;
use crate::hit::{Hit, HitType};
use crate::scalar::Scalar;
use crate::triangle::Triangle;
use vstd::prelude::*;

verus! {

/// What the triangle test answers for `tri` on the window `[tmin, tmax]`.
pub open spec fn triangle_outcome<R, T: Fn(Triangle, &R, Scalar, Scalar) -> Option<Hit>>(
    test: T,
    tri: Triangle,
    ray: R,
    tmin: Scalar,
    tmax: Scalar,
) -> Option<Hit> {
    choose|r: Option<Hit>| call_ensures(test, (tri, &ray, tmin, tmax), r)
}

/// The triangle test answers every question, and the same question always
/// the same way.
pub open spec fn triangle_test_ok<R, T: Fn(Triangle, &R, Scalar, Scalar) -> Option<Hit>>(
    test: T,
) -> bool {
    &&& forall|tri: Triangle, ray: &R, tmin: Scalar, tmax: Scalar|
        call_requires(test, (tri, ray, tmin, tmax))
    &&& forall|tri: Triangle, ray: &R, tmin: Scalar, tmax: Scalar, a: Option<Hit>, b: Option<Hit>|
        call_ensures(test, (tri, ray, tmin, tmax), a) && call_ensures(
            test,
            (tri, ray, tmin, tmax),
            b,
        ) ==> a == b
}

/// What the box test answers for `aabb` on the window `[tmin, tmax]`.
pub open spec fn box_outcome<R, B: Fn(Aabb, &R, Scalar, Scalar) -> bool>(
    test: B,
    aabb: Aabb,
    ray: R,
    tmin: Scalar,
    tmax: Scalar,
) -> bool {
    choose|r: bool| call_ensures(test, (aabb, &ray, tmin, tmax), r)
}

/// The box test answers every question, and the same question always the
/// same way.
pub open spec fn box_test_ok<R, B: Fn(Aabb, &R, Scalar, Scalar) -> bool>(test: B) -> bool {
    &&& forall|aabb: Aabb, ray: &R, tmin: Scalar, tmax: Scalar|
        call_requires(test, (aabb, ray, tmin, tmax))
    &&& forall|aabb: Aabb, ray: &R, tmin: Scalar, tmax: Scalar, a: bool, b: bool|
        call_ensures(test, (aabb, ray, tmin, tmax), a) && call_ensures(
            test,
            (aabb, ray, tmin, tmax),
            b,
        ) ==> a == b
}

/// The triangle test as a function of a triangle's index in `tris` and the
/// far end of the window, for a fixed ray and near end.
pub open spec fn triangle_oracle<R, T: Fn(Triangle, &R, Scalar, Scalar) -> Option<Hit>>(
    test: T,
    tris: Seq<Triangle>,
    ray: R,
    tmin: Scalar,
) -> spec_fn(int, Scalar) -> Option<Hit> {
    |i: int, tmax: Scalar| triangle_outcome(test, tris[i], ray, tmin, tmax)
}

/// The box test as a function of the box and the far end of the window, for
/// a fixed ray and near end.
pub open spec fn box_oracle<R, B: Fn(Aabb, &R, Scalar, Scalar) -> bool>(
    test: B,
    ray: R,
    tmin: Scalar,
) -> spec_fn(Aabb, Scalar) -> bool {
    |aabb: Aabb, tmax: Scalar| box_outcome(test, aabb, ray, tmin, tmax)
}

/// Whether a query stops at the first hit.
pub open spec fn stops_early(hit_type: HitType) -> bool {
    hit_type == HitType::Any
}

/// The outcome of searching the triangles `lo..hi` in order, starting with
/// the far end of the window at `tmax`: the hit that was accepted last, if
/// any was, and the far end of the window afterwards.
///
/// Triangle `i` is asked with the window as the triangles before it left
/// it.  A hit is accepted as it comes and moves the far end to its own
/// distance.  With `any` set, nothing is asked once a hit is accepted.
pub open spec fn scan(
    prim: spec_fn(int, Scalar) -> Option<Hit>,
    any: bool,
    lo: int,
    hi: int,
    tmax: Scalar,
) -> (Option<Hit>, Scalar)
    decreases hi - lo,
{
    if lo >= hi {
        (None, tmax)
    } else {
        let before = scan(prim, any, lo, hi - 1, tmax);
        if any && before.0.is_some() {
            before
        } else {
            match prim(hi - 1, before.1) {
                Some(h) => (Some(h), h.t),
                None => before,
            }
        }
    }
}

/// The later of two outcomes: the second search's hit if it found one, else
/// the first's.
pub open spec fn later(first: Option<Hit>, second: Option<Hit>) -> Option<Hit> {
    if second.is_some() {
        second
    } else {
        first
    }
}

/// Searching `lo..hi` is searching `lo..mid` and then, unless that search
/// stopped early, `mid..hi` with the window it left.
pub proof fn lemma_scan_split(
    prim: spec_fn(int, Scalar) -> Option<Hit>,
    any: bool,
    lo: int,
    mid: int,
    hi: int,
    tmax: Scalar,
)
    requires
        lo <= mid <= hi,
    ensures
        ({
            let a = scan(prim, any, lo, mid, tmax);
            let b = scan(prim, any, mid, hi, a.1);
            scan(prim, any, lo, hi, tmax) == if any && a.0.is_some() {
                a
            } else {
                (later(a.0, b.0), b.1)
            }
        }),
    decreases hi - mid,
{
    if mid < hi {
        lemma_scan_split(prim, any, lo, mid, hi - 1, tmax);
    }
}

/// If no triangle of `lo..hi` is hit in the window that ends at `tmax`, the
/// search finds nothing and leaves the window as it was.
pub proof fn lemma_scan_all_miss(
    prim: spec_fn(int, Scalar) -> Option<Hit>,
    any: bool,
    lo: int,
    hi: int,
    tmax: Scalar,
)
    requires
        forall|i: int| lo <= i < hi ==> (#[trigger] prim(i, tmax)).is_none(),
    ensures
        scan(prim, any, lo, hi, tmax) == (None::<Hit>, tmax),
    decreases hi - lo,
{
    if lo < hi {
        lemma_scan_all_miss(prim, any, lo, hi - 1, tmax);
    }
}

/// The triangle test is exact on the triangles `lo..hi`: triangle `i` and
/// the ray meet at most once, at `meeting(i)`, and whatever the far end of
/// the window, the test reports that meeting if its distance is no greater
/// than the far end, and nothing else.
pub open spec fn reports_meetings(
    prim: spec_fn(int, Scalar) -> Option<Hit>,
    meeting: spec_fn(int) -> Option<Hit>,
    lo: int,
    hi: int,
) -> bool {
    forall|i: int, tmax: Scalar|
        lo <= i < hi ==> #[trigger] prim(i, tmax) == match meeting(i) {
            Some(h) => if h.t.le_spec(tmax) {
                Some(h)
            } else {
                None
            },
            None => None,
        }
}

/// Triangle `i` meets the ray within the far end `tmax` of the window.
pub open spec fn meets_within(meeting: spec_fn(int) -> Option<Hit>, i: int, tmax: Scalar) -> bool {
    match meeting(i) {
        Some(h) => h.t.le_spec(tmax),
        None => false,
    }
}

/// With an exact triangle test, a search for the closest hit finds the
/// nearest meeting: it finds a hit if any triangle meets the ray within the
/// window, the hit is the meeting of one of the triangles, and no triangle
/// meets the ray nearer.  The window ends at the hit's distance, or where it
/// did if there is no hit.
pub proof fn lemma_scan_finds_nearest(
    prim: spec_fn(int, Scalar) -> Option<Hit>,
    meeting: spec_fn(int) -> Option<Hit>,
    lo: int,
    hi: int,
    tmax: Scalar,
)
    requires
        reports_meetings(prim, meeting, lo, hi),
        !tmax.is_nan_spec(),
    ensures
        ({
            let (found, window) = scan(prim, false, lo, hi, tmax);
            &&& !window.is_nan_spec()
            &&& window.key() <= tmax.key()
            &&& match found {
                Some(h) => window == h.t && exists|j: int|
                    lo <= j < hi && #[trigger] meeting(j) == Some(h),
                None => window == tmax,
            }
            &&& found.is_some() <==> exists|i: int|
                lo <= i < hi && #[trigger] meets_within(meeting, i, tmax)
            &&& forall|i: int|
                lo <= i < hi && #[trigger] meets_within(meeting, i, tmax) ==> window.key()
                    <= meeting(i).unwrap().t.key()
        }),
    decreases hi - lo,
{
    if lo < hi {
        lemma_scan_finds_nearest(prim, meeting, lo, hi - 1, tmax);
        let (before, narrowed) = scan(prim, false, lo, hi - 1, tmax);
        let (found, window) = scan(prim, false, lo, hi, tmax);
        assert(prim(hi - 1, narrowed) == match meeting(hi - 1) {
            Some(h) => if h.t.le_spec(narrowed) {
                Some(h)
            } else {
                None
            },
            None => None,
        });
        if let Some(h) = found {
            if prim(hi - 1, narrowed).is_some() {
                assert(meeting(hi - 1) == Some(h));
            } else {
                let j = choose|j: int| lo <= j < hi - 1 && #[trigger] meeting(j) == Some(h);
                assert(meeting(j) == Some(h));
            }
        }
        if found.is_some() {
            if prim(hi - 1, narrowed).is_some() {
                assert(meets_within(meeting, hi - 1, tmax));
            } else {
                let i = choose|i: int| lo <= i < hi - 1 && #[trigger] meets_within(meeting, i, tmax);
                assert(meets_within(meeting, i, tmax));
            }
        }
        if exists|i: int| lo <= i < hi && #[trigger] meets_within(meeting, i, tmax) {
            let i = choose|i: int| lo <= i < hi && #[trigger] meets_within(meeting, i, tmax);
            if i < hi - 1 {
                assert(meets_within(meeting, i, tmax));
            }
        }
    }
}

/// With an exact triangle test, a search for any hit finds the meeting of
/// the first triangle that meets the ray within the window, and finds
/// nothing only if no triangle does.
pub proof fn lemma_scan_finds_first(
    prim: spec_fn(int, Scalar) -> Option<Hit>,
    meeting: spec_fn(int) -> Option<Hit>,
    lo: int,
    hi: int,
    tmax: Scalar,
)
    requires
        reports_meetings(prim, meeting, lo, hi),
    ensures
        ({
            let (found, window) = scan(prim, true, lo, hi, tmax);
            match found {
                Some(h) => window == h.t && exists|j: int|
                    {
                        &&& lo <= j < hi
                        &&& #[trigger] meets_within(meeting, j, tmax)
                        &&& meeting(j) == Some(h)
                        &&& forall|i: int| lo <= i < j ==> !#[trigger] meets_within(meeting, i, tmax)
                    },
                None => window == tmax && forall|i: int|
                    lo <= i < hi ==> !#[trigger] meets_within(meeting, i, tmax),
            }
        }),
    decreases hi - lo,
{
    if lo < hi {
        lemma_scan_finds_first(prim, meeting, lo, hi - 1, tmax);
        let (before, narrowed) = scan(prim, true, lo, hi - 1, tmax);
        let (found, window) = scan(prim, true, lo, hi, tmax);
        if let Some(h) = before {
            let j = choose|j: int|
                {
                    &&& lo <= j < hi - 1
                    &&& #[trigger] meets_within(meeting, j, tmax)
                    &&& meeting(j) == Some(h)
                    &&& forall|i: int| lo <= i < j ==> !#[trigger] meets_within(meeting, i, tmax)
                };
            assert(meets_within(meeting, j, tmax));
        } else {
            assert(prim(hi - 1, tmax) == match meeting(hi - 1) {
                Some(h) => if h.t.le_spec(tmax) {
                    Some(h)
                } else {
                    None
                },
                None => None,
            });
            if found.is_some() {
                assert(meets_within(meeting, hi - 1, tmax));
            }
        }
    }
}

/// Searches the triangles `lo..hi` of the list in order and returns the hit
/// accepted last; `tmax` is narrowed to its distance.
pub fn scan_triangles<R, T: Fn(Triangle, &R, Scalar, Scalar) -> Option<Hit>>(
    triangles: &Vec<Triangle>,
    lo: usize,
    hi: usize,
    ray: &R,
    tmin: Scalar,
    tmax: &mut Scalar,
    hit_type: HitType,
    tri_test: &T,
) -> (hit: Option<Hit>)
    requires
        triangle_test_ok(*tri_test),
        lo <= hi <= triangles@.len(),
    ensures
        (hit, *final(tmax)) == scan(
            triangle_oracle(*tri_test, triangles@, *ray, tmin),
            stops_early(hit_type),
            lo as int,
            hi as int,
            *old(tmax),
        ),
{
    let ghost prim = triangle_oracle(*tri_test, triangles@, *ray, tmin);
    let ghost any = stops_early(hit_type);
    let ghost tmax0 = *tmax;
    let mut hit: Option<Hit> = None;
    let mut tri_idx: usize = lo;
    while tri_idx < hi
        invariant_except_break
            !(any && hit.is_some()),
            (hit, *tmax) == scan(prim, any, lo as int, tri_idx as int, tmax0),
        invariant
            lo <= tri_idx <= hi <= triangles@.len(),
            triangle_test_ok(*tri_test),
            prim == triangle_oracle(*tri_test, triangles@, *ray, tmin),
            any == stops_early(hit_type),
        ensures
            (hit, *tmax) == scan(prim, any, lo as int, hi as int, tmax0),
        decreases hi - tri_idx,
    {
        let tri_hit = tri_test(triangles[tri_idx], ray, tmin, *tmax);
        assert(tri_hit == prim(tri_idx as int, *tmax));
        if let Some(found) = tri_hit {
            *tmax = found.t;
            hit = Some(found);
            if hit_type == HitType::Any {
                proof {
                    lemma_scan_split(prim, any, lo as int, tri_idx + 1, hi as int, tmax0);
                }
                break ;
            }
        }
        tri_idx += 1;
    }
    hit
}

} // verus!

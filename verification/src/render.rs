//! Rendering a picture: several jittered rays through every pixel, each
//! traced through the scene, their light gathered into one sum per pixel.
//!
//! The picture is rendered in square blocks.  Each block has a stream of
//! pseudo-random numbers of its own, so that the blocks can be rendered in
//! any order, or at the same time on the threads of rayon's pool, with the
//! same result.
//!
//! Besides the functions that [`crate::scene`] asks for, two more are left
//! to the caller:
//!
//! * `aim(x, y, jitter_x, jitter_y, state)`: the ray through the pixel in
//!   column `x` and row `y`, moved within the pixel by two samples of
//!   `[0, 1)`.  Aiming may draw from the stream itself; it is handed the
//!   state of the stream and hands back the state it leaves.
//! * `gather(sum, light)`: the sum of the light gathered so far and the light
//!   of one more ray.

use crate::aabb::Aabb;
use crate::hit::Hit;
use crate::random::{random_float01, sample_of, state_after};
use crate::scalar::{Scalar, ONE_BITS};
use crate::scene::{lemma_trace_counts, shading_ok, trace, trace_spec, Scene};
use crate::search::{box_test_ok, triangle_test_ok};
use crate::tiling::{
    block_seed, block_seed_spec, lemma_pixel_has_block, lemma_pixel_position,
    lemma_pixels_distinct, pixel_index, pixel_index_spec, tiles, SEED_STRIDE,
};
use rayon::iter::{IndexedParallelIterator, ParallelIterator};
use rayon::slice::ParallelSliceMut;
use crate::triangle::Triangle;
use crate::vec3::Vec3;
use vstd::prelude::*;

verus! {

/// What `aim` answers.
pub open spec fn aim_outcome<R, A: Fn(usize, usize, Scalar, Scalar, u32) -> (R, u32)>(
    aim: A,
    x: usize,
    y: usize,
    jitter_x: Scalar,
    jitter_y: Scalar,
    state: u32,
) -> (R, u32) {
    choose|r: (R, u32)| call_ensures(aim, (x, y, jitter_x, jitter_y, state), r)
}

/// What `gather` answers.
pub open spec fn gather_outcome<G: Fn(Vec3, Vec3) -> Vec3>(gather: G, sum: Vec3, light: Vec3) -> Vec3 {
    choose|r: Vec3| call_ensures(gather, (sum, light), r)
}

/// The two functions answer every question, and the same question always
/// the same way.
pub open spec fn sampling_ok<
    R,
    A: Fn(usize, usize, Scalar, Scalar, u32) -> (R, u32),
    G: Fn(Vec3, Vec3) -> Vec3,
>(aim: A, gather: G) -> bool {
    &&& forall|x: usize, y: usize, jx: Scalar, jy: Scalar, state: u32|
        call_requires(aim, (x, y, jx, jy, state))
    &&& forall|x: usize, y: usize, jx: Scalar, jy: Scalar, state: u32, a: (R, u32), b: (R, u32)|
        call_ensures(aim, (x, y, jx, jy, state), a) && call_ensures(
            aim,
            (x, y, jx, jy, state),
            b,
        ) ==> a == b
    &&& forall|sum: Vec3, light: Vec3| call_requires(gather, (sum, light))
    &&& forall|sum: Vec3, light: Vec3, a: Vec3, b: Vec3|
        call_ensures(gather, (sum, light), a) && call_ensures(gather, (sum, light), b) ==> a == b
}

/// The light gathered from the first `samples` rays through a pixel, the
/// number of rays cast for them, and the state of the stream afterwards.
///
/// Each ray takes its two jitters from the next two states of the stream,
/// is aimed, and is traced with `depth` steps; its light is gathered into
/// the sum in the order of the rays, starting from black.
pub open spec fn sample_pixel_spec<
    R,
    A: Fn(usize, usize, Scalar, Scalar, u32) -> (R, u32),
    G: Fn(Vec3, Vec3) -> Vec3,
    B: Fn(Aabb, &R, Scalar, Scalar) -> bool,
    T: Fn(Triangle, &R, Scalar, Scalar) -> Option<Hit>,
    S: Fn(Hit, Vec3) -> R,
    L: Fn(Hit) -> R,
    D: Fn(&R, Hit) -> Vec3,
    K: Fn(&R) -> Vec3,
    M: Fn(Vec3, Vec3) -> Vec3,
>(
    x: usize,
    y: usize,
    samples: nat,
    depth: nat,
    rng: u32,
    scene: Scene,
    aim: A,
    gather: G,
    box_test: B,
    tri_test: T,
    bounce: S,
    shadow: L,
    direct: D,
    sky: K,
    blend: M,
) -> (Vec3, nat, u32)
    decreases samples,
{
    if samples == 0 {
        (Vec3::splat(Scalar { bits: 0 }), 0, rng)
    } else {
        let (sum, rays, state) = sample_pixel_spec(
            x,
            y,
            (samples - 1) as nat,
            depth,
            rng,
            scene,
            aim,
            gather,
            box_test,
            tri_test,
            bounce,
            shadow,
            direct,
            sky,
            blend,
        );
        let jitter_x = sample_of(state_after(state, 1));
        let jitter_y = sample_of(state_after(state, 2));
        let (ray, aimed) = aim_outcome(aim, x, y, jitter_x, jitter_y, state_after(state, 2));
        let (light, cast, left) = trace_spec(
            ray,
            depth,
            aimed,
            scene,
            box_test,
            tri_test,
            bounce,
            shadow,
            direct,
            sky,
            blend,
        );
        (gather_outcome(gather, sum, light), rays + cast, left)
    }
}

/// The rays cast for a pixel number at least one and at most
/// `2 * depth + 1` for each sample.
pub proof fn lemma_sample_pixel_counts<
    R,
    A: Fn(usize, usize, Scalar, Scalar, u32) -> (R, u32),
    G: Fn(Vec3, Vec3) -> Vec3,
    B: Fn(Aabb, &R, Scalar, Scalar) -> bool,
    T: Fn(Triangle, &R, Scalar, Scalar) -> Option<Hit>,
    S: Fn(Hit, Vec3) -> R,
    L: Fn(Hit) -> R,
    D: Fn(&R, Hit) -> Vec3,
    K: Fn(&R) -> Vec3,
    M: Fn(Vec3, Vec3) -> Vec3,
>(
    x: usize,
    y: usize,
    samples: nat,
    depth: nat,
    rng: u32,
    scene: Scene,
    aim: A,
    gather: G,
    box_test: B,
    tri_test: T,
    bounce: S,
    shadow: L,
    direct: D,
    sky: K,
    blend: M,
)
    ensures
        ({
            let r = sample_pixel_spec(
                x,
                y,
                samples,
                depth,
                rng,
                scene,
                aim,
                gather,
                box_test,
                tri_test,
                bounce,
                shadow,
                direct,
                sky,
                blend,
            );
            samples <= r.1 <= samples * (2 * depth + 1)
        }),
    decreases samples,
{
    if samples > 0 {
        lemma_sample_pixel_counts(
            x,
            y,
            (samples - 1) as nat,
            depth,
            rng,
            scene,
            aim,
            gather,
            box_test,
            tri_test,
            bounce,
            shadow,
            direct,
            sky,
            blend,
        );
        let (sum, rays, state) = sample_pixel_spec(
            x,
            y,
            (samples - 1) as nat,
            depth,
            rng,
            scene,
            aim,
            gather,
            box_test,
            tri_test,
            bounce,
            shadow,
            direct,
            sky,
            blend,
        );
        let jitter_x = sample_of(state_after(state, 1));
        let jitter_y = sample_of(state_after(state, 2));
        let (ray, aimed) = aim_outcome(aim, x, y, jitter_x, jitter_y, state_after(state, 2));
        lemma_trace_counts(
            ray,
            depth,
            aimed,
            scene,
            box_test,
            tri_test,
            bounce,
            shadow,
            direct,
            sky,
            blend,
        );
        assert(samples * (2 * depth + 1) == (samples - 1) * (2 * depth + 1) + (2 * depth + 1))
            by (nonlinear_arith);
    }
}

/// Casts `samples` rays through the pixel in column `x` and row `y` and
/// returns the sum of their light and the number of rays cast.
pub fn sample_pixel<
    R,
    A: Fn(usize, usize, Scalar, Scalar, u32) -> (R, u32),
    G: Fn(Vec3, Vec3) -> Vec3,
    B: Fn(Aabb, &R, Scalar, Scalar) -> bool,
    T: Fn(Triangle, &R, Scalar, Scalar) -> Option<Hit>,
    S: Fn(Hit, Vec3) -> R,
    L: Fn(Hit) -> R,
    D: Fn(&R, Hit) -> Vec3,
    K: Fn(&R) -> Vec3,
    M: Fn(Vec3, Vec3) -> Vec3,
>(
    x: usize,
    y: usize,
    samples: usize,
    depth: usize,
    rng_state: &mut u32,
    scene: &Scene,
    aim: &A,
    gather: &G,
    box_test: &B,
    tri_test: &T,
    bounce: &S,
    shadow: &L,
    direct: &D,
    sky: &K,
    blend: &M,
) -> (r: (Vec3, usize))
    requires
        scene.wf(),
        sampling_ok(*aim, *gather),
        box_test_ok(*box_test),
        triangle_test_ok(*tri_test),
        shading_ok(*bounce, *shadow, *direct, *sky, *blend),
        samples * (2 * depth + 1) <= usize::MAX,
    ensures
        (r.0, r.1 as nat, *final(rng_state)) == sample_pixel_spec(
            x,
            y,
            samples as nat,
            depth as nat,
            *old(rng_state),
            *scene,
            *aim,
            *gather,
            *box_test,
            *tri_test,
            *bounce,
            *shadow,
            *direct,
            *sky,
            *blend,
        ),
        samples <= r.1 <= samples * (2 * depth + 1),
{
    let ghost start = *rng_state;
    let mut color = Vec3::zero();
    let mut rays: usize = 0;
    let mut s: usize = 0;
    proof {
        assert(samples > 0 ==> 2 * depth + 1 <= usize::MAX) by (nonlinear_arith)
            requires
                samples * (2 * depth + 1) <= usize::MAX,
        ;
    }
    while s < samples
        invariant
            s <= samples,
            scene.wf(),
            sampling_ok(*aim, *gather),
            box_test_ok(*box_test),
            triangle_test_ok(*tri_test),
            shading_ok(*bounce, *shadow, *direct, *sky, *blend),
            samples * (2 * depth + 1) <= usize::MAX,
            samples > 0 ==> 2 * depth + 1 <= usize::MAX,
            (color, rays as nat, *rng_state) == sample_pixel_spec(
                x,
                y,
                s as nat,
                depth as nat,
                start,
                *scene,
                *aim,
                *gather,
                *box_test,
                *tri_test,
                *bounce,
                *shadow,
                *direct,
                *sky,
                *blend,
            ),
        decreases samples - s,
    {
        proof {
            lemma_sample_pixel_counts(
                x,
                y,
                s as nat,
                depth as nat,
                start,
                *scene,
                *aim,
                *gather,
                *box_test,
                *tri_test,
                *bounce,
                *shadow,
                *direct,
                *sky,
                *blend,
            );
            lemma_sample_pixel_counts(
                x,
                y,
                (s + 1) as nat,
                depth as nat,
                start,
                *scene,
                *aim,
                *gather,
                *box_test,
                *tri_test,
                *bounce,
                *shadow,
                *direct,
                *sky,
                *blend,
            );
            assert((s + 1) * (2 * depth + 1) <= samples * (2 * depth + 1)) by (nonlinear_arith)
                requires
                    s + 1 <= samples,
            ;
            reveal_with_fuel(state_after, 3);
        }
        let jitter_x = random_float01(rng_state);
        let jitter_y = random_float01(rng_state);
        let (ray, aimed) = aim(x, y, jitter_x, jitter_y, *rng_state);
        *rng_state = aimed;
        let (ray_color, ray_count) = trace(
            &ray,
            depth,
            rng_state,
            scene,
            box_test,
            tri_test,
            bounce,
            shadow,
            direct,
            sky,
            blend,
        );
        color = gather(color, ray_color);
        rays = rays + ray_count;
        s += 1;
    }
    proof {
        lemma_sample_pixel_counts(
            x,
            y,
            samples as nat,
            depth as nat,
            start,
            *scene,
            *aim,
            *gather,
            *box_test,
            *tri_test,
            *bounce,
            *shadow,
            *direct,
            *sky,
            *blend,
        );
    }
    (color, rays)
}

/// What was gathered for one pixel: the sum of the light of its rays, and
/// the number of rays cast for it.
#[derive(Clone, Copy, Debug)]
pub struct Sample {
    pub color: Vec3,
    pub rays: usize,
}

/// The picture's measures and the work per pixel.
#[derive(Clone, Copy, Debug)]
pub struct Frame {
    /// The side of a block, in pixels.
    pub block_length: usize,
    /// The number of columns.
    pub width: usize,
    /// The number of rows.
    pub height: usize,
    /// The number of rays through each pixel.
    pub samples: usize,
    /// The number of steps that each ray may take.
    pub depth: usize,
}

impl Frame {
    /// The number of blocks in a row of blocks.
    pub open spec fn blocks_across(&self) -> int {
        self.width as int / self.block_length as int
    }

    /// The number of blocks of the picture.
    pub open spec fn blocks(&self) -> int {
        self.blocks_across() * (self.height as int / self.block_length as int)
    }

    /// The number of pixels of a block.
    pub open spec fn block_size(&self) -> int {
        self.block_length * self.block_length
    }

    /// The position in the picture, counted row by row, of place `k` in the
    /// order of the blocks.
    pub open spec fn place(&self, k: int) -> int {
        pixel_index_spec(
            k / self.block_size(),
            k % self.block_size(),
            self.block_length as int,
            self.width as int,
        )
    }

    /// The picture is cut into whole blocks, every block has a seed, and the
    /// rays of the whole picture can be counted.
    pub open spec fn wf(&self) -> bool {
        &&& tiles(self.block_length as int, self.width as int, self.height as int)
        &&& self.blocks() * SEED_STRIDE + 1 <= u32::MAX
        &&& self.width * self.height * (self.samples * (2 * self.depth + 1)) <= usize::MAX
    }

    /// Whether the frame is well-formed.
    pub fn is_well_formed(&self) -> (r: bool)
        ensures
            r == self.wf(),
    {
        if self.block_length == 0 || self.width == 0 || self.height == 0 {
            return false;
        }
        if self.width % self.block_length != 0 || self.height % self.block_length != 0 {
            return false;
        }
        let pixels = match self.width.checked_mul(self.height) {
            Some(p) => p,
            None => {
                return false;
            },
        };
        proof {
            Frame::lemma_blocks_fit(*self);
        }
        let blocks = (self.width / self.block_length) * (self.height / self.block_length);
        if blocks > (u32::MAX as usize - 1) / (SEED_STRIDE as usize) {
            return false;
        }
        proof {
            Frame::lemma_work_grows(*self);
        }
        let per_ray = match self.depth.checked_mul(2) {
            Some(d) => match d.checked_add(1) {
                Some(e) => e,
                None => {
                    return self.samples == 0;
                },
            },
            None => {
                return self.samples == 0;
            },
        };
        let per_pixel = match self.samples.checked_mul(per_ray) {
            Some(p) => p,
            None => {
                return false;
            },
        };
        match pixels.checked_mul(per_pixel) {
            Some(_) => true,
            None => false,
        }
    }

    /// A block of a picture that is cut into whole blocks has no more pixels
    /// than the picture.
    pub proof fn lemma_block_fits(frame: Frame)
        requires
            tiles(frame.block_length as int, frame.width as int, frame.height as int),
        ensures
            0 < frame.block_size() <= frame.width * frame.height,
    {
        let bl = frame.block_length as int;
        let w = frame.width as int;
        let h = frame.height as int;
        assert(bl <= w && bl <= h) by (nonlinear_arith)
            requires
                bl > 0,
                w > 0,
                h > 0,
                w % bl == 0,
                h % bl == 0,
        ;
        assert(0 < bl * bl <= w * h) by (nonlinear_arith)
            requires
                0 < bl <= w,
                bl <= h,
        ;
    }

    /// The work of a picture is no less than the work per pixel, which is no
    /// less than the work per ray unless there are no rays.
    pub proof fn lemma_work_grows(frame: Frame)
        requires
            frame.width > 0,
            frame.height > 0,
        ensures
            frame.samples == 0 ==> frame.width * frame.height * (frame.samples * (2 * frame.depth
                + 1)) == 0,
            frame.samples > 0 ==> frame.samples * (2 * frame.depth + 1) >= 2 * frame.depth + 1,
            frame.width * frame.height * (frame.samples * (2 * frame.depth + 1)) >= frame.samples
                * (2 * frame.depth + 1),
    {
        let w = frame.width as int;
        let h = frame.height as int;
        let n = frame.samples as int;
        let d = 2 * frame.depth + 1;
        assert(n == 0 ==> w * h * (n * d) == 0) by (nonlinear_arith);
        assert(n > 0 ==> n * d >= d) by (nonlinear_arith)
            requires
                d >= 1,
        ;
        assert(w * h * (n * d) >= n * d) by (nonlinear_arith)
            requires
                w >= 1,
                h >= 1,
                n >= 0,
                d >= 1,
        ;
    }

    /// The blocks of a picture are no more than its pixels.
    pub proof fn lemma_blocks_fit(frame: Frame)
        requires
            frame.block_length > 0,
            frame.width > 0,
            frame.height > 0,
        ensures
            0 <= frame.blocks() <= frame.width * frame.height,
            0 <= frame.blocks_across() <= frame.width,
            0 <= frame.height as int / frame.block_length as int <= frame.height,
    {
        let bl = frame.block_length as int;
        let w = frame.width as int;
        let h = frame.height as int;
        assert(0 <= w / bl <= w && 0 <= h / bl <= h) by (nonlinear_arith)
            requires
                bl > 0,
                w > 0,
                h > 0,
        ;
        assert(0 <= (w / bl) * (h / bl) <= w * h) by (nonlinear_arith)
            requires
                0 <= w / bl <= w,
                0 <= h / bl <= h,
        ;
    }
}

/// The samples of the first `pixels` pixels of a block, in the order of the
/// block, and the state of the block's stream after them.  The stream
/// starts at the block's seed and runs on from pixel to pixel.
pub open spec fn render_block_spec<
    R,
    A: Fn(usize, usize, Scalar, Scalar, u32) -> (R, u32),
    G: Fn(Vec3, Vec3) -> Vec3,
    B: Fn(Aabb, &R, Scalar, Scalar) -> bool,
    T: Fn(Triangle, &R, Scalar, Scalar) -> Option<Hit>,
    S: Fn(Hit, Vec3) -> R,
    L: Fn(Hit) -> R,
    D: Fn(&R, Hit) -> Vec3,
    K: Fn(&R) -> Vec3,
    M: Fn(Vec3, Vec3) -> Vec3,
>(
    frame: Frame,
    block_idx: usize,
    pixels: nat,
    scene: Scene,
    aim: A,
    gather: G,
    box_test: B,
    tri_test: T,
    bounce: S,
    shadow: L,
    direct: D,
    sky: K,
    blend: M,
) -> (Seq<Sample>, u32)
    decreases pixels,
{
    if pixels == 0 {
        (Seq::empty(), block_seed_spec(block_idx))
    } else {
        let (done, state) = render_block_spec(
            frame,
            block_idx,
            (pixels - 1) as nat,
            scene,
            aim,
            gather,
            box_test,
            tri_test,
            bounce,
            shadow,
            direct,
            sky,
            blend,
        );
        let n = pixel_index_spec(
            block_idx as int,
            pixels - 1,
            frame.block_length as int,
            frame.width as int,
        );
        let (sum, rays, next) = sample_pixel_spec(
            (n % frame.width as int) as usize,
            (n / frame.width as int) as usize,
            frame.samples as nat,
            frame.depth as nat,
            state,
            scene,
            aim,
            gather,
            box_test,
            tri_test,
            bounce,
            shadow,
            direct,
            sky,
            blend,
        );
        (done.push(Sample { color: sum, rays: rays as usize }), next)
    }
}

/// Every pixel of a block has a sample, and no sample counts more rays than
/// the frame allows a pixel.
pub proof fn lemma_render_block_counts<
    R,
    A: Fn(usize, usize, Scalar, Scalar, u32) -> (R, u32),
    G: Fn(Vec3, Vec3) -> Vec3,
    B: Fn(Aabb, &R, Scalar, Scalar) -> bool,
    T: Fn(Triangle, &R, Scalar, Scalar) -> Option<Hit>,
    S: Fn(Hit, Vec3) -> R,
    L: Fn(Hit) -> R,
    D: Fn(&R, Hit) -> Vec3,
    K: Fn(&R) -> Vec3,
    M: Fn(Vec3, Vec3) -> Vec3,
>(
    frame: Frame,
    block_idx: usize,
    pixels: nat,
    scene: Scene,
    aim: A,
    gather: G,
    box_test: B,
    tri_test: T,
    bounce: S,
    shadow: L,
    direct: D,
    sky: K,
    blend: M,
)
    requires
        frame.samples * (2 * frame.depth + 1) <= usize::MAX,
    ensures
        ({
            let r = render_block_spec(
                frame,
                block_idx,
                pixels,
                scene,
                aim,
                gather,
                box_test,
                tri_test,
                bounce,
                shadow,
                direct,
                sky,
                blend,
            );
            &&& r.0.len() == pixels
            &&& forall|i: int|
                0 <= i < pixels ==> frame.samples <= (#[trigger] r.0[i]).rays <= frame.samples * (2
                    * frame.depth + 1)
        }),
    decreases pixels,
{
    if pixels > 0 {
        lemma_render_block_counts(
            frame,
            block_idx,
            (pixels - 1) as nat,
            scene,
            aim,
            gather,
            box_test,
            tri_test,
            bounce,
            shadow,
            direct,
            sky,
            blend,
        );
        let (done, state) = render_block_spec(
            frame,
            block_idx,
            (pixels - 1) as nat,
            scene,
            aim,
            gather,
            box_test,
            tri_test,
            bounce,
            shadow,
            direct,
            sky,
            blend,
        );
        let n = pixel_index_spec(
            block_idx as int,
            pixels - 1,
            frame.block_length as int,
            frame.width as int,
        );
        lemma_sample_pixel_counts(
            (n % frame.width as int) as usize,
            (n / frame.width as int) as usize,
            frame.samples as nat,
            frame.depth as nat,
            state,
            scene,
            aim,
            gather,
            box_test,
            tri_test,
            bounce,
            shadow,
            direct,
            sky,
            blend,
        );
    }
}

/// Samples every pixel of block `block_idx` into `block`, in the order of
/// the block, with one stream for the whole block.
pub fn fill_block<
    R,
    A: Fn(usize, usize, Scalar, Scalar, u32) -> (R, u32),
    G: Fn(Vec3, Vec3) -> Vec3,
    B: Fn(Aabb, &R, Scalar, Scalar) -> bool,
    T: Fn(Triangle, &R, Scalar, Scalar) -> Option<Hit>,
    S: Fn(Hit, Vec3) -> R,
    L: Fn(Hit) -> R,
    D: Fn(&R, Hit) -> Vec3,
    K: Fn(&R) -> Vec3,
    M: Fn(Vec3, Vec3) -> Vec3,
>(
    block: &mut [Sample],
    frame: &Frame,
    block_idx: usize,
    scene: &Scene,
    aim: &A,
    gather: &G,
    box_test: &B,
    tri_test: &T,
    bounce: &S,
    shadow: &L,
    direct: &D,
    sky: &K,
    blend: &M,
)
    requires
        old(block)@.len() == frame.block_size(),
        frame.wf(),
        block_idx < frame.blocks(),
        scene.wf(),
        sampling_ok(*aim, *gather),
        box_test_ok(*box_test),
        triangle_test_ok(*tri_test),
        shading_ok(*bounce, *shadow, *direct, *sky, *blend),
    ensures
        final(block)@ == render_block_spec(
            *frame,
            block_idx,
            frame.block_size() as nat,
            *scene,
            *aim,
            *gather,
            *box_test,
            *tri_test,
            *bounce,
            *shadow,
            *direct,
            *sky,
            *blend,
        ).0,
{
    proof {
        Frame::lemma_blocks_fit(*frame);
        Frame::lemma_work_grows(*frame);
        Frame::lemma_block_fits(*frame);
        assert(block_idx * SEED_STRIDE + 1 <= u32::MAX) by (nonlinear_arith)
            requires
                block_idx < frame.blocks(),
                frame.blocks() * SEED_STRIDE + 1 <= u32::MAX,
        ;
    }
    let size = frame.block_length * frame.block_length;
    let mut rng_state = block_seed(block_idx);
    let mut idx: usize = 0;
    while idx < size
        invariant
            idx <= size,
            block@.len() == size,
            size == frame.block_size(),
            frame.wf(),
            block_idx < frame.blocks(),
            frame.samples * (2 * frame.depth + 1) <= usize::MAX,
            scene.wf(),
            sampling_ok(*aim, *gather),
            box_test_ok(*box_test),
            triangle_test_ok(*tri_test),
            shading_ok(*bounce, *shadow, *direct, *sky, *blend),
            (block@.take(idx as int), rng_state) == render_block_spec(
                *frame,
                block_idx,
                idx as nat,
                *scene,
                *aim,
                *gather,
                *box_test,
                *tri_test,
                *bounce,
                *shadow,
                *direct,
                *sky,
                *blend,
            ),
        decreases size - idx,
    {
        let n = pixel_index(block_idx, idx, frame.block_length, frame.width, frame.height);
        let y = n / frame.width;
        let x = n % frame.width;
        let (sum, rays) = sample_pixel(
            x,
            y,
            frame.samples,
            frame.depth,
            &mut rng_state,
            scene,
            aim,
            gather,
            box_test,
            tri_test,
            bounce,
            shadow,
            direct,
            sky,
            blend,
        );
        let ghost before = block@;
        block[idx] = Sample { color: sum, rays };
        proof {
            assert(block@.take(idx + 1) =~= before.take(idx as int).push(block@[idx as int]));
        }
        idx += 1;
    }
    proof {
        assert(block@.take(size as int) =~= block@);
    }
}

/// The sample at place `k` of the picture in the order of its blocks: the
/// sample of pixel `k % block_size` of block `k / block_size`.
pub open spec fn sample_at<
    R,
    A: Fn(usize, usize, Scalar, Scalar, u32) -> (R, u32),
    G: Fn(Vec3, Vec3) -> Vec3,
    B: Fn(Aabb, &R, Scalar, Scalar) -> bool,
    T: Fn(Triangle, &R, Scalar, Scalar) -> Option<Hit>,
    S: Fn(Hit, Vec3) -> R,
    L: Fn(Hit) -> R,
    D: Fn(&R, Hit) -> Vec3,
    K: Fn(&R) -> Vec3,
    M: Fn(Vec3, Vec3) -> Vec3,
>(
    k: int,
    frame: Frame,
    scene: Scene,
    aim: A,
    gather: G,
    box_test: B,
    tri_test: T,
    bounce: S,
    shadow: L,
    direct: D,
    sky: K,
    blend: M,
) -> Sample {
    render_block_spec(
        frame,
        (k / frame.block_size()) as usize,
        frame.block_size() as nat,
        scene,
        aim,
        gather,
        box_test,
        tri_test,
        bounce,
        shadow,
        direct,
        sky,
        blend,
    ).0[k % frame.block_size()]
}

/// The rays cast for the first `count` places of the picture in the order
/// of its blocks.
pub open spec fn rays_up_to<
    R,
    A: Fn(usize, usize, Scalar, Scalar, u32) -> (R, u32),
    G: Fn(Vec3, Vec3) -> Vec3,
    B: Fn(Aabb, &R, Scalar, Scalar) -> bool,
    T: Fn(Triangle, &R, Scalar, Scalar) -> Option<Hit>,
    S: Fn(Hit, Vec3) -> R,
    L: Fn(Hit) -> R,
    D: Fn(&R, Hit) -> Vec3,
    K: Fn(&R) -> Vec3,
    M: Fn(Vec3, Vec3) -> Vec3,
>(
    count: int,
    frame: Frame,
    scene: Scene,
    aim: A,
    gather: G,
    box_test: B,
    tri_test: T,
    bounce: S,
    shadow: L,
    direct: D,
    sky: K,
    blend: M,
) -> int
    decreases count,
{
    if count <= 0 {
        0
    } else {
        rays_up_to(
            count - 1,
            frame,
            scene,
            aim,
            gather,
            box_test,
            tri_test,
            bounce,
            shadow,
            direct,
            sky,
            blend,
        ) + sample_at(
            count - 1,
            frame,
            scene,
            aim,
            gather,
            box_test,
            tri_test,
            bounce,
            shadow,
            direct,
            sky,
            blend,
        ).rays
    }
}

/// Place `k` of `data` holds the sample that belongs there.
pub open spec fn holds_sample<
    R,
    A: Fn(usize, usize, Scalar, Scalar, u32) -> (R, u32),
    G: Fn(Vec3, Vec3) -> Vec3,
    B: Fn(Aabb, &R, Scalar, Scalar) -> bool,
    T: Fn(Triangle, &R, Scalar, Scalar) -> Option<Hit>,
    S: Fn(Hit, Vec3) -> R,
    L: Fn(Hit) -> R,
    D: Fn(&R, Hit) -> Vec3,
    K: Fn(&R) -> Vec3,
    M: Fn(Vec3, Vec3) -> Vec3,
>(
    data: Seq<Sample>,
    k: int,
    frame: Frame,
    scene: Scene,
    aim: A,
    gather: G,
    box_test: B,
    tri_test: T,
    bounce: S,
    shadow: L,
    direct: D,
    sky: K,
    blend: M,
) -> bool {
    data[k] == sample_at(
        k,
        frame,
        scene,
        aim,
        gather,
        box_test,
        tri_test,
        bounce,
        shadow,
        direct,
        sky,
        blend,
    )
}

/// Renders every block of the picture into `data`, block after block, and
/// hands the blocks out to the threads of rayon's pool: `par_chunks_mut`
/// cuts `data` into runs of `block_size` samples, `enumerate` numbers the
/// runs from zero, and `for_each` has [`fill_block`] fill each run as the
/// block of its number.  Every place of `data` then holds the sample that
/// belongs there, whichever thread filled which block.
#[verifier::external_body]
fn render_blocks<
    R,
    A: Fn(usize, usize, Scalar, Scalar, u32) -> (R, u32) + Sync,
    G: Fn(Vec3, Vec3) -> Vec3 + Sync,
    B: Fn(Aabb, &R, Scalar, Scalar) -> bool + Sync,
    T: Fn(Triangle, &R, Scalar, Scalar) -> Option<Hit> + Sync,
    S: Fn(Hit, Vec3) -> R + Sync,
    L: Fn(Hit) -> R + Sync,
    D: Fn(&R, Hit) -> Vec3 + Sync,
    K: Fn(&R) -> Vec3 + Sync,
    M: Fn(Vec3, Vec3) -> Vec3 + Sync,
>(
    data: &mut Vec<Sample>,
    block_size: usize,
    frame: &Frame,
    scene: &Scene,
    aim: &A,
    gather: &G,
    box_test: &B,
    tri_test: &T,
    bounce: &S,
    shadow: &L,
    direct: &D,
    sky: &K,
    blend: &M,
)
    requires
        frame.wf(),
        scene.wf(),
        sampling_ok(*aim, *gather),
        box_test_ok(*box_test),
        triangle_test_ok(*tri_test),
        shading_ok(*bounce, *shadow, *direct, *sky, *blend),
        block_size == frame.block_size(),
        old(data)@.len() == frame.width * frame.height,
    ensures
        final(data)@.len() == old(data)@.len(),
        forall|k: int|
            0 <= k < old(data)@.len() ==> #[trigger] holds_sample(
                final(data)@,
                k,
                *frame,
                *scene,
                *aim,
                *gather,
                *box_test,
                *tri_test,
                *bounce,
                *shadow,
                *direct,
                *sky,
                *blend,
            ),
{
    data.par_chunks_mut(block_size).enumerate().for_each(
        |(block_idx, block)| {
            fill_block(
                block, frame, block_idx, scene, aim, gather, box_test, tri_test, bounce, shadow,
                direct, sky, blend,
            )
        },
    );
}

/// Renders the picture.  Returns the sample of every pixel, row by row, and
/// the number of rays cast for the whole picture.
pub fn render<
    R,
    A: Fn(usize, usize, Scalar, Scalar, u32) -> (R, u32) + Sync,
    G: Fn(Vec3, Vec3) -> Vec3 + Sync,
    B: Fn(Aabb, &R, Scalar, Scalar) -> bool + Sync,
    T: Fn(Triangle, &R, Scalar, Scalar) -> Option<Hit> + Sync,
    S: Fn(Hit, Vec3) -> R + Sync,
    L: Fn(Hit) -> R + Sync,
    D: Fn(&R, Hit) -> Vec3 + Sync,
    K: Fn(&R) -> Vec3 + Sync,
    M: Fn(Vec3, Vec3) -> Vec3 + Sync,
>(
    frame: &Frame,
    scene: &Scene,
    aim: &A,
    gather: &G,
    box_test: &B,
    tri_test: &T,
    bounce: &S,
    shadow: &L,
    direct: &D,
    sky: &K,
    blend: &M,
) -> (r: (Vec<Sample>, usize))
    requires
        frame.wf(),
        scene.wf(),
        sampling_ok(*aim, *gather),
        box_test_ok(*box_test),
        triangle_test_ok(*tri_test),
        shading_ok(*bounce, *shadow, *direct, *sky, *blend),
    ensures
        r.0@.len() == frame.width * frame.height,
        forall|k: int|
            0 <= k < frame.width * frame.height ==> r.0@[frame.place(k)] == #[trigger] sample_at(
                k,
                *frame,
                *scene,
                *aim,
                *gather,
                *box_test,
                *tri_test,
                *bounce,
                *shadow,
                *direct,
                *sky,
                *blend,
            ),
        r.1 == rays_up_to(
            frame.width * frame.height,
            *frame,
            *scene,
            *aim,
            *gather,
            *box_test,
            *tri_test,
            *bounce,
            *shadow,
            *direct,
            *sky,
            *blend,
        ),
{
    proof {
        Frame::lemma_blocks_fit(*frame);
        Frame::lemma_work_grows(*frame);
        Frame::lemma_block_fits(*frame);
    }
    let pixels = frame.width * frame.height;
    let size = frame.block_length * frame.block_length;
    let blank = Sample { color: Vec3::zero(), rays: 0 };
    let mut data: Vec<Sample> = Vec::with_capacity(pixels);
    let mut image: Vec<Sample> = Vec::with_capacity(pixels);
    let mut fill: usize = 0;
    while fill < pixels
        invariant
            fill <= pixels,
            data@.len() == fill,
            image@.len() == fill,
        decreases pixels - fill,
    {
        data.push(blank);
        image.push(blank);
        fill += 1;
    }
    render_blocks(
        &mut data,
        size,
        frame,
        scene,
        aim,
        gather,
        box_test,
        tri_test,
        bounce,
        shadow,
        direct,
        sky,
        blend,
    );
    let ghost per_pixel = frame.samples * (2 * frame.depth + 1);
    let mut total: usize = 0;
    let mut k: usize = 0;
    while k < pixels
        invariant
            k <= pixels,
            pixels == frame.width * frame.height,
            size == frame.block_size(),
            0 < size <= pixels,
            frame.wf(),
            per_pixel == frame.samples * (2 * frame.depth + 1),
            pixels * per_pixel <= usize::MAX,
            data@.len() == pixels,
            image@.len() == pixels,
            forall|j: int|
                0 <= j < pixels ==> #[trigger] holds_sample(
                    data@,
                    j,
                    *frame,
                    *scene,
                    *aim,
                    *gather,
                    *box_test,
                    *tri_test,
                    *bounce,
                    *shadow,
                    *direct,
                    *sky,
                    *blend,
                ),
            forall|j: int|
                0 <= j < k ==> image@[frame.place(j)] == #[trigger] data@[j],
            total == rays_up_to(
                k as int,
                *frame,
                *scene,
                *aim,
                *gather,
                *box_test,
                *tri_test,
                *bounce,
                *shadow,
                *direct,
                *sky,
                *blend,
            ),
            total <= k * per_pixel,
        decreases pixels - k,
    {
        let block_idx = k / size;
        let idx = k % size;
        proof {
            Frame::lemma_work_grows(*frame);
            lemma_place_in_block(*frame, k as int);
            assert(holds_sample(
                data@,
                k as int,
                *frame,
                *scene,
                *aim,
                *gather,
                *box_test,
                *tri_test,
                *bounce,
                *shadow,
                *direct,
                *sky,
                *blend,
            ));
            lemma_render_block_counts(
                *frame,
                block_idx,
                size as nat,
                *scene,
                *aim,
                *gather,
                *box_test,
                *tri_test,
                *bounce,
                *shadow,
                *direct,
                *sky,
                *blend,
            );
            assert((k + 1) * per_pixel == k * per_pixel + per_pixel) by (nonlinear_arith);
            assert((k + 1) * per_pixel <= pixels * per_pixel) by (nonlinear_arith)
                requires
                    k + 1 <= pixels,
                    per_pixel >= 0,
            ;
        }
        let n = pixel_index(block_idx, idx, frame.block_length, frame.width, frame.height);
        let sample = data[k];
        proof {
            assert forall|j: int| 0 <= j < k implies 0 <= #[trigger] frame.place(j) < pixels
                && frame.place(j) != n by {
                lemma_place_in_block(*frame, j);
                lemma_pixel_position(
                    j / (size as int),
                    j % (size as int),
                    frame.block_length as int,
                    frame.width as int,
                    frame.height as int,
                );
                if frame.place(j) == n {
                    lemma_pixels_distinct(
                        j / (size as int),
                        j % (size as int),
                        block_idx as int,
                        idx as int,
                        frame.block_length as int,
                        frame.width as int,
                        frame.height as int,
                    );
                    assert(j == (j / (size as int)) * size + j % (size as int)) by (nonlinear_arith)
                        requires
                            size > 0,
                    ;
                    assert(k == (k / size) * size + k % size) by (nonlinear_arith)
                        requires
                            size > 0,
                    ;
                }
            }
        }
        image.set(n, sample);
        total = total + sample.rays;
        k += 1;
    }
    proof {
        assert forall|j: int| 0 <= j < pixels implies image@[frame.place(j)] == #[trigger] sample_at(
            j,
            *frame,
            *scene,
            *aim,
            *gather,
            *box_test,
            *tri_test,
            *bounce,
            *shadow,
            *direct,
            *sky,
            *blend,
        ) by {
            assert(holds_sample(
                data@,
                j,
                *frame,
                *scene,
                *aim,
                *gather,
                *box_test,
                *tri_test,
                *bounce,
                *shadow,
                *direct,
                *sky,
                *blend,
            ));
            assert(image@[frame.place(j)] == data@[j]);
        }
    }
    (image, total)
}

/// Every pixel of the picture is the position of one place in the order of
/// the blocks, so that [`render`] lays down the sample of every pixel.  The
/// result is that place.
pub proof fn lemma_pixel_has_place(frame: Frame, n: int) -> (k: int)
    requires
        tiles(frame.block_length as int, frame.width as int, frame.height as int),
        0 <= n < frame.width * frame.height,
    ensures
        0 <= k < frame.width * frame.height,
        frame.place(k) == n,
{
    let (block, idx) = lemma_pixel_has_block(
        n,
        frame.block_length as int,
        frame.width as int,
        frame.height as int,
    );
    let size = frame.block_size();
    let k = block * size + idx;
    assert(k / size == block && k % size == idx) by (nonlinear_arith)
        requires
            size > 0,
            0 <= idx < size,
            0 <= block,
            k == block * size + idx,
    ;
    lemma_place_in_block(frame, 0);
    assert(0 <= k < frame.blocks() * size) by (nonlinear_arith)
        requires
            0 <= block < frame.blocks(),
            0 <= idx < size,
            k == block * size + idx,
    ;
    k
}

/// A place of the picture in the order of its blocks lies in one of the
/// picture's blocks, at one of the block's pixels.
pub proof fn lemma_place_in_block(frame: Frame, k: int)
    requires
        tiles(frame.block_length as int, frame.width as int, frame.height as int),
        0 <= k < frame.width * frame.height,
    ensures
        0 <= k / frame.block_size() < frame.blocks(),
        0 <= k % frame.block_size() < frame.block_size(),
        frame.blocks() * frame.block_size() == frame.width * frame.height,
{
    let bl = frame.block_length as int;
    let w = frame.width as int;
    let h = frame.height as int;
    let bs = bl * bl;
    assert(w == (w / bl) * bl && h == (h / bl) * bl) by (nonlinear_arith)
        requires
            bl > 0,
            w % bl == 0,
            h % bl == 0,
    ;
    assert(((w / bl) * (h / bl)) * (bl * bl) == ((w / bl) * bl) * ((h / bl) * bl))
        by (nonlinear_arith);
    assert(bs > 0) by (nonlinear_arith)
        requires
            bl > 0,
            bs == bl * bl,
    ;
    assert(0 <= k / bs < (w / bl) * (h / bl) && 0 <= k % bs < bs) by (nonlinear_arith)
        requires
            bs > 0,
            0 <= k < ((w / bl) * (h / bl)) * bs,
    ;
}

/// What `tone` answers.
pub open spec fn tone_outcome<C: Fn(Vec3) -> Vec3>(tone: C, color: Vec3) -> Vec3 {
    choose|r: Vec3| call_ensures(tone, (color,), r)
}

/// What `quantize` answers.
pub open spec fn quantize_outcome<Q: Fn(Scalar) -> u8>(quantize: Q, level: Scalar) -> u8 {
    choose|r: u8| call_ensures(quantize, (level,), r)
}

/// The two functions answer every question, and the same question always
/// the same way.
pub open spec fn developing_ok<C: Fn(Vec3) -> Vec3, Q: Fn(Scalar) -> u8>(
    tone: C,
    quantize: Q,
) -> bool {
    &&& forall|color: Vec3| call_requires(tone, (color,))
    &&& forall|color: Vec3, a: Vec3, b: Vec3|
        call_ensures(tone, (color,), a) && call_ensures(tone, (color,), b) ==> a == b
    &&& forall|level: Scalar| call_requires(quantize, (level,))
    &&& forall|level: Scalar, a: u8, b: u8|
        call_ensures(quantize, (level,), a) && call_ensures(quantize, (level,), b) ==> a == b
}

/// A colour with every component brought into the range from zero to one:
/// what is below zero becomes zero, what is above one becomes one.
pub open spec fn saturate_spec(color: Vec3) -> Vec3 {
    Vec3::splat(Scalar { bits: 0 }).max_spec(Vec3::splat(Scalar { bits: ONE_BITS }).min_spec(color))
}

/// A colour with every component brought into the range from zero to one.
pub fn saturate(color: &Vec3) -> (r: Vec3)
    ensures
        r == saturate_spec(*color),
        !color.has_nan_spec() ==> forall|i: int| 0 <= #[trigger] r.at(i).key() <= ONE_BITS,
{
    let color_0 = Vec3::fill(Scalar::zero());
    let color_1 = Vec3::fill(Scalar::one());
    Vec3::max(&color_0, &Vec3::min(&color_1, color))
}

/// The byte of component `i` of pixel `n`: the pixel's light toned,
/// saturated and quantized.
pub open spec fn byte_of<C: Fn(Vec3) -> Vec3, Q: Fn(Scalar) -> u8>(
    image: Seq<Sample>,
    n: int,
    i: int,
    tone: C,
    quantize: Q,
) -> u8 {
    quantize_outcome(quantize, saturate_spec(tone_outcome(tone, image[n].color)).at(i))
}

/// Turns the samples of a picture into the bytes of an image, three for
/// every pixel.  `tone` turns the light gathered for a pixel into a colour;
/// the colour is saturated; `quantize` turns each of its components into a
/// byte.
pub fn develop<C: Fn(Vec3) -> Vec3, Q: Fn(Scalar) -> u8>(
    image: &Vec<Sample>,
    tone: &C,
    quantize: &Q,
) -> (r: Vec<u8>)
    requires
        developing_ok(*tone, *quantize),
        3 * image@.len() <= usize::MAX,
    ensures
        r@.len() == 3 * image@.len(),
        forall|n: int, i: int|
            0 <= n < image@.len() && 0 <= i < 3 ==> r@[3 * n + i] == #[trigger] byte_of(
                image@,
                n,
                i,
                *tone,
                *quantize,
            ),
{
    let len = image.len();
    let mut out: Vec<u8> = Vec::with_capacity(3 * len);
    let mut n: usize = 0;
    while n < len
        invariant
            n <= len,
            len == image@.len(),
            3 * len <= usize::MAX,
            developing_ok(*tone, *quantize),
            out@.len() == 3 * n,
            forall|m: int, i: int|
                0 <= m < n && 0 <= i < 3 ==> out@[3 * m + i] == #[trigger] byte_of(
                    image@,
                    m,
                    i,
                    *tone,
                    *quantize,
                ),
        decreases len - n,
    {
        let color = saturate(&tone(image[n].color));
        let ghost before = out@;
        let mut i: usize = 0;
        while i < 3
            invariant
                i <= 3,
                n < len,
                len == image@.len(),
                developing_ok(*tone, *quantize),
                color == saturate_spec(tone_outcome(*tone, image@[n as int].color)),
                out@.len() == 3 * n + i,
                forall|k: int| 0 <= k < 3 * n ==> out@[k] == before[k],
                forall|j: int|
                    0 <= j < i ==> out@[3 * n + j] == #[trigger] byte_of(
                        image@,
                        n as int,
                        j,
                        *tone,
                        *quantize,
                    ),
            decreases 3 - i,
        {
            out.push(quantize(color.get(i)));
            i += 1;
        }
        n += 1;
    }
    out
}

} // verus!

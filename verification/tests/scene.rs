use raytracer::aabb::Aabb;
use raytracer::hit::{Hit, HitType};
use raytracer::random::xor_shift_32;
use raytracer::render::{develop, fill_block, render, sample_pixel, saturate, Frame, Sample};
use raytracer::scalar::Scalar;
use raytracer::scene::{
    compute_scene_boundary, hit_scene, scatter, trace, Scene, RAY_MAX_BITS, RAY_MIN_BITS,
};
use raytracer::triangle::Triangle;
use raytracer::vec3::Vec3;

fn s(x: f32) -> Scalar {
    Scalar::from_bits(x.to_bits())
}

fn f(x: Scalar) -> f32 {
    f32::from_bits(x.to_bits())
}

fn v(p: [f32; 3]) -> Vec3 {
    Vec3::new(s(p[0]), s(p[1]), s(p[2]))
}

fn a(p: Vec3) -> [f32; 3] {
    [f(p.x()), f(p.y()), f(p.z())]
}

fn sub(p: [f32; 3], q: [f32; 3]) -> [f32; 3] {
    [p[0] - q[0], p[1] - q[1], p[2] - q[2]]
}

fn dot(p: [f32; 3], q: [f32; 3]) -> f32 {
    p[0] * q[0] + p[1] * q[1] + p[2] * q[2]
}

fn cross(p: [f32; 3], q: [f32; 3]) -> [f32; 3] {
    [
        p[1] * q[2] - p[2] * q[1],
        -(p[0] * q[2] - p[2] * q[0]),
        p[0] * q[1] - p[1] * q[0],
    ]
}

fn normalize(p: [f32; 3]) -> [f32; 3] {
    let k = 1.0 / dot(p, p).sqrt();
    [p[0] * k, p[1] * k, p[2] * k]
}

#[derive(Clone, Copy)]
struct Ray {
    origin: [f32; 3],
    dir: [f32; 3],
    dir_inv: [f32; 3],
}

fn ray(origin: [f32; 3], dir: [f32; 3]) -> Ray {
    assert!((dot(dir, dir).sqrt() - 1.0).abs() < 0.001);
    Ray { origin, dir, dir_inv: [1.0 / dir[0], 1.0 / dir[1], 1.0 / dir[2]] }
}

fn point_at(r: &Ray, t: f32) -> [f32; 3] {
    [r.origin[0] + r.dir[0] * t, r.origin[1] + r.dir[1] * t, r.origin[2] + r.dir[2] * t]
}

fn box_test(aabb: Aabb, r: &Ray, tmin: Scalar, tmax: Scalar) -> bool {
    let lo = a(aabb.lower());
    let hi = a(aabb.upper());
    let mut near = f(tmin);
    let mut far = f(tmax);
    let mut smaller = f32::NEG_INFINITY;
    let mut bigger = f32::INFINITY;
    for k in 0..3 {
        let t0 = (lo[k] - r.origin[k]) * r.dir_inv[k];
        let t1 = (hi[k] - r.origin[k]) * r.dir_inv[k];
        smaller = smaller.max(t0.min(t1));
        bigger = bigger.min(t0.max(t1));
    }
    near = near.max(smaller);
    far = far.min(bigger);
    near <= far
}

fn tri_test(tri: Triangle, r: &Ray, tmin: Scalar, tmax: Scalar) -> Option<Hit> {
    let tmin = f(tmin);
    let tmax = f(tmax);
    let v0 = a(tri.vertices[0]);
    let v1 = a(tri.vertices[1]);
    let v2 = a(tri.vertices[2]);
    let edge0 = sub(v1, v0);
    let edge1 = sub(v2, v1);
    let normal = normalize(cross(edge0, edge1));
    let plane_offset = dot(v0, normal);
    let offset0 = dot(point_at(r, tmin), normal);
    let offset1 = dot(point_at(r, tmax), normal);
    if (offset0 - plane_offset) * (offset1 - plane_offset) <= 0.0 {
        let t = tmin + (tmax - tmin) * (plane_offset - offset0) / (offset1 - offset0);
        let p = point_at(r, t);
        let c0 = cross(edge0, sub(p, v0));
        let c1 = cross(edge1, sub(p, v1));
        if dot(c0, c1) >= 0.0 {
            let edge2 = sub(v0, v2);
            let c2 = cross(edge2, sub(p, v2));
            if dot(c1, c2) >= 0.0 {
                return Some(Hit { pos: v(p), normal: v(normal), t: s(t) });
            }
        }
    }
    None
}

fn surface_area(b: &Aabb) -> f32 {
    let size = sub(a(b.upper()), a(b.lower()));
    2.0 * (size[0] * size[1] + size[0] * size[2] + size[1] * size[2])
}

fn sah_cost(left_count: usize, left: Aabb, right_count: usize, right: Aabb) -> Scalar {
    let total = Aabb::union(&left, &right);
    s(0.125
        + (left_count as f32 * surface_area(&left) + right_count as f32 * surface_area(&right))
            / surface_area(&total))
}

fn unit(state: &mut u32) -> f32 {
    f(raytracer::random::random_float01(state))
}

fn soup(count: usize, seed: u32) -> Vec<Triangle> {
    let mut state = seed;
    let mut out = Vec::new();
    for _ in 0..count {
        let base = [
            unit(&mut state) * 10.0 - 5.0,
            unit(&mut state) * 10.0 - 5.0,
            unit(&mut state) * 10.0 - 5.0,
        ];
        let mut corners = [[0.0f32; 3]; 3];
        for c in corners.iter_mut() {
            for k in 0..3 {
                c[k] = base[k] + unit(&mut state) * 2.0 - 1.0;
            }
        }
        out.push(Triangle::new(v(corners[0]), v(corners[1]), v(corners[2])));
    }
    out
}

fn random_ray(state: &mut u32) -> Ray {
    let origin = [
        unit(state) * 16.0 - 8.0,
        unit(state) * 16.0 - 8.0,
        unit(state) * 16.0 - 8.0,
    ];
    loop {
        let d = [unit(state) * 2.0 - 1.0, unit(state) * 2.0 - 1.0, unit(state) * 2.0 - 1.0];
        let len = dot(d, d).sqrt();
        if len > 0.1 {
            return ray(origin, normalize(d));
        }
    }
}

fn aimed_ray(state: &mut u32, tris: &Vec<Triangle>) -> Ray {
    if tris.is_empty() || unit(state) < 0.25 {
        return random_ray(state);
    }
    let pick = ((unit(state) * tris.len() as f32) as usize).min(tris.len() - 1);
    let t = tris[pick];
    let (p, q, r) = (a(t.vertices[0]), a(t.vertices[1]), a(t.vertices[2]));
    let target = [
        (p[0] + q[0] + r[0]) / 3.0,
        (p[1] + q[1] + r[1]) / 3.0,
        (p[2] + q[2] + r[2]) / 3.0,
    ];
    loop {
        let origin = [
            unit(state) * 16.0 - 8.0,
            unit(state) * 16.0 - 8.0,
            unit(state) * 16.0 - 8.0,
        ];
        let d = sub(target, origin);
        if dot(d, d).sqrt() > 0.1 {
            return ray(origin, normalize(d));
        }
    }
}


const LIGHT_DIR: [f32; 3] = [-0.5301519, 0.758786, 0.378395];

fn scale(p: [f32; 3], k: f32) -> [f32; 3] {
    [p[0] * k, p[1] * k, p[2] * k]
}

fn add(p: [f32; 3], q: [f32; 3]) -> [f32; 3] {
    [p[0] + q[0], p[1] + q[1], p[2] + q[2]]
}

fn bounce(hit: Hit, samples: Vec3) -> Ray {
    let raw = a(samples);
    let centred = [(raw[0] - 0.5) * 2.0, (raw[1] - 0.5) * 2.0, (raw[2] - 0.5) * 2.0];
    let target = add(a(hit.normal), normalize(centred));
    ray(a(hit.pos), normalize(target))
}

fn shadow(hit: Hit) -> Ray {
    ray(a(hit.pos), LIGHT_DIR)
}

fn direct(r: &Ray, hit: Hit) -> Vec3 {
    let n = a(hit.normal);
    let nl = scale(scale(n, dot(n, r.dir).signum()), -1.0);
    v(scale([0.7, 0.7, 0.7], 0.0f32.max(dot(LIGHT_DIR, nl))))
}

fn sky(r: &Ray) -> Vec3 {
    let t = 0.5 * (r.dir[1] + 1.0);
    v(scale(add(scale([1.0, 1.0, 1.0], 1.0 - t), scale([0.5, 0.7, 1.0], t)), 0.5))
}

fn blend(light: Vec3, incoming: Vec3) -> Vec3 {
    v(add(a(light), scale(a(incoming), 0.7)))
}

fn run(r: &Ray, depth: usize, state: &mut u32, scene: &Scene) -> (Vec3, usize) {
    trace(r, depth, state, scene, &box_test, &tri_test, &bounce, &shadow, &direct, &sky, &blend)
}

/// The walk written out plainly, to hold the library's against.
fn reference(r: &Ray, depth: usize, state: &mut u32, scene: &Scene) -> ([f32; 3], usize) {
    if depth == 0 {
        return ([0.0; 3], 1);
    }
    let found =
        hit_scene(r, s(0.01), s(100.0), HitType::Closest, scene, &box_test, &tri_test);
    match found {
        None => (a(sky(r)), 1),
        Some(hit) => {
            let x = unit(state);
            let y = unit(state);
            let z = unit(state);
            let next = bounce(hit, v([x, y, z]));
            let lit = hit_scene(
                &shadow(hit),
                s(0.01),
                s(100.0),
                HitType::Any,
                scene,
                &box_test,
                &tri_test,
            )
            .is_none();
            let light = if lit { a(direct(r, hit)) } else { [0.0; 3] };
            let (colour, count) = reference(&next, depth - 1, state, scene);
            (add(light, scale(colour, 0.7)), count + 2)
        }
    }
}

/// Twelve nested cubes about the origin, with half-sides 1 to 12: a ray
/// that starts inside the innermost meets a wall at each of its first ten
/// steps, whichever way it bounces.
fn nested_rooms() -> Vec<Triangle> {
    let faces = [
        [0usize, 1, 2, 3],
        [4, 5, 6, 7],
        [0, 1, 5, 4],
        [3, 2, 6, 7],
        [0, 3, 7, 4],
        [1, 2, 6, 5],
    ];
    let mut out = Vec::new();
    for shell in 1..=12 {
        let h = shell as f32;
        let c = [
            [-h, -h, -h],
            [h, -h, -h],
            [h, h, -h],
            [-h, h, -h],
            [-h, -h, h],
            [h, -h, h],
            [h, h, h],
            [-h, h, h],
        ];
        for q in faces.iter() {
            out.push(Triangle::new(v(c[q[0]]), v(c[q[1]]), v(c[q[2]])));
            out.push(Triangle::new(v(c[q[0]]), v(c[q[2]]), v(c[q[3]])));
        }
    }
    out
}

#[test]
fn window_constants_are_a_hundredth_and_a_hundred() {
    assert_eq!(RAY_MIN_BITS, 0.01f32.to_bits());
    assert_eq!(RAY_MAX_BITS, 100.0f32.to_bits());
}

#[test]
fn trace_without_depth_is_black_and_one_ray() {
    let mut state = 0xDEAD_BEEFu32;
    for scene in [
        Scene::new(Vec::new()),
        Scene::new(soup(20, 5)),
        Scene::accelerated(soup(20, 5), &sah_cost),
    ] {
        for _ in 0..20 {
            let r = random_ray(&mut state);
            let before = state;
            let (colour, rays) = run(&r, 0, &mut state, &scene);
            assert_eq!(colour.to_array().map(|c| c.to_bits()), [0u32; 3]);
            assert_eq!(rays, 1);
            assert_eq!(state, before);
        }
    }
}

#[test]
fn scenes_are_well_formed() {
    assert!(Scene::new(soup(9, 1)).is_well_formed());
    let built = Scene::accelerated(soup(9, 1), &sah_cost);
    assert!(built.is_well_formed());
    let mut broken = Scene::accelerated(soup(9, 1), &sah_cost);
    broken.triangle_list.swap(0, 8);
    assert!(!broken.is_well_formed());
    let mut emptied = Scene::accelerated(soup(9, 1), &sah_cost);
    emptied.triangle_list.clear();
    assert!(!emptied.is_well_formed());
}

#[test]
fn trace_that_meets_nothing_sees_the_sky() {
    let scene = Scene::accelerated(Vec::new(), &sah_cost);
    let mut state = 9u32;
    let up = ray([0.0, 0.0, 0.0], [0.0, 1.0, 0.0]);
    let (colour, rays) = run(&up, 10, &mut state, &scene);
    assert_eq!(rays, 1);
    assert_eq!(state, 9);
    assert_eq!(a(colour), [0.25, 0.35, 0.5]);
    let down = ray([0.0, 0.0, 0.0], [0.0, -1.0, 0.0]);
    let (colour, _) = run(&down, 10, &mut state, &scene);
    assert_eq!(a(colour), [0.5, 0.5, 0.5]);
}

#[test]
fn trace_in_a_closed_room_uses_every_step() {
    let scene = Scene::accelerated(nested_rooms(), &sah_cost);
    let mut seed = 0x5EED_0001u32;
    for depth in [1usize, 2, 5, 10] {
        for _ in 0..10 {
            let r = ray([0.3, -0.2, 0.1], random_ray(&mut seed).dir);
            let mut state = xor_shift_32(seed);
            let start = state;
            let (_, rays) = run(&r, depth, &mut state, &scene);
            assert_eq!(rays, 2 * depth + 1);
            let mut expect = start;
            for _ in 0..3 * depth {
                expect = xor_shift_32(expect);
            }
            assert_eq!(state, expect);
        }
    }
}

#[test]
fn trace_agrees_with_the_walk_written_out() {
    let mut seed = 0x0042_4242u32;
    let mut bounced = 0;
    for scene in [Scene::new(soup(30, 8)), Scene::accelerated(soup(120, 9), &sah_cost)] {
        for _ in 0..200 {
            let r = aimed_ray(&mut seed, &scene.triangle_list);
            let mut state = seed;
            let mut shadow_state = seed;
            let (colour, rays) = run(&r, 6, &mut state, &scene);
            let (want, want_rays) = reference(&r, 6, &mut shadow_state, &scene);
            assert_eq!(rays, want_rays);
            assert_eq!(state, shadow_state);
            assert_eq!(a(colour).map(f32::to_bits), want.map(f32::to_bits));
            assert!(rays % 2 == 1 && rays <= 13);
            assert_eq!((rays - 1) / 2 * 3, steps_between(seed, state));
            if rays > 1 {
                bounced += 1;
            }
        }
    }
    assert!(bounced > 20);
}

fn steps_between(from: u32, to: u32) -> usize {
    let mut state = from;
    let mut steps = 0;
    while state != to {
        state = xor_shift_32(state);
        steps += 1;
        assert!(steps < 1000);
    }
    steps
}

#[test]
fn scatter_lights_what_the_light_can_reach() {
    let floor = vec![
        Triangle::new(v([-50.0, 0.0, -50.0]), v([-50.0, 0.0, 50.0]), v([50.0, 0.0, -50.0])),
        Triangle::new(v([-50.0, 0.0, 50.0]), v([50.0, 0.0, 50.0]), v([50.0, 0.0, -50.0])),
    ];
    let open = Scene::new(floor.clone());
    let mut roofed_list = floor.clone();
    roofed_list.push(Triangle::new(
        v([-50.0, 3.0, -50.0]),
        v([-50.0, 3.0, 90.0]),
        v([90.0, 3.0, -50.0]),
    ));
    let roofed = Scene::accelerated(roofed_list, &sah_cost);
    let incoming = ray([0.0, 1.0, 0.0], [0.0, -1.0, 0.0]);
    for (scene, lit) in [(&open, true), (&roofed, false)] {
        let hit = hit_scene(
            &incoming,
            s(0.01),
            s(100.0),
            HitType::Closest,
            scene,
            &box_test,
            &tri_test,
        )
        .unwrap();
        assert!((f(hit.t) - 1.0).abs() < 1.0e-4);
        let mut state = 4242u32;
        let mut shadow_state = 4242u32;
        let (next, light) = scatter(
            &incoming,
            &hit,
            &mut state,
            scene,
            &box_test,
            &tri_test,
            &bounce,
            &shadow,
            &direct,
        );
        let samples = Vec3::rand_samples(&mut shadow_state);
        assert_eq!(state, shadow_state);
        let want = bounce(hit, samples);
        assert_eq!(next.dir.map(f32::to_bits), want.dir.map(f32::to_bits));
        assert_eq!(next.origin.map(f32::to_bits), a(hit.pos).map(f32::to_bits));
        if lit {
            let brightness = 0.7 * 0.758786f32;
            for c in a(light) {
                assert!((c - brightness).abs() < 1.0e-5);
            }
        } else {
            assert_eq!(a(light), [0.0, 0.0, 0.0]);
        }
    }
}

#[test]
fn scene_boundary() {
    let (lo, hi) = compute_scene_boundary(&Vec::new());
    assert_eq!(a(lo), [f32::INFINITY; 3]);
    assert_eq!(a(hi), [f32::NEG_INFINITY; 3]);
    let tris = vec![
        Triangle::new(v([1.0, 5.0, -2.0]), v([-3.0, 6.0, 0.0]), v([0.0, 7.0, -4.0])),
        Triangle::new(v([2.0, 5.5, -2.0]), v([-1.0, 4.0, 9.0]), v([0.0, 7.0, -4.0])),
    ];
    let (lo, hi) = compute_scene_boundary(&tris);
    assert_eq!(a(lo), [-3.0, 4.0, -4.0]);
    assert_eq!(a(hi), [2.0, 7.0, 9.0]);
    let many = soup(50, 99);
    let (lo, hi) = compute_scene_boundary(&many);
    for t in many.iter() {
        for k in 0..3 {
            let p = a(t.vertices[k]);
            for c in 0..3 {
                assert!(a(lo)[c] <= p[c] && p[c] <= a(hi)[c]);
            }
        }
    }
}

fn aim(x: usize, y: usize, jitter_x: Scalar, jitter_y: Scalar, state: u32) -> (Ray, u32) {
    let mut state = state;
    let spread = unit(&mut state) * 0.01;
    let u = (x as f32 + f(jitter_x)) / 16.0 - 0.5;
    let w = 0.5 - (y as f32 + f(jitter_y)) / 16.0;
    (ray([0.0, 0.0, 9.0], normalize([u + spread, w, -1.0])), state)
}

fn gather(sum: Vec3, light: Vec3) -> Vec3 {
    v(add(a(sum), a(light)))
}

#[test]
fn sample_pixel_gathers_its_rays_in_order() {
    let scene = Scene::accelerated(soup(60, 17), &sah_cost);
    let mut total = 0;
    for (x, y, samples) in [(0usize, 0usize, 0usize), (3, 5, 1), (8, 8, 4), (15, 2, 7)] {
        let mut state = 1 + 9781 * (x as u32 + 16 * y as u32);
        let mut shadow_state = state;
        let (sum, rays) = sample_pixel(
            x,
            y,
            samples,
            5,
            &mut state,
            &scene,
            &aim,
            &gather,
            &box_test,
            &tri_test,
            &bounce,
            &shadow,
            &direct,
            &sky,
            &blend,
        );
        let mut want = [0.0f32; 3];
        let mut want_rays = 0;
        for _ in 0..samples {
            let jitter_x = raytracer::random::random_float01(&mut shadow_state);
            let jitter_y = raytracer::random::random_float01(&mut shadow_state);
            let (r, next) = aim(x, y, jitter_x, jitter_y, shadow_state);
            shadow_state = next;
            let (colour, count) = reference(&r, 5, &mut shadow_state, &scene);
            want = add(want, colour);
            want_rays += count;
        }
        assert_eq!(a(sum).map(f32::to_bits), want.map(f32::to_bits));
        assert_eq!(rays, want_rays);
        assert_eq!(state, shadow_state);
        assert!(samples <= rays && rays <= samples * 11);
        total += rays;
    }
    assert!(total > 12);
}

fn small_frame() -> Frame {
    Frame { block_length: 4, width: 16, height: 8, samples: 2, depth: 4 }
}

/// A block rendered pixel after pixel with the walk written out.
fn reference_block(frame: &Frame, block_idx: usize, scene: &Scene) -> Vec<([f32; 3], usize)> {
    let mut state = block_idx as u32 * 9781 + 1;
    let across = frame.width / frame.block_length;
    let mut out = Vec::new();
    for idx in 0..frame.block_length * frame.block_length {
        let x = (block_idx % across) * frame.block_length + idx % frame.block_length;
        let y = (block_idx / across) * frame.block_length + idx / frame.block_length;
        let mut sum = [0.0f32; 3];
        let mut rays = 0;
        for _ in 0..frame.samples {
            let jitter_x = raytracer::random::random_float01(&mut state);
            let jitter_y = raytracer::random::random_float01(&mut state);
            let (r, next) = aim(x, y, jitter_x, jitter_y, state);
            state = next;
            let (colour, count) = reference(&r, frame.depth, &mut state, scene);
            sum = add(sum, colour);
            rays += count;
        }
        out.push((sum, rays));
    }
    out
}

#[test]
fn fill_block_renders_a_block_with_its_own_stream() {
    let scene = Scene::accelerated(soup(60, 17), &sah_cost);
    let frame = small_frame();
    assert!(frame.is_well_formed());
    for block_idx in [0usize, 3, 7] {
        let mut block = vec![Sample { color: Vec3::zero(), rays: 99 }; 16];
        fill_block(
            &mut block,
            &frame,
            block_idx,
            &scene,
            &aim,
            &gather,
            &box_test,
            &tri_test,
            &bounce,
            &shadow,
            &direct,
            &sky,
            &blend,
        );
        let want = reference_block(&frame, block_idx, &scene);
        for idx in 0..16 {
            assert_eq!(a(block[idx].color).map(f32::to_bits), want[idx].0.map(f32::to_bits));
            assert_eq!(block[idx].rays, want[idx].1);
        }
    }
}

#[test]
fn render_puts_every_block_in_its_place() {
    let scene = Scene::accelerated(soup(60, 17), &sah_cost);
    let frame = small_frame();
    let (image, rays) = render(
        &frame,
        &scene,
        &aim,
        &gather,
        &box_test,
        &tri_test,
        &bounce,
        &shadow,
        &direct,
        &sky,
        &blend,
    );
    assert_eq!(image.len(), 16 * 8);
    let mut total = 0;
    let mut seen = vec![false; 16 * 8];
    for block_idx in 0..8 {
        let want = reference_block(&frame, block_idx, &scene);
        for idx in 0..16 {
            let x = (block_idx % 4) * 4 + idx % 4;
            let y = (block_idx / 4) * 4 + idx / 4;
            let n = x + y * 16;
            assert!(!seen[n]);
            seen[n] = true;
            assert_eq!(a(image[n].color).map(f32::to_bits), want[idx].0.map(f32::to_bits));
            assert_eq!(image[n].rays, want[idx].1);
            total += want[idx].1;
        }
    }
    assert_eq!(rays, total);
    assert!(rays >= 16 * 8 * 2);
    let again = render(
        &frame,
        &scene,
        &aim,
        &gather,
        &box_test,
        &tri_test,
        &bounce,
        &shadow,
        &direct,
        &sky,
        &blend,
    );
    assert_eq!(again.1, rays);
    for n in 0..image.len() {
        assert_eq!(a(again.0[n].color).map(f32::to_bits), a(image[n].color).map(f32::to_bits));
    }
}

#[test]
fn frames_that_are_well_formed() {
    let ok = Frame { block_length: 8, width: 640, height: 360, samples: 4, depth: 10 };
    assert!(ok.is_well_formed());
    assert!(Frame { samples: 0, depth: usize::MAX, ..ok }.is_well_formed());
    assert!(Frame { samples: 0, depth: usize::MAX / 2, ..ok }.is_well_formed());
    assert!(!Frame { block_length: 0, ..ok }.is_well_formed());
    assert!(!Frame { width: 0, ..ok }.is_well_formed());
    assert!(!Frame { height: 0, ..ok }.is_well_formed());
    assert!(!Frame { block_length: 7, ..ok }.is_well_formed());
    assert!(!Frame { height: 361, ..ok }.is_well_formed());
    assert!(!Frame { depth: usize::MAX, ..ok }.is_well_formed());
    assert!(!Frame { depth: usize::MAX / 2, ..ok }.is_well_formed());
    assert!(!Frame { samples: usize::MAX / 21 + 1, ..ok }.is_well_formed());
    assert!(!Frame { samples: usize::MAX / 21 / 640 / 360 + 1, ..ok }.is_well_formed());
    assert!(Frame { samples: usize::MAX / 21 / 640 / 360, ..ok }.is_well_formed());
    assert!(!Frame { width: usize::MAX - 6, height: 8, ..ok }.is_well_formed());
    assert!(Frame { block_length: 1, width: 439_113, height: 1, ..ok }.is_well_formed());
    assert!(!Frame { block_length: 1, width: 439_114, height: 1, ..ok }.is_well_formed());
}

#[test]
fn saturate_clamps_to_the_unit_range() {
    assert_eq!(a(saturate(&v([-0.5, 0.25, 7.0]))), [0.0, 0.25, 1.0]);
    assert_eq!(a(saturate(&v([0.0, 1.0, -0.0]))), [0.0, 1.0, 0.0]);
    assert_eq!(
        a(saturate(&v([f32::INFINITY, f32::NEG_INFINITY, f32::NAN]))),
        [1.0, 0.0, 1.0]
    );
}

#[test]
fn develop_turns_light_into_bytes() {
    let tone = |sum: Vec3| v(scale(a(sum), 0.25).map(f32::sqrt));
    let quantize = |level: Scalar| (255.0 * f(level)) as u8;
    let image = vec![
        Sample { color: v([0.0, 4.0, 1.0]), rays: 1 },
        Sample { color: v([16.0, -3.0, 0.04]), rays: 3 },
    ];
    let bytes = develop(&image, &tone, &quantize);
    assert_eq!(bytes, vec![0, 255, 127, 255, 255, 25]);
    assert_eq!(develop(&Vec::new(), &tone, &quantize), Vec::<u8>::new());
}

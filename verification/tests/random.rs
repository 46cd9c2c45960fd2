use raytracer::random::xor_shift_32;
use raytracer::vec3::Vec3;

#[test]
fn random_float01() {
    let mut state = 0xFA59B021u32;
    for _ in 0..10 {
        let sample = raytracer::random::random_float01(&mut state);
        let rand_float = f32::from_bits(sample.to_bits());
        assert!(0.0 <= rand_float);
        assert!(1.0 >= rand_float);
    }
}

fn reference_step(val: u32) -> u32 {
    let mut x = val;
    x ^= x << 13;
    x ^= x >> 17;
    x ^= x << 15;
    x
}

#[test]
fn xor_shift_32_known_values() {
    assert_eq!(xor_shift_32(0), 0);
    assert_eq!(xor_shift_32(1), 0x1000_A001);
    let mut state = 0xF215_C12Eu32;
    for _ in 0..1000 {
        let next = xor_shift_32(state);
        assert_eq!(next, reference_step(state));
        assert_ne!(next, 0);
        state = next;
    }
}

#[test]
fn random_float01_is_the_low_24_bits_over_two_to_24() {
    let mut state = 12345u32;
    for _ in 0..1000 {
        let before = state;
        let sample = raytracer::random::random_float01(&mut state);
        assert_eq!(state, reference_step(before));
        let want = ((state & 0xFFFFFF) as f32) / 16777216.0f32;
        assert_eq!(sample.to_bits(), want.to_bits());
        assert!(f32::from_bits(sample.to_bits()) < 1.0);
    }
}

#[test]
fn same_seed_same_sequence() {
    let mut a = 0xFA59B021u32;
    let mut b = 0xFA59B021u32;
    for _ in 0..100 {
        let x = raytracer::random::random_float01(&mut a);
        let y = raytracer::random::random_float01(&mut b);
        assert_eq!(x.to_bits(), y.to_bits());
        assert_eq!(a, b);
    }
}

#[test]
fn rand_samples_draws_three_in_order() {
    let mut state = 77u32;
    let mut shadow = 77u32;
    let samples = Vec3::rand_samples(&mut state);
    let x = raytracer::random::random_float01(&mut shadow);
    let y = raytracer::random::random_float01(&mut shadow);
    let z = raytracer::random::random_float01(&mut shadow);
    assert_eq!(state, shadow);
    assert_eq!(samples.x().to_bits(), x.to_bits());
    assert_eq!(samples.y().to_bits(), y.to_bits());
    assert_eq!(samples.z().to_bits(), z.to_bits());
}

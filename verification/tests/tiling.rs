use raytracer::tiling::{block_seed, chunk_encode, pixel_index};

#[test]
fn chunk_encode_values() {
    assert_eq!(chunk_encode(0, 8, 640), 0);
    assert_eq!(chunk_encode(7, 8, 640), 7);
    assert_eq!(chunk_encode(8, 8, 640), 640);
    assert_eq!(chunk_encode(9, 8, 640), 641);
    assert_eq!(chunk_encode(63, 8, 640), 7 + 7 * 640);
    assert_eq!(chunk_encode(5, 1, 10), 50);
    assert_eq!(chunk_encode(5, 3, 0), 2);
}

#[test]
fn pixel_index_values() {
    assert_eq!(pixel_index(0, 0, 8, 640, 360), 0);
    assert_eq!(pixel_index(1, 0, 8, 640, 360), 8);
    assert_eq!(pixel_index(79, 63, 8, 640, 360), 639 + 7 * 640);
    assert_eq!(pixel_index(80, 0, 8, 640, 360), 8 * 640);
    assert_eq!(pixel_index(81, 9, 8, 640, 360), 8 * 640 + 8 + 640 + 1);
    assert_eq!(pixel_index(3599, 63, 8, 640, 360), 640 * 360 - 1);
}

#[test]
fn blocks_tile_the_image() {
    for (block_length, width, height) in [(8usize, 640usize, 360usize), (4, 8, 12), (1, 5, 3), (3, 3, 3)] {
        let blocks = (width / block_length) * (height / block_length);
        let mut seen = vec![false; width * height];
        for block in 0..blocks {
            for idx in 0..block_length * block_length {
                let n = pixel_index(block, idx, block_length, width, height);
                assert!(!seen[n]);
                seen[n] = true;
                let block_y = block / (width / block_length);
                let block_x = block - block_y * (width / block_length);
                let offset = block_x * block_length + block_y * block_length * width;
                assert_eq!(n, chunk_encode(idx, block_length, width) + offset);
            }
        }
        assert!(seen.iter().all(|&s| s));
    }
}

#[test]
fn block_seeds() {
    assert_eq!(block_seed(0), 1);
    assert_eq!(block_seed(1), 9782);
    assert_eq!(block_seed(3599), 3599 * 9781 + 1);
    assert_eq!(block_seed(439_113), 4_294_964_254);
}

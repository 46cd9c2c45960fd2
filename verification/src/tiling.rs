//! The order in which an image is rendered: in square blocks, each block
//! with a pseudo-random stream of its own.
//!
//! An image of `width` columns is cut into blocks of `block_length` by
//! `block_length` pixels, numbered row by row.  Within a block the pixels are
//! numbered row by row as well.  [`pixel_index`] turns a block number and a
//! number within the block into the pixel's position in the row-major image.

use vstd::prelude::*;

verus! {

/// Multiplier that spreads the block numbers over the seeds.
pub const SEED_STRIDE: u32 = 9781;

/// Position, in an image `width` wide, of cell `idx` of a chunk that is
/// `chunk_width` wide and whose first cell is at position 0.
pub open spec fn chunk_encode_spec(idx: int, chunk_width: int, width: int) -> int {
    idx % chunk_width + (idx / chunk_width) * width
}

/// Position in the image of the first pixel of block `block_idx`.
pub open spec fn block_offset_spec(block_idx: int, block_length: int, width: int) -> int {
    let block_width = width / block_length;
    (block_idx % block_width) * block_length + (block_idx / block_width) * block_length * width
}

/// Position in the image of pixel `idx` of block `block_idx`.
pub open spec fn pixel_index_spec(block_idx: int, idx: int, block_length: int, width: int) -> int {
    chunk_encode_spec(idx, block_length, width) + block_offset_spec(block_idx, block_length, width)
}

/// The image is cut into whole blocks, and its pixels can be counted.
pub open spec fn tiles(block_length: int, width: int, height: int) -> bool {
    &&& block_length > 0
    &&& width > 0
    &&& height > 0
    &&& width % block_length == 0
    &&& height % block_length == 0
    &&& width * height <= usize::MAX
}

/// Column of a pixel of a block.
pub open spec fn column_of(block_idx: int, idx: int, block_length: int, width: int) -> int {
    (block_idx % (width / block_length)) * block_length + idx % block_length
}

/// Row of a pixel of a block.
pub open spec fn row_of(block_idx: int, idx: int, block_length: int, width: int) -> int {
    (block_idx / (width / block_length)) * block_length + idx / block_length
}

/// A pixel of a block of the image lies in the image, at the column and row
/// that its block and its place in the block give it.
pub proof fn lemma_pixel_position(
    block_idx: int,
    idx: int,
    block_length: int,
    width: int,
    height: int,
)
    requires
        tiles(block_length, width, height),
        0 <= block_idx < (width / block_length) * (height / block_length),
        0 <= idx < block_length * block_length,
    ensures
        0 <= column_of(block_idx, idx, block_length, width) < width,
        0 <= row_of(block_idx, idx, block_length, width) < height,
        pixel_index_spec(block_idx, idx, block_length, width) == column_of(
            block_idx,
            idx,
            block_length,
            width,
        ) + row_of(block_idx, idx, block_length, width) * width,
        0 <= pixel_index_spec(block_idx, idx, block_length, width) < width * height,
        0 <= chunk_encode_spec(idx, block_length, width),
        0 <= block_offset_spec(block_idx, block_length, width),
{
    let bw = width / block_length;
    let bh = height / block_length;
    let bx = block_idx % bw;
    let by = block_idx / bw;
    let ix = idx % block_length;
    let iy = idx / block_length;
    assert(width == bw * block_length) by (nonlinear_arith)
        requires
            block_length > 0,
            width % block_length == 0,
            bw == width / block_length,
    ;
    assert(height == bh * block_length) by (nonlinear_arith)
        requires
            block_length > 0,
            height % block_length == 0,
            bh == height / block_length,
    ;
    assert(bw > 0 && bh > 0) by (nonlinear_arith)
        requires
            width == bw * block_length,
            height == bh * block_length,
            width > 0,
            height > 0,
            block_length > 0,
    ;
    assert(0 <= bx < bw && 0 <= by < bh) by (nonlinear_arith)
        requires
            bw > 0,
            0 <= block_idx < bw * bh,
            bx == block_idx % bw,
            by == block_idx / bw,
    ;
    assert(0 <= ix < block_length && 0 <= iy < block_length) by (nonlinear_arith)
        requires
            block_length > 0,
            0 <= idx < block_length * block_length,
            ix == idx % block_length,
            iy == idx / block_length,
    ;
    assert(0 <= bx * block_length + ix < width) by (nonlinear_arith)
        requires
            0 <= bx < bw,
            0 <= ix < block_length,
            width == bw * block_length,
    ;
    assert(0 <= by * block_length + iy < height) by (nonlinear_arith)
        requires
            0 <= by < bh,
            0 <= iy < block_length,
            height == bh * block_length,
    ;
    assert(ix + iy * width + (bx * block_length + by * block_length * width) == (bx * block_length
        + ix) + (by * block_length + iy) * width) by (nonlinear_arith);
    assert((bx * block_length + ix) + (by * block_length + iy) * width < width * height)
        by (nonlinear_arith)
        requires
            0 <= bx * block_length + ix < width,
            0 <= by * block_length + iy < height,
    ;
    assert(0 <= iy * width && 0 <= bx * block_length && 0 <= by * block_length * width)
        by (nonlinear_arith)
        requires
            0 <= iy,
            0 <= bx,
            0 <= by,
            width > 0,
            block_length > 0,
    ;
}

/// No two pixels of the blocks share a position: the blocks tile the image
/// without overlap.
pub proof fn lemma_pixels_distinct(
    block_a: int,
    idx_a: int,
    block_b: int,
    idx_b: int,
    block_length: int,
    width: int,
    height: int,
)
    requires
        tiles(block_length, width, height),
        0 <= block_a < (width / block_length) * (height / block_length),
        0 <= block_b < (width / block_length) * (height / block_length),
        0 <= idx_a < block_length * block_length,
        0 <= idx_b < block_length * block_length,
        pixel_index_spec(block_a, idx_a, block_length, width) == pixel_index_spec(
            block_b,
            idx_b,
            block_length,
            width,
        ),
    ensures
        block_a == block_b,
        idx_a == idx_b,
{
    lemma_pixel_position(block_a, idx_a, block_length, width, height);
    lemma_pixel_position(block_b, idx_b, block_length, width, height);
    let bw = width / block_length;
    let xa = column_of(block_a, idx_a, block_length, width);
    let ya = row_of(block_a, idx_a, block_length, width);
    let xb = column_of(block_b, idx_b, block_length, width);
    let yb = row_of(block_b, idx_b, block_length, width);
    assert(xa == xb && ya == yb) by (nonlinear_arith)
        requires
            0 <= xa < width,
            0 <= xb < width,
            0 <= ya,
            0 <= yb,
            xa + ya * width == xb + yb * width,
    ;
    assert(0 <= idx_a / block_length < block_length && 0 <= idx_b / block_length < block_length
        && 0 <= idx_a % block_length < block_length && 0 <= idx_b % block_length < block_length)
        by (nonlinear_arith)
        requires
            block_length > 0,
            0 <= idx_a < block_length * block_length,
            0 <= idx_b < block_length * block_length,
    ;
    lemma_split_unique(
        block_a % bw,
        idx_a % block_length,
        block_b % bw,
        idx_b % block_length,
        block_length,
    );
    lemma_split_unique(
        block_a / bw,
        idx_a / block_length,
        block_b / bw,
        idx_b / block_length,
        block_length,
    );
    assert(bw > 0) by (nonlinear_arith)
        requires
            block_length > 0,
            width > 0,
            width % block_length == 0,
            bw == width / block_length,
    ;
    assert(block_a == bw * (block_a / bw) + block_a % bw && block_b == bw * (block_b / bw) + block_b
        % bw) by (nonlinear_arith)
        requires
            bw > 0,
    ;
    assert(idx_a == block_length * (idx_a / block_length) + idx_a % block_length && idx_b
        == block_length * (idx_b / block_length) + idx_b % block_length) by (nonlinear_arith)
        requires
            block_length > 0,
    ;
}

/// Every pixel of the image is a pixel of one of the blocks: the blocks
/// cover the image.  The result names the block and the pixel's number in
/// the block.
pub proof fn lemma_pixel_has_block(n: int, block_length: int, width: int, height: int) -> (at: (
    int,
    int,
))
    requires
        tiles(block_length, width, height),
        0 <= n < width * height,
    ensures
        0 <= at.0 < (width / block_length) * (height / block_length),
        0 <= at.1 < block_length * block_length,
        pixel_index_spec(at.0, at.1, block_length, width) == n,
{
    let bl = block_length;
    let bw = width / bl;
    let bh = height / bl;
    let x = n % width;
    let y = n / width;
    let bx = x / bl;
    let by = y / bl;
    let ix = x % bl;
    let iy = y % bl;
    let block = by * bw + bx;
    let idx = iy * bl + ix;
    assert(width == bw * bl && height == bh * bl) by (nonlinear_arith)
        requires
            bl > 0,
            width % bl == 0,
            height % bl == 0,
            bw == width / bl,
            bh == height / bl,
    ;
    assert(0 <= x < width && 0 <= y < height && n == y * width + x) by (nonlinear_arith)
        requires
            width > 0,
            0 <= n < width * height,
            x == n % width,
            y == n / width,
    ;
    assert(0 <= bx < bw && 0 <= ix < bl && x == bx * bl + ix) by (nonlinear_arith)
        requires
            bl > 0,
            0 <= x < bw * bl,
            bx == x / bl,
            ix == x % bl,
    ;
    assert(0 <= by < bh && 0 <= iy < bl && y == by * bl + iy) by (nonlinear_arith)
        requires
            bl > 0,
            0 <= y < bh * bl,
            by == y / bl,
            iy == y % bl,
    ;
    assert(0 <= block < bw * bh) by (nonlinear_arith)
        requires
            0 <= bx < bw,
            0 <= by < bh,
            block == by * bw + bx,
    ;
    assert(0 <= idx < bl * bl) by (nonlinear_arith)
        requires
            0 <= ix < bl,
            0 <= iy < bl,
            idx == iy * bl + ix,
    ;
    assert(block % bw == bx && block / bw == by) by (nonlinear_arith)
        requires
            bw > 0,
            0 <= bx < bw,
            0 <= by,
            block == by * bw + bx,
    ;
    assert(idx % bl == ix && idx / bl == iy) by (nonlinear_arith)
        requires
            bl > 0,
            0 <= ix < bl,
            0 <= iy,
            idx == iy * bl + ix,
    ;
    assert(ix + iy * width + (bx * bl + by * bl * width) == (by * bl + iy) * width + (bx * bl
        + ix)) by (nonlinear_arith);
    (block, idx)
}

/// A number is written as `q * base + r` with `0 <= r < base` in one way
/// only.
proof fn lemma_split_unique(qa: int, ra: int, qb: int, rb: int, base: int)
    requires
        base > 0,
        0 <= ra < base,
        0 <= rb < base,
        qa * base + ra == qb * base + rb,
    ensures
        qa == qb,
        ra == rb,
{
    assert(qa == qb) by (nonlinear_arith)
        requires
            base > 0,
            0 <= ra < base,
            0 <= rb < base,
            qa * base + ra == qb * base + rb,
    ;
}

/// Position, in an image `width` wide, of cell `idx` of a chunk that is
/// `chunk_width` wide.
pub fn chunk_encode(idx: usize, chunk_width: usize, width: usize) -> (r: usize)
    requires
        chunk_width > 0,
        chunk_encode_spec(idx as int, chunk_width as int, width as int) <= usize::MAX,
    ensures
        r == chunk_encode_spec(idx as int, chunk_width as int, width as int),
{
    let y = idx / chunk_width;
    assert(0 <= y * chunk_width <= idx && idx - y * chunk_width == idx % chunk_width)
        by (nonlinear_arith)
        requires
            chunk_width > 0,
            y == idx / chunk_width,
    ;
    let x = idx - y * chunk_width;
    assert(0 <= y * width) by (nonlinear_arith)
        requires
            y >= 0,
            width >= 0,
    ;
    x + y * width
}

/// Position in the image of pixel `idx` of block `block_idx`.
pub fn pixel_index(
    block_idx: usize,
    idx: usize,
    block_length: usize,
    width: usize,
    height: usize,
) -> (n: usize)
    requires
        tiles(block_length as int, width as int, height as int),
        block_idx < (width / block_length) * (height / block_length),
        idx < block_length * block_length,
    ensures
        n == pixel_index_spec(block_idx as int, idx as int, block_length as int, width as int),
        n < width * height,
        n % width == column_of(block_idx as int, idx as int, block_length as int, width as int),
        n / width == row_of(block_idx as int, idx as int, block_length as int, width as int),
{
    proof {
        lemma_pixel_position(
            block_idx as int,
            idx as int,
            block_length as int,
            width as int,
            height as int,
        );
    }
    let ghost x = column_of(block_idx as int, idx as int, block_length as int, width as int);
    let ghost y = row_of(block_idx as int, idx as int, block_length as int, width as int);
    let block_width = width / block_length;
    assert(block_width > 0) by (nonlinear_arith)
        requires
            block_length > 0,
            width > 0,
            width % block_length == 0,
            block_width == width / block_length,
    ;
    let block_y = block_idx / block_width;
    assert(0 <= block_y * block_width <= block_idx && block_idx - block_y * block_width
        == block_idx % block_width) by (nonlinear_arith)
        requires
            block_width > 0,
            block_y == block_idx / block_width,
    ;
    let block_x = block_idx - block_y * block_width;
    let ghost total = pixel_index_spec(
        block_idx as int,
        idx as int,
        block_length as int,
        width as int,
    );
    assert(0 <= block_x * block_length <= total && 0 <= block_y * block_length <= total && 0
        <= block_y * block_length * width <= total && block_x * block_length + block_y
        * block_length * width <= total) by (nonlinear_arith)
        requires
            total == chunk_encode_spec(idx as int, block_length as int, width as int) + (block_x
                * block_length + block_y * block_length * width),
            0 <= chunk_encode_spec(idx as int, block_length as int, width as int),
            width > 0,
            block_length > 0,
    ;
    let block_offset = block_x * block_length + block_y * block_length * width;
    let n = chunk_encode(idx, block_length, width) + block_offset;
    assert(n % width == x && n / width == y) by (nonlinear_arith)
        requires
            n == x + y * width,
            0 <= x < width,
            0 <= y,
    ;
    n
}

/// The state from which block `block_idx` starts its pseudo-random stream.
pub open spec fn block_seed_spec(block_idx: usize) -> u32 {
    (block_idx * SEED_STRIDE + 1) as u32
}

/// The state from which block `block_idx` starts its pseudo-random stream.
/// It is never zero, so the stream never gets stuck.
pub fn block_seed(block_idx: usize) -> (seed: u32)
    requires
        block_idx * SEED_STRIDE + 1 <= u32::MAX,
    ensures
        seed == block_seed_spec(block_idx),
        seed == block_idx * SEED_STRIDE + 1,
        seed != 0,
{
    (block_idx as u32) * SEED_STRIDE + 1
}

} // verus!

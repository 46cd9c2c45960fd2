//! The bytes of a binary PPM image: a header of the format's magic number,
//! the width, the height and the greatest value of a colour, each in text and
//! a blank apart, ended by a newline; and then three bytes for every pixel,
//! row by row.

use vstd::prelude::*;

verus! {

/// The digit zero.
pub const DIGIT_ZERO: u8 = 0x30;

/// A number in decimal digits, without leading zeros.
pub open spec fn decimal(n: nat) -> Seq<u8>
    decreases n,
{
    if n < 10 {
        seq![(DIGIT_ZERO + n) as u8]
    } else {
        decimal(n / 10).push((DIGIT_ZERO + n % 10) as u8)
    }
}

/// The header of an image of the given size.
pub open spec fn header_spec(width: nat, height: nat) -> Seq<u8> {
    seq![0x50u8, 0x36, 0x20] + decimal(width) + seq![0x20u8] + decimal(height) + seq![
        0x20u8,
        0x32,
        0x35,
        0x35,
        0x0A,
    ]
}

/// Appends a number in decimal digits.
pub fn push_decimal(out: &mut Vec<u8>, n: usize)
    ensures
        final(out)@ == old(out)@ + decimal(n as nat),
    decreases n,
{
    if n >= 10 {
        push_decimal(out, n / 10);
    }
    let digit: u8 = (n % 10) as u8;
    out.push(DIGIT_ZERO + digit);
    proof {
        if n >= 10 {
            assert(out@ =~= old(out)@ + decimal((n / 10) as nat).push(
                (DIGIT_ZERO + n % 10) as u8,
            ));
        } else {
            assert(out@ =~= old(out)@ + seq![(DIGIT_ZERO + n) as u8]);
        }
    }
}

/// The header of an image of the given size.
pub fn header(width: usize, height: usize) -> (r: Vec<u8>)
    ensures
        r@ == header_spec(width as nat, height as nat),
{
    let mut out: Vec<u8> = Vec::new();
    out.push(0x50);
    out.push(0x36);
    out.push(0x20);
    assert(out@ =~= seq![0x50u8, 0x36, 0x20]);
    push_decimal(&mut out, width);
    out.push(0x20);
    push_decimal(&mut out, height);
    let ghost body = out@;
    out.push(0x20);
    out.push(0x32);
    out.push(0x35);
    out.push(0x35);
    out.push(0x0A);
    assert(out@ =~= body + seq![0x20u8, 0x32, 0x35, 0x35, 0x0A]);
    assert(body =~= seq![0x50u8, 0x36, 0x20] + decimal(width as nat) + seq![0x20u8] + decimal(
        height as nat,
    ));
    out
}

/// The bytes of the image file: the header, then the pixel data as given.
/// `data` holds three bytes for each of the `width * height` pixels.
pub fn encode(width: usize, height: usize, data: &Vec<u8>) -> (r: Vec<u8>)
    requires
        data@.len() == 3 * width * height,
    ensures
        r@ == header_spec(width as nat, height as nat) + data@,
{
    let mut out = header(width, height);
    let ghost head = out@;
    let mut i: usize = 0;
    while i < data.len()
        invariant
            i <= data@.len(),
            out@ == head + data@.take(i as int),
        decreases data@.len() - i,
    {
        out.push(data[i]);
        assert(data@.take(i + 1) =~= data@.take(i as int).push(data@[i as int]));
        i += 1;
    }
    assert(data@.take(data@.len() as int) =~= data@);
    out
}

} // verus!

use raytracer::ppm_writer::{encode, header, push_decimal};

/// The header as text: the magic number of binary pixmaps, the size, and the
/// greatest value of a colour.
fn text(width: usize, height: usize) -> Vec<u8> {
    format!("{}{} {} {} 255\n", 'P', 6, width, height).into_bytes()
}

#[test]
fn header_text() {
    assert_eq!(header(640, 360), text(640, 360));
    assert_eq!(header(0, 0), text(0, 0));
    assert_eq!(header(1, 10), text(1, 10));
    assert_eq!(header(1, 10), vec![0x50, 0x36, 0x20, 0x31, 0x20, 0x31, 0x30, 0x20, 0x32, 0x35, 0x35, 0x0A]);
}

#[test]
fn decimal_digits() {
    for n in [0usize, 1, 9, 10, 11, 99, 100, 101, 12345, 1000000, usize::MAX] {
        let mut out = vec![b'x'];
        push_decimal(&mut out, n);
        let mut want = vec![b'x'];
        want.extend_from_slice(n.to_string().as_bytes());
        assert_eq!(out, want);
    }
}

#[test]
fn encode_appends_the_pixels() {
    let data: Vec<u8> = (0..24).collect();
    let bytes = encode(4, 2, &data);
    let mut want = text(4, 2);
    want.extend_from_slice(&data);
    assert_eq!(bytes, want);
    assert_eq!(encode(0, 7, &Vec::new()), text(0, 7));
}

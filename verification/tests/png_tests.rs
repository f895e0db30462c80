use monotabe::png::{page_size_or_default, png_dimensions};

/// The first 24 bytes of a PNG whose IHDR declares `w` by `h` pixels.
fn header(w: u32, h: u32) -> Vec<u8> {
    let mut b = vec![0x89, b'P', b'N', b'G', 0x0d, 0x0a, 0x1a, 0x0a];
    b.extend_from_slice(&13u32.to_be_bytes());
    b.extend_from_slice(b"IHDR");
    b.extend_from_slice(&w.to_be_bytes());
    b.extend_from_slice(&h.to_be_bytes());
    b
}

#[test]
fn png_dimensions_reads_ihdr() {
    assert_eq!(png_dimensions(&header(1275, 1650)), Some((1275, 1650)));
    assert_eq!(png_dimensions(&header(0x0102_0304, 7)), Some((0x0102_0304, 7)));
}

#[test]
fn png_dimensions_ignores_trailing_bytes() {
    let mut b = header(850, 1100);
    b.extend_from_slice(&[1, 2, 3, 4]);
    assert_eq!(png_dimensions(&b), Some((850, 1100)));
}

#[test]
fn png_dimensions_rejects_short_header() {
    let b = header(850, 1100);
    assert_eq!(png_dimensions(&b[..23]), None);
    assert_eq!(png_dimensions(&[]), None);
}

#[test]
fn png_dimensions_rejects_bad_signature() {
    let mut b = header(850, 1100);
    b[1] = b'X';
    assert_eq!(png_dimensions(&b), None);
}

#[test]
fn page_size_falls_back_to_letter_at_150_dpi() {
    assert_eq!(page_size_or_default(&header(640, 480)), (640, 480));
    assert_eq!(page_size_or_default(b"not a png at all, sorry!"), (1240, 1650));
    assert_eq!(page_size_or_default(&[]), (1240, 1650));
}

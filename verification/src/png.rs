//! The size of a rendered page, read from the PNG header.
use vstd::prelude::*;

verus! {

/// The eight bytes every PNG file starts with.
pub open spec fn png_signature() -> Seq<u8> {
    seq![0x89u8, 0x50u8, 0x4eu8, 0x47u8, 0x0du8, 0x0au8, 0x1au8, 0x0au8]
}

/// The big-endian 32-bit number in `b[at..at + 4]`.
pub open spec fn be_u32(b: Seq<u8>, at: int) -> int {
    b[at] * 0x100_0000 + b[at + 1] * 0x1_0000 + b[at + 2] * 0x100 + b[at + 3]
}

/// The width and height in the `IHDR` chunk of a PNG that starts with
/// `header`: `None` unless it holds at least 24 bytes opening with the PNG
/// signature.
pub open spec fn png_size(header: Seq<u8>) -> Option<(u32, u32)> {
    if header.len() >= 24 && header.take(8) == png_signature() {
        Some((be_u32(header, 16) as u32, be_u32(header, 20) as u32))
    } else {
        None
    }
}

fn read_be_u32(b: &[u8], at: usize) -> (v: u32)
    requires
        at + 4 <= b@.len(),
    ensures
        v == be_u32(b@, at as int),
{
    let v = (b[at] as u32) * 0x100_0000 + (b[at + 1] as u32) * 0x1_0000 + (b[at + 2] as u32) * 0x100
        + (b[at + 3] as u32);
    v
}

/// The pixel size a PNG file declares in its header (its first 24 bytes).
pub fn png_dimensions(header: &[u8]) -> (r: Option<(u32, u32)>)
    ensures
        r == png_size(header@),
{
    if header.len() < 24 {
        return None;
    }
    let sig: [u8; 8] = [0x89, 0x50, 0x4e, 0x47, 0x0d, 0x0a, 0x1a, 0x0a];
    let mut i: usize = 0;
    while i < 8
        invariant
            i <= 8,
            header@.len() >= 24,
            sig@ == png_signature(),
            forall|k: int| 0 <= k < i ==> header@[k] == png_signature()[k],
        decreases 8 - i,
    {
        if header[i] != sig[i] {
            assert(header@.take(8)[i as int] != png_signature()[i as int]);
            return None;
        }
        i += 1;
    }
    assert(header@.take(8) =~= png_signature());
    Some((read_be_u32(header, 16), read_be_u32(header, 20)))
}

/// The page size to lay out: the declared size, or 1240 by 1650 pixels
/// when the header cannot be read.
pub fn page_size_or_default(header: &[u8]) -> (r: (u32, u32))
    ensures
        r == match png_size(header@) {
            Some(s) => s,
            None => (1240u32, 1650u32),
        },
{
    match png_dimensions(header) {
        Some(s) => s,
        None => (1240, 1650),
    }
}

} // verus!

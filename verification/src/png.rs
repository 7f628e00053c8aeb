use vstd::prelude::*;

verus! {

/// The eight signature bytes every PNG file starts with.
pub open spec fn png_signature() -> Seq<u8> {
    seq![137u8, 80u8, 78u8, 71u8, 13u8, 10u8, 26u8, 10u8]
}

/// The chunk type of the header chunk, `IHDR`, as bytes.
pub open spec fn ihdr_tag() -> Seq<u8> {
    seq![73u8, 72u8, 68u8, 82u8]
}

/// Big-endian 32-bit integer stored at `s[i..i + 4]`.
pub open spec fn be_u32_at(s: Seq<u8>, i: int) -> u32 {
    (s[i] as int * 0x100_0000 + s[i + 1] as int * 0x1_0000 + s[i + 2] as int * 0x100
        + s[i + 3] as int) as u32
}

/// Width and height from the IHDR chunk, when the bytes start like a PNG
/// whose first chunk is IHDR.
pub open spec fn png_dimensions(s: Seq<u8>) -> Option<(u32, u32)> {
    if s.len() >= 24 && s.subrange(0, 8) == png_signature() && s.subrange(12, 16) == ihdr_tag() {
        Some((be_u32_at(s, 16), be_u32_at(s, 20)))
    } else {
        None
    }
}

fn read_be_u32(s: &[u8], i: usize) -> (r: u32)
    requires
        i + 4 <= s@.len(),
    ensures
        r == be_u32_at(s@, i as int),
{
    let a = s[i] as u32;
    let b = s[i + 1] as u32;
    let c = s[i + 2] as u32;
    let d = s[i + 3] as u32;
    a * 0x100_0000 + b * 0x1_0000 + c * 0x100 + d
}

/// PNG IHDR dimensions, or None if not a PNG.
pub fn png_size(png: &[u8]) -> (r: Option<(u32, u32)>)
    ensures
        r == png_dimensions(png@),
{
    if png.len() < 24 {
        return None;
    }
    let sig: [u8; 8] = [137, 80, 78, 71, 13, 10, 26, 10];
    let tag: [u8; 4] = [73, 72, 68, 82];
    let mut i: usize = 0;
    while i < 8
        invariant
            0 <= i <= 8,
            png@.len() >= 24,
            sig@ == png_signature(),
            png@.subrange(0, i as int) == png_signature().subrange(0, i as int),
        decreases 8 - i,
    {
        if png[i] != sig[i] {
            assert(png@.subrange(0, 8)[i as int] != png_signature()[i as int]);
            return None;
        }
        i = i + 1;
        assert(png@.subrange(0, i as int) =~= png_signature().subrange(0, i as int));
    }
    let mut j: usize = 0;
    while j < 4
        invariant
            0 <= j <= 4,
            png@.len() >= 24,
            tag@ == ihdr_tag(),
            png@.subrange(12, 12 + j) == ihdr_tag().subrange(0, j as int),
        decreases 4 - j,
    {
        if png[12 + j] != tag[j] {
            assert(png@.subrange(12, 16)[j as int] != ihdr_tag()[j as int]);
            return None;
        }
        j = j + 1;
        assert(png@.subrange(12, 12 + j) =~= ihdr_tag().subrange(0, j as int));
    }
    assert(png@.subrange(0, 8) =~= png_signature());
    assert(png@.subrange(12, 16) =~= ihdr_tag());
    Some((read_be_u32(png, 16), read_be_u32(png, 20)))
}

} // verus!

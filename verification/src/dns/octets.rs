//! Network byte order for the fixed-width fields of a message.

use vstd::prelude::*;

verus! {

/// The two octets of `x`, most significant first.
pub open spec fn be16(x: u16) -> Seq<u8> {
    seq![(x / 256) as u8, (x % 256) as u8]
}

/// The four octets of `x`, most significant first.
pub open spec fn be32(x: u32) -> Seq<u8> {
    seq![
        (x / 0x100_0000) as u8,
        (x / 0x1_0000 % 256) as u8,
        (x / 256 % 256) as u8,
        (x % 256) as u8,
    ]
}

/// Reading the two octets back as a base-256 number gives `x` again.
pub proof fn lemma_be16_value(x: u16)
    ensures
        be16(x).len() == 2,
        be16(x)[0] * 256 + be16(x)[1] == x,
{
}

/// Reading the four octets back as a base-256 number gives `x` again.
pub proof fn lemma_be32_value(x: u32)
    ensures
        be32(x).len() == 4,
        be32(x)[0] * 0x100_0000 + be32(x)[1] * 0x1_0000 + be32(x)[2] * 256 + be32(x)[3] == x,
{
}

/// Big-endian octets of a 16-bit value.
pub fn u16_to_be_bytes(x: u16) -> (b: [u8; 2])
    ensures
        b@ == be16(x),
{
    let b = [(x / 256) as u8, (x % 256) as u8];
    assert(b@ =~= be16(x));
    b
}

/// Big-endian octets of a 32-bit value.
pub fn u32_to_be_bytes(x: u32) -> (b: [u8; 4])
    ensures
        b@ == be32(x),
{
    let b = [
        (x / 0x100_0000) as u8,
        (x / 0x1_0000 % 256) as u8,
        (x / 256 % 256) as u8,
        (x % 256) as u8,
    ];
    assert(b@ =~= be32(x));
    b
}

/// Appends `src` to `out`.
pub fn append(out: &mut Vec<u8>, src: &[u8])
    ensures
        final(out)@ == old(out)@ + src@,
{
    out.extend_from_slice(src);
    assert(out@ =~= old(out)@ + src@);
}

} // verus!

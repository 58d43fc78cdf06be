//! The flag word of the header and its named bit ranges.

use super::octets::{be16, u16_to_be_bytes};
use super::Response;
use std::marker::PhantomData;
use vstd::prelude::*;

verus! {

/// Query (0) or response (1): the most significant bit.
pub const QR: u16 = 0x8000;

/// Kind of query: the four bits below `QR`.
pub const OPCODE: u16 = 0x7800;

/// Authoritative answer.
pub const AA: u16 = 0x0400;

/// Truncation.
pub const TC: u16 = 0x0200;

/// Recursion desired.
pub const RD: u16 = 0x0100;

/// Recursion available.
pub const RA: u16 = 0x0080;

/// Reserved: three bits.
pub const Z: u16 = 0x0070;

/// Response code: the four least significant bits.
pub const RCODE: u16 = 0x000f;

/// The flag word read as its fields, from the most significant bit down:
/// QR (1 bit), OPCODE (4), AA (1), TC (1), RD (1), RA (1), Z (3), RCODE (4).
pub struct FlagFields {
    /// Response (true) or query (false).
    pub qr: bool,
    /// Kind of query, in four bits.
    pub opcode: u8,
    /// Authoritative answer.
    pub aa: bool,
    /// Truncation.
    pub tc: bool,
    /// Recursion desired.
    pub rd: bool,
    /// Recursion available.
    pub ra: bool,
    /// Reserved, in three bits.
    pub z: u8,
    /// Response code, in four bits.
    pub rcode: u8,
}

impl FlagFields {
    /// Every field fits in its bit range.
    pub open spec fn in_range(self) -> bool {
        self.opcode < 16 && self.z < 8 && self.rcode < 16
    }

    /// The word that holds these fields, each at its place.
    pub open spec fn word(self) -> int {
        (if self.qr { 0x8000int } else { 0 })
            + self.opcode * 0x800
            + (if self.aa { 0x400int } else { 0 })
            + (if self.tc { 0x200int } else { 0 })
            + (if self.rd { 0x100int } else { 0 })
            + (if self.ra { 0x80int } else { 0 })
            + self.z * 0x10
            + self.rcode
    }
}

/// The fields that a flag word holds.
pub open spec fn fields_of(word: u16) -> FlagFields {
    FlagFields {
        qr: word & QR != 0,
        opcode: ((word & OPCODE) >> 11) as u8,
        aa: word & AA != 0,
        tc: word & TC != 0,
        rd: word & RD != 0,
        ra: word & RA != 0,
        z: ((word & Z) >> 4) as u8,
        rcode: (word & RCODE) as u8,
    }
}

/// The fields of a response that reports nothing else: QR set, all else zero.
pub open spec fn response_fields() -> FlagFields {
    FlagFields {
        qr: true,
        opcode: 0,
        aa: false,
        tc: false,
        rd: false,
        ra: false,
        z: 0,
        rcode: 0,
    }
}

/// A flag word is determined by its fields: they are in range and pack to
/// the word again.
pub proof fn lemma_fields_pack(word: u16)
    ensures
        fields_of(word).in_range(),
        fields_of(word).word() == word,
{
    assert((word & 0x8000) + (word & 0x7800) + (word & 0x0400) + (word & 0x0200) + (word & 0x0100)
        + (word & 0x0080) + (word & 0x0070) + (word & 0x000f) == word) by (bit_vector);
    assert(word & 0x8000 == 0 || word & 0x8000 == 0x8000) by (bit_vector);
    assert(word & 0x0400 == 0 || word & 0x0400 == 0x0400) by (bit_vector);
    assert(word & 0x0200 == 0 || word & 0x0200 == 0x0200) by (bit_vector);
    assert(word & 0x0100 == 0 || word & 0x0100 == 0x0100) by (bit_vector);
    assert(word & 0x0080 == 0 || word & 0x0080 == 0x0080) by (bit_vector);
    assert(((word & 0x7800) >> 11) < 16 && ((word & 0x7800) >> 11) * 0x800 == word & 0x7800)
        by (bit_vector);
    assert(((word & 0x0070) >> 4) < 8 && ((word & 0x0070) >> 4) * 0x10 == word & 0x0070)
        by (bit_vector);
    assert(word & 0x000f < 16) by (bit_vector);
}

/// Fields in range are the fields of the word they pack to.
pub proof fn lemma_pack_fields(fields: FlagFields)
    requires
        fields.in_range(),
    ensures
        0 <= fields.word() <= u16::MAX,
        fields_of(fields.word() as u16) == fields,
{
    let q: u16 = if fields.qr { 1 } else { 0 };
    let o: u16 = fields.opcode as u16;
    let a: u16 = if fields.aa { 1 } else { 0 };
    let t: u16 = if fields.tc { 1 } else { 0 };
    let d: u16 = if fields.rd { 1 } else { 0 };
    let v: u16 = if fields.ra { 1 } else { 0 };
    let z: u16 = fields.z as u16;
    let r: u16 = fields.rcode as u16;
    let w: u16 = fields.word() as u16;
    assert(w == q * 0x8000 + o * 0x800 + a * 0x400 + t * 0x200 + d * 0x100 + v * 0x80 + z * 0x10
        + r);
    assert({
        &&& (w & 0x8000 != 0) == (q == 1)
        &&& (w & 0x7800) >> 11 == o
        &&& (w & 0x0400 != 0) == (a == 1)
        &&& (w & 0x0200 != 0) == (t == 1)
        &&& (w & 0x0100 != 0) == (d == 1)
        &&& (w & 0x0080 != 0) == (v == 1)
        &&& (w & 0x0070) >> 4 == z
        &&& w & 0x000f == r
    }) by (bit_vector)
        requires
            q <= 1,
            o < 16,
            a <= 1,
            t <= 1,
            d <= 1,
            v <= 1,
            z < 8,
            r < 16,
            w == q * 0x8000 + o * 0x800 + a * 0x400 + t * 0x200 + d * 0x100 + v * 0x80 + z * 0x10
                + r,
    ;
}

/// The header's flags, for a message of direction `Dir`.
#[derive(Debug)]
pub struct Flags<Dir>(u16, PhantomData<Dir>);

impl<Dir> Clone for Flags<Dir> {
    fn clone(&self) -> (r: Self)
        ensures
            r == *self,
    {
        Self(self.0, PhantomData)
    }
}

impl<Dir> Copy for Flags<Dir> {

}

impl<Dir> View for Flags<Dir> {
    type V = FlagFields;

    /// The fields of the flag word.
    open spec fn view(&self) -> FlagFields {
        fields_of(self.word())
    }
}

impl Flags<Response> {
    /// The flags of a response: QR set, every other field zero.
    pub fn new() -> (f: Self)
        ensures
            f.word() == QR,
            f@ == response_fields(),
    {
        proof {
            lemma_pack_fields(response_fields());
        }
        Self(QR, PhantomData)
    }
}

impl<Dir> Flags<Dir> {
    /// The flag word.
    pub closed spec fn word(&self) -> u16 {
        self.0
    }

    /// The flag word in network byte order.
    pub fn to_be_bytes(&self) -> (b: [u8; 2])
        ensures
            b@ == be16(self.word()),
    {
        u16_to_be_bytes(self.0)
    }
}

} // verus!

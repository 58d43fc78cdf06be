//! A header whose flags can be set field by field, for either direction.

use crate::dns::flags::{
    fields_of, lemma_fields_pack, FlagFields, AA, OPCODE, QR, RA, RCODE, RD, TC, Z,
};
use crate::dns::header::HeaderView;
use crate::dns::octets::{be16, u16_to_be_bytes};
use vstd::prelude::*;

verus! {

/// The fields of a flag word that holds nothing.
pub open spec fn no_fields() -> FlagFields {
    FlagFields {
        qr: false,
        opcode: 0,
        aa: false,
        tc: false,
        rd: false,
        ra: false,
        z: 0,
        rcode: 0,
    }
}

/// The flag word of a header.
#[derive(Debug, Clone, Copy)]
pub struct Flags(u16);

impl View for Flags {
    type V = FlagFields;

    /// The fields of the flag word.
    open spec fn view(&self) -> FlagFields {
        fields_of(self.word())
    }
}

impl Flags {
    /// The flag word.
    pub closed spec fn word(&self) -> u16 {
        self.0
    }

    /// Flags with every field zero.
    pub fn new() -> (f: Self)
        ensures
            f.word() == 0,
            f@ == no_fields(),
    {
        assert(fields_of(0) == no_fields()) by {
            assert(0u16 & 0x8000 == 0 && (0u16 & 0x7800) >> 11 == 0 && 0u16 & 0x0400 == 0 && 0u16
                & 0x0200 == 0 && 0u16 & 0x0100 == 0 && 0u16 & 0x0080 == 0 && (0u16 & 0x0070) >> 4
                == 0 && 0u16 & 0x000f == 0) by (bit_vector);
        }
        Self(0)
    }

    /// Sets the query/response field: response if `is_response`, query if not.
    pub fn set_qr(&mut self, is_response: bool)
        ensures
            final(self)@ == (FlagFields { qr: is_response, ..old(self)@ }),
    {
        let w = self.0;
        if is_response {
            self.0 = w | QR;
            assert({
                let n = w | 0x8000;
                &&& n & 0x8000 != 0
                &&& n & 0x7800 == w & 0x7800
                &&& n & 0x0400 == w & 0x0400
                &&& n & 0x0200 == w & 0x0200
                &&& n & 0x0100 == w & 0x0100
                &&& n & 0x0080 == w & 0x0080
                &&& n & 0x0070 == w & 0x0070
                &&& n & 0x000f == w & 0x000f
            }) by (bit_vector);
        } else {
            self.0 = w & !QR;
            assert({
                let n = w & !0x8000u16;
                &&& n & 0x8000 == 0
                &&& n & 0x7800 == w & 0x7800
                &&& n & 0x0400 == w & 0x0400
                &&& n & 0x0200 == w & 0x0200
                &&& n & 0x0100 == w & 0x0100
                &&& n & 0x0080 == w & 0x0080
                &&& n & 0x0070 == w & 0x0070
                &&& n & 0x000f == w & 0x000f
            }) by (bit_vector);
        }
    }

    /// Sets the operation code to the four low bits of `opcode`.
    pub fn set_opcode(&mut self, opcode: u8)
        ensures
            final(self)@ == (FlagFields { opcode: opcode % 16, ..old(self)@ }),
    {
        let w = self.0;
        let v = opcode as u16;
        self.0 = (w & !OPCODE) | ((v & 0xF) << 11);
        assert({
            let n = (w & !0x7800u16) | ((v & 0xF) << 11);
            &&& n & 0x8000 == w & 0x8000
            &&& (n & 0x7800) >> 11 == v % 16
            &&& n & 0x0400 == w & 0x0400
            &&& n & 0x0200 == w & 0x0200
            &&& n & 0x0100 == w & 0x0100
            &&& n & 0x0080 == w & 0x0080
            &&& n & 0x0070 == w & 0x0070
            &&& n & 0x000f == w & 0x000f
        }) by (bit_vector);
    }

    /// Sets the authoritative-answer field.
    pub fn set_aa(&mut self, authoritative: bool)
        ensures
            final(self)@ == (FlagFields { aa: authoritative, ..old(self)@ }),
    {
        let w = self.0;
        if authoritative {
            self.0 = w | AA;
            assert({
                let n = w | 0x0400;
                &&& n & 0x8000 == w & 0x8000
                &&& n & 0x7800 == w & 0x7800
                &&& n & 0x0400 != 0
                &&& n & 0x0200 == w & 0x0200
                &&& n & 0x0100 == w & 0x0100
                &&& n & 0x0080 == w & 0x0080
                &&& n & 0x0070 == w & 0x0070
                &&& n & 0x000f == w & 0x000f
            }) by (bit_vector);
        } else {
            self.0 = w & !AA;
            assert({
                let n = w & !0x0400u16;
                &&& n & 0x8000 == w & 0x8000
                &&& n & 0x7800 == w & 0x7800
                &&& n & 0x0400 == 0
                &&& n & 0x0200 == w & 0x0200
                &&& n & 0x0100 == w & 0x0100
                &&& n & 0x0080 == w & 0x0080
                &&& n & 0x0070 == w & 0x0070
                &&& n & 0x000f == w & 0x000f
            }) by (bit_vector);
        }
    }

    /// Sets the recursion-desired field.
    pub fn set_rd(&mut self, recursion_desired: bool)
        ensures
            final(self)@ == (FlagFields { rd: recursion_desired, ..old(self)@ }),
    {
        let w = self.0;
        if recursion_desired {
            self.0 = w | RD;
            assert({
                let n = w | 0x0100;
                &&& n & 0x8000 == w & 0x8000
                &&& n & 0x7800 == w & 0x7800
                &&& n & 0x0400 == w & 0x0400
                &&& n & 0x0200 == w & 0x0200
                &&& n & 0x0100 != 0
                &&& n & 0x0080 == w & 0x0080
                &&& n & 0x0070 == w & 0x0070
                &&& n & 0x000f == w & 0x000f
            }) by (bit_vector);
        } else {
            self.0 = w & !RD;
            assert({
                let n = w & !0x0100u16;
                &&& n & 0x8000 == w & 0x8000
                &&& n & 0x7800 == w & 0x7800
                &&& n & 0x0400 == w & 0x0400
                &&& n & 0x0200 == w & 0x0200
                &&& n & 0x0100 == 0
                &&& n & 0x0080 == w & 0x0080
                &&& n & 0x0070 == w & 0x0070
                &&& n & 0x000f == w & 0x000f
            }) by (bit_vector);
        }
    }

    /// Sets the truncation field.
    pub fn set_tc(&mut self, truncated: bool)
        ensures
            final(self)@ == (FlagFields { tc: truncated, ..old(self)@ }),
    {
        let w = self.0;
        if truncated {
            self.0 = w | TC;
            assert({
                let n = w | 0x0200;
                &&& n & 0x8000 == w & 0x8000
                &&& n & 0x7800 == w & 0x7800
                &&& n & 0x0400 == w & 0x0400
                &&& n & 0x0200 != 0
                &&& n & 0x0100 == w & 0x0100
                &&& n & 0x0080 == w & 0x0080
                &&& n & 0x0070 == w & 0x0070
                &&& n & 0x000f == w & 0x000f
            }) by (bit_vector);
        } else {
            self.0 = w & !TC;
            assert({
                let n = w & !0x0200u16;
                &&& n & 0x8000 == w & 0x8000
                &&& n & 0x7800 == w & 0x7800
                &&& n & 0x0400 == w & 0x0400
                &&& n & 0x0200 == 0
                &&& n & 0x0100 == w & 0x0100
                &&& n & 0x0080 == w & 0x0080
                &&& n & 0x0070 == w & 0x0070
                &&& n & 0x000f == w & 0x000f
            }) by (bit_vector);
        }
    }

    /// Sets the recursion-available field.
    pub fn set_ra(&mut self, recursion_available: bool)
        ensures
            final(self)@ == (FlagFields { ra: recursion_available, ..old(self)@ }),
    {
        let w = self.0;
        if recursion_available {
            self.0 = w | RA;
            assert({
                let n = w | 0x0080;
                &&& n & 0x8000 == w & 0x8000
                &&& n & 0x7800 == w & 0x7800
                &&& n & 0x0400 == w & 0x0400
                &&& n & 0x0200 == w & 0x0200
                &&& n & 0x0100 == w & 0x0100
                &&& n & 0x0080 != 0
                &&& n & 0x0070 == w & 0x0070
                &&& n & 0x000f == w & 0x000f
            }) by (bit_vector);
        } else {
            self.0 = w & !RA;
            assert({
                let n = w & !0x0080u16;
                &&& n & 0x8000 == w & 0x8000
                &&& n & 0x7800 == w & 0x7800
                &&& n & 0x0400 == w & 0x0400
                &&& n & 0x0200 == w & 0x0200
                &&& n & 0x0100 == w & 0x0100
                &&& n & 0x0080 == 0
                &&& n & 0x0070 == w & 0x0070
                &&& n & 0x000f == w & 0x000f
            }) by (bit_vector);
        }
    }

    /// Sets the reserved field to the three low bits of `reserved`.
    pub fn set_z(&mut self, reserved: u8)
        ensures
            final(self)@ == (FlagFields { z: reserved % 8, ..old(self)@ }),
    {
        let w = self.0;
        let v = reserved as u16;
        self.0 = (w & !Z) | ((v & 0x7) << 4);
        assert({
            let n = (w & !0x0070u16) | ((v & 0x7) << 4);
            &&& n & 0x8000 == w & 0x8000
            &&& n & 0x7800 == w & 0x7800
            &&& n & 0x0400 == w & 0x0400
            &&& n & 0x0200 == w & 0x0200
            &&& n & 0x0100 == w & 0x0100
            &&& n & 0x0080 == w & 0x0080
            &&& (n & 0x0070) >> 4 == v % 8
            &&& n & 0x000f == w & 0x000f
        }) by (bit_vector);
    }

    /// Sets the response code to the four low bits of `rcode`.
    pub fn set_rcode(&mut self, rcode: u8)
        ensures
            final(self)@ == (FlagFields { rcode: rcode % 16, ..old(self)@ }),
    {
        let w = self.0;
        let v = rcode as u16;
        self.0 = (w & !RCODE) | (v & 0xF);
        assert({
            let n = (w & !0x000fu16) | (v & 0xF);
            &&& n & 0x8000 == w & 0x8000
            &&& n & 0x7800 == w & 0x7800
            &&& n & 0x0400 == w & 0x0400
            &&& n & 0x0200 == w & 0x0200
            &&& n & 0x0100 == w & 0x0100
            &&& n & 0x0080 == w & 0x0080
            &&& n & 0x0070 == w & 0x0070
            &&& n & 0x000f == v % 16
        }) by (bit_vector);
    }

    /// The flag word in network byte order.
    pub fn to_be_bytes(self) -> (b: [u8; 2])
        ensures
            b@ == be16(self.word()),
    {
        u16_to_be_bytes(self.0)
    }
}

impl Default for Flags {
    /// Flags with every field zero.
    fn default() -> (f: Self)
        ensures
            f.word() == 0,
            f@ == no_fields(),
    {
        Self::new()
    }
}

impl From<Flags> for u16 {
    /// The flag word of `flags`.
    fn from(flags: Flags) -> (word: u16) {
        flags.0
    }
}

impl vstd::std_specs::convert::FromSpecImpl<Flags> for u16 {
    open spec fn obeys_from_spec() -> bool {
        true
    }

    open spec fn from_spec(flags: Flags) -> u16 {
        flags.word()
    }
}

/// A header as it is sent: identifier, flags and the four section counts.
#[derive(Debug, Clone, Copy)]
pub struct DNSHeader {
    pub id: u16,
    pub flags: Flags,
    pub qdcount: u16,
    pub ancount: u16,
    pub nscount: u16,
    pub arcount: u16,
}

impl View for DNSHeader {
    type V = HeaderView;

    open spec fn view(&self) -> HeaderView {
        HeaderView {
            id: self.id,
            flags: self.flags.word(),
            qdcount: self.qdcount,
            ancount: self.ancount,
            nscount: self.nscount,
            arcount: self.arcount,
        }
    }
}

impl DNSHeader {
    /// The number of octets of an encoded header.
    pub const SIZE: usize = 12;

    /// A header with the given identifier and flags, and no entries in any
    /// section.
    pub fn new(id: u16, flags: Flags) -> (h: Self)
        ensures
            h == (DNSHeader { id, flags, qdcount: 0, ancount: 0, nscount: 0, arcount: 0 }),
    {
        Self { id, flags, qdcount: 0, ancount: 0, nscount: 0, arcount: 0 }
    }

    /// The header of a query that asks for recursion: only the
    /// recursion-desired field is set.
    pub fn query(id: u16) -> (h: Self)
        ensures
            h.id == id,
            h.flags@ == (FlagFields { rd: true, ..no_fields() }),
            h.flags.word() == RD,
            h.qdcount == 0,
            h.ancount == 0,
            h.nscount == 0,
            h.arcount == 0,
    {
        let mut flags = Flags::new();
        flags.set_rd(true);
        proof {
            lemma_fields_pack(flags.word());
        }
        Self::new(id, flags)
    }

    /// The header of a response with the given response code: the
    /// query/response field is set, and the response code is the four low
    /// bits of `rcode`.
    pub fn response(id: u16, rcode: u8) -> (h: Self)
        ensures
            h.id == id,
            h.flags@ == (FlagFields { qr: true, rcode: rcode % 16, ..no_fields() }),
            h.flags.word() == QR + rcode % 16,
            h.qdcount == 0,
            h.ancount == 0,
            h.nscount == 0,
            h.arcount == 0,
    {
        let mut flags = Flags::new();
        flags.set_qr(true);
        flags.set_rcode(rcode);
        proof {
            lemma_fields_pack(flags.word());
        }
        Self::new(id, flags)
    }

    /// The header on the wire: twelve octets, the six fields in order, each
    /// in network byte order.
    pub fn to_bytes(&self) -> (b: [u8; 12])
        ensures
            b@ == self@.wire(),
    {
        let id = u16_to_be_bytes(self.id);
        let flags = self.flags.to_be_bytes();
        let qdcount = u16_to_be_bytes(self.qdcount);
        let ancount = u16_to_be_bytes(self.ancount);
        let nscount = u16_to_be_bytes(self.nscount);
        let arcount = u16_to_be_bytes(self.arcount);
        let b = [
            id[0],
            id[1],
            flags[0],
            flags[1],
            qdcount[0],
            qdcount[1],
            ancount[0],
            ancount[1],
            nscount[0],
            nscount[1],
            arcount[0],
            arcount[1],
        ];
        assert(b@ =~= self@.wire());
        b
    }
}

} // verus!

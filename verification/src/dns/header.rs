//! The fixed twelve-octet header of a message.

use super::flags::{Flags, QR};
use super::octets::{be16, u16_to_be_bytes};
use super::Response;
use vstd::prelude::*;

verus! {

/// The number of octets of an encoded header.
pub const HEADER_LEN: usize = 12;

/// What a header holds: the transaction identifier, the flag word and the
/// number of entries of each of the four sections.
pub struct HeaderView {
    pub id: u16,
    pub flags: u16,
    pub qdcount: u16,
    pub ancount: u16,
    pub nscount: u16,
    pub arcount: u16,
}

impl HeaderView {
    /// The header on the wire: the six fields in order, each in network byte
    /// order.
    pub open spec fn wire(self) -> Seq<u8> {
        be16(self.id) + be16(self.flags) + be16(self.qdcount) + be16(self.ancount) + be16(
            self.nscount,
        ) + be16(self.arcount)
    }
}

/// A header is always twelve octets long.
pub proof fn lemma_header_len(h: HeaderView)
    ensures
        h.wire().len() == HEADER_LEN,
{
}

/// The header of a message of direction `Dir`.
#[derive(Debug)]
pub struct Header<Dir> {
    id: u16,
    flags: Flags<Dir>,
    qdcount: u16,
    ancount: u16,
    nscount: u16,
    arcount: u16,
}

impl<Dir> Clone for Header<Dir> {
    fn clone(&self) -> (r: Self)
        ensures
            r == *self,
    {
        Self {
            id: self.id,
            flags: self.flags,
            qdcount: self.qdcount,
            ancount: self.ancount,
            nscount: self.nscount,
            arcount: self.arcount,
        }
    }
}

impl<Dir> Copy for Header<Dir> {

}

impl<Dir> View for Header<Dir> {
    type V = HeaderView;

    closed spec fn view(&self) -> HeaderView {
        HeaderView {
            id: self.id,
            flags: self.flags.word(),
            qdcount: self.qdcount,
            ancount: self.ancount,
            nscount: self.nscount,
            arcount: self.arcount,
        }
    }
}

impl Header<Response> {
    /// The header of a response with the given identifier: QR set, every
    /// other flag zero, and no entries in any section.
    pub fn response(id: u16) -> (h: Self)
        ensures
            h@ == (HeaderView { id, flags: QR, qdcount: 0, ancount: 0, nscount: 0, arcount: 0 }),
    {
        let flags = Flags::<Response>::new();
        Self { id, flags, qdcount: 0, ancount: 0, nscount: 0, arcount: 0 }
    }
}

impl<Dir> Header<Dir> {
    /// Records how many questions and answers follow the header. Only the
    /// message that owns the header does so, from its own sections.
    pub(crate) fn set_counts(&mut self, qdcount: u16, ancount: u16)
        ensures
            final(self)@ == (HeaderView { qdcount, ancount, ..old(self)@ }),
    {
        self.qdcount = qdcount;
        self.ancount = ancount;
    }

    /// The header on the wire.
    pub fn to_be_bytes(&self) -> (b: [u8; 12])
        ensures
            b@ == self@.wire(),
    {
        let id = u16_to_be_bytes(self.id);
        let flags = self.flags.to_be_bytes();
        let qdcount = u16_to_be_bytes(self.qdcount);
        let ancount = u16_to_be_bytes(self.ancount);
        let nscount = u16_to_be_bytes(self.nscount);
        let arcount = u16_to_be_bytes(self.arcount);
        let b = [
            id[0],
            id[1],
            flags[0],
            flags[1],
            qdcount[0],
            qdcount[1],
            ancount[0],
            ancount[1],
            nscount[0],
            nscount[1],
            arcount[0],
            arcount[1],
        ];
        assert(b@ =~= self@.wire());
        b
    }
}

} // verus!

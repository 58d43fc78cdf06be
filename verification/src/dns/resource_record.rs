//! One entry of the answer section.

use super::classes::RClass;
use super::domain_name::{encode_labels, encoded_len, lemma_encoded_len, well_formed, DomainName};
use super::octets::{append, be16, be32, u16_to_be_bytes, u32_to_be_bytes};
use super::types::RType;
use vstd::prelude::*;

verus! {

/// What a resource record holds: the labels of the owner's name, type, class,
/// time to live in seconds, the announced length of the data, and the data.
pub struct RecordView {
    pub name: Seq<Seq<u8>>,
    pub rtype: RType,
    pub rclass: RClass,
    pub ttl: u32,
    pub rdlength: u16,
    pub rdata: Seq<u8>,
}

impl RecordView {
    /// The announced length is the length of the data, as far as sixteen
    /// bits can tell it.
    pub open spec fn length_derived(self) -> bool {
        self.rdlength == self.rdata.len() % 0x1_0000
    }

    /// The record on the wire: the encoded name, the codes of type and class,
    /// the time to live, the announced length, each in network byte order,
    /// and the data as it is.
    pub open spec fn wire(self) -> Seq<u8> {
        encode_labels(self.name) + be16(self.rtype.code()) + be16(self.rclass.code()) + be32(
            self.ttl,
        ) + be16(self.rdlength) + self.rdata
    }

    /// Where the two octets of the announced length stand in `wire()`.
    pub open spec fn rdlength_at(self) -> int {
        encoded_len(self.name) as int + 8
    }
}

/// The sixteen bits that a length is cut down to.
pub open spec fn low16(len: nat) -> u16 {
    (len % 0x1_0000) as u16
}

/// In an encoded record whose data sixteen bits can count, the announced
/// length is the number of octets of data that follow it, and those octets
/// are the data.
pub proof fn lemma_rdlength_is_rdata_len(r: RecordView)
    requires
        r.length_derived(),
        r.rdata.len() <= u16::MAX,
    ensures
        r.wire().len() == r.rdlength_at() + 2 + r.rdata.len(),
        r.wire()[r.rdlength_at()] * 256 + r.wire()[r.rdlength_at() + 1] == r.rdata.len(),
        r.wire().subrange(r.rdlength_at() + 2, r.wire().len() as int) == r.rdata,
{
    lemma_encoded_len(r.name);
    let head = encode_labels(r.name) + be16(r.rtype.code()) + be16(r.rclass.code()) + be32(r.ttl);
    assert(head.len() == r.rdlength_at());
    assert(r.wire() =~= head + be16(r.rdlength) + r.rdata);
    assert(r.wire().subrange(r.rdlength_at() + 2, r.wire().len() as int) =~= r.rdata);
}

/// A resource record: a name bound to typed data with a time to live.
#[derive(Debug)]
pub struct ResourceRecord {
    name: DomainName,
    rtype: RType,
    rclass: RClass,
    ttl: u32,
    length: u16,
    data: Vec<u8>,
}

impl View for ResourceRecord {
    type V = RecordView;

    closed spec fn view(&self) -> RecordView {
        RecordView {
            name: self.name@,
            rtype: self.rtype,
            rclass: self.rclass,
            ttl: self.ttl,
            rdlength: self.length,
            rdata: self.data@,
        }
    }
}

impl Clone for ResourceRecord {
    /// A second record with the same content.
    fn clone(&self) -> (r: Self)
        ensures
            r@ == self@,
    {
        proof {
            use_type_invariant(self);
        }
        let data = self.data.clone();
        assert(data@ =~= self.data@);
        ResourceRecord {
            name: self.name.clone(),
            rtype: self.rtype,
            rclass: self.rclass,
            ttl: self.ttl,
            length: self.length,
            data,
        }
    }
}

impl ResourceRecord {
    #[verifier::type_invariant]
    spec fn valid(&self) -> bool {
        self@.length_derived()
    }

    /// A record for `name`. The announced length is taken from `data`: its
    /// length, cut down to sixteen bits.
    pub fn new(name: DomainName, rtype: RType, rclass: RClass, ttl: u32, data: Vec<u8>) -> (r:
        Self)
        ensures
            r@ == (RecordView {
                name: name@,
                rtype,
                rclass,
                ttl,
                rdlength: low16(data@.len()),
                rdata: data@,
            }),
            data@.len() <= u16::MAX ==> r@.rdlength == data@.len(),
    {
        let len = data.len();
        let length = #[verifier::truncate] (len as u16);
        assert(length == len % 0x1_0000) by (bit_vector)
            requires
                length == len as u16,
        ;
        ResourceRecord { name, rtype, rclass, ttl, length, data }
    }

    /// The record on the wire.
    pub fn to_be_bytes(&self) -> (bytes: Vec<u8>)
        ensures
            bytes@ == self@.wire(),
            well_formed(self@.name),
            self@.length_derived(),
    {
        proof {
            use_type_invariant(self);
        }
        let mut bytes = self.name.to_be_bytes();
        let rtype = self.rtype.to_be_bytes();
        let rclass = self.rclass.to_be_bytes();
        let ttl = u32_to_be_bytes(self.ttl);
        let length = u16_to_be_bytes(self.length);
        append(&mut bytes, rtype.as_slice());
        append(&mut bytes, rclass.as_slice());
        append(&mut bytes, ttl.as_slice());
        append(&mut bytes, length.as_slice());
        append(&mut bytes, self.data.as_slice());
        bytes
    }
}

} // verus!

//! One entry of the question section.

use super::classes::QClass;
use super::domain_name::{encode_labels, well_formed, DomainName};
use super::octets::{append, be16};
use super::types::QType;
use vstd::prelude::*;

verus! {

/// What a question holds: the labels of the name asked about, the type and
/// the class of the records wanted.
pub struct QuestionView {
    pub name: Seq<Seq<u8>>,
    pub qtype: QType,
    pub qclass: QClass,
}

impl QuestionView {
    /// The question on the wire: the encoded name, then the codes of the type
    /// and of the class, each in network byte order.
    pub open spec fn wire(self) -> Seq<u8> {
        encode_labels(self.name) + be16(self.qtype.code()) + be16(self.qclass.code())
    }
}

/// A question: a name with the type and class of the records wanted.
#[derive(Debug)]
pub struct Question {
    qname: DomainName,
    qtype: QType,
    qclass: QClass,
}

impl View for Question {
    type V = QuestionView;

    closed spec fn view(&self) -> QuestionView {
        QuestionView { name: self.qname@, qtype: self.qtype, qclass: self.qclass }
    }
}

impl Clone for Question {
    /// A second question with the same content.
    fn clone(&self) -> (r: Self)
        ensures
            r@ == self@,
    {
        Question { qname: self.qname.clone(), qtype: self.qtype, qclass: self.qclass }
    }
}

impl Question {
    /// A question about `qname`.
    pub fn new(qname: DomainName, qtype: QType, qclass: QClass) -> (q: Self)
        ensures
            q@ == (QuestionView { name: qname@, qtype, qclass }),
    {
        Self { qname, qtype, qclass }
    }

    /// The question on the wire.
    pub fn to_be_bytes(&self) -> (bytes: Vec<u8>)
        ensures
            bytes@ == self@.wire(),
            well_formed(self@.name),
    {
        let mut bytes = self.qname.to_be_bytes();
        let qtype = self.qtype.to_be_bytes();
        let qclass = self.qclass.to_be_bytes();
        append(&mut bytes, qtype.as_slice());
        append(&mut bytes, qclass.as_slice());
        bytes
    }
}

} // verus!

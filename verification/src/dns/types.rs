//! TYPE and QTYPE code points.

use super::octets::{be16, u16_to_be_bytes};
use vstd::prelude::*;

verus! {

/// TYPE values, as they appear in resource records.
#[derive(Debug, Clone, Copy, PartialEq, Eq, Structural)]
pub enum RType {
    /// A host address.
    A,
    /// The canonical name for an alias.
    CNAME,
}

impl RType {
    /// The 16-bit code of this type.
    pub open spec fn code(self) -> u16 {
        match self {
            RType::A => 1,
            RType::CNAME => 5,
        }
    }

    /// The code in network byte order.
    pub fn to_be_bytes(&self) -> (b: [u8; 2])
        ensures
            b@ == be16(self.code()),
    {
        let code: u16 = match self {
            RType::A => 1,
            RType::CNAME => 5,
        };
        u16_to_be_bytes(code)
    }
}

/// QTYPE values, as they appear in the question section.
#[derive(Debug, Clone, Copy, PartialEq, Eq, Structural)]
pub enum QType {
    /// A host address.
    A,
    /// The canonical name for an alias.
    CNAME,
    /// A request for a transfer of an entire zone.
    AXFR,
    /// A request for mailbox-related records.
    MAILB,
    /// A request for mail agent records.
    MAILA,
    /// A request for all records.
    ANY,
}

impl QType {
    /// The 16-bit code of this type.
    pub open spec fn code(self) -> u16 {
        match self {
            QType::A => 1,
            QType::CNAME => 5,
            QType::AXFR => 252,
            QType::MAILB => 253,
            QType::MAILA => 254,
            QType::ANY => 255,
        }
    }

    /// The code in network byte order.
    pub fn to_be_bytes(&self) -> (b: [u8; 2])
        ensures
            b@ == be16(self.code()),
    {
        let code: u16 = match self {
            QType::A => 1,
            QType::CNAME => 5,
            QType::AXFR => 252,
            QType::MAILB => 253,
            QType::MAILA => 254,
            QType::ANY => 255,
        };
        u16_to_be_bytes(code)
    }
}

/// The query type that asks for exactly the records of type `t`.
pub open spec fn qtype_of(t: RType) -> QType {
    match t {
        RType::A => QType::A,
        RType::CNAME => QType::CNAME,
    }
}

/// Every TYPE is a valid QTYPE: each record type has a query type with the
/// same code.
pub proof fn lemma_every_type_is_a_qtype(t: RType)
    ensures
        qtype_of(t).code() == t.code(),
{
}

} // verus!

//! CLASS and QCLASS code points.

use super::octets::{be16, u16_to_be_bytes};
use vstd::prelude::*;

verus! {

/// CLASS values, as they appear in resource records.
#[derive(Debug, Clone, Copy, PartialEq, Eq, Structural)]
pub enum RClass {
    /// The Internet.
    IN,
}

impl RClass {
    /// The 16-bit code of this class.
    pub open spec fn code(self) -> u16 {
        match self {
            RClass::IN => 1,
        }
    }

    /// The code in network byte order.
    pub fn to_be_bytes(&self) -> (b: [u8; 2])
        ensures
            b@ == be16(self.code()),
    {
        let code: u16 = match self {
            RClass::IN => 1,
        };
        u16_to_be_bytes(code)
    }
}

/// QCLASS values, as they appear in the question section.
#[derive(Debug, Clone, Copy, PartialEq, Eq, Structural)]
pub enum QClass {
    /// The Internet.
    IN,
    /// Any class.
    Any,
}

impl QClass {
    /// The 16-bit code of this class.
    pub open spec fn code(self) -> u16 {
        match self {
            QClass::IN => 1,
            QClass::Any => 255,
        }
    }

    /// The code in network byte order.
    pub fn to_be_bytes(&self) -> (b: [u8; 2])
        ensures
            b@ == be16(self.code()),
    {
        let code: u16 = match self {
            QClass::IN => 1,
            QClass::Any => 255,
        };
        u16_to_be_bytes(code)
    }
}

/// The query class that asks for exactly the records of class `c`.
pub open spec fn qclass_of(c: RClass) -> QClass {
    match c {
        RClass::IN => QClass::IN,
    }
}

/// Every CLASS is a valid QCLASS: each record class has a query class with
/// the same code.
pub proof fn lemma_every_class_is_a_qclass(c: RClass)
    ensures
        qclass_of(c).code() == c.code(),
{
}

} // verus!

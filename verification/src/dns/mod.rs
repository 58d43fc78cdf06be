//! Typed DNS messages and their encoders.
//!
//! A message is built for one direction, named by a marker type. Only
//! responses can be built: `Message::response` derives the header's counts
//! from the sections it is given, and `to_be_bytes` writes header, questions
//! and answers in that order.

use vstd::prelude::*;

pub mod classes;
pub mod domain_name;
pub mod flags;
pub mod header;
pub mod message;
pub mod octets;
pub mod question;
pub mod resource_record;
pub mod text;
pub mod types;

pub use classes::QClass;
pub use classes::RClass;
pub use domain_name::DomainName;
pub use message::Message;
pub use question::Question;
pub use resource_record::ResourceRecord;
pub use types::QType;
pub use types::RType;

verus! {

/// Marks a message, header or flag word as belonging to a response.
#[derive(Debug, Clone, Copy, PartialEq, Eq)]
pub struct Response;

/// Marks a message, header or flag word as belonging to a query.
#[derive(Debug, Clone, Copy, PartialEq, Eq)]
pub struct Query;

} // verus!

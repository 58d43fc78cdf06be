//! Wire-format encoding of DNS messages.
//!
//! Every type carries a mathematical view, and every encoder is proved to
//! produce exactly the octets that the view's `wire` function describes.
//!
//! - [`dns`] holds the typed message: domain names, questions, resource
//!   records, and a header and flag word that carry the direction of the
//!   message in their type.
//! - [`dns_header`] holds a header for either direction, whose flags are set
//!   field by field.

pub mod dns;
pub mod dns_header;

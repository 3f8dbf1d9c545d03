//! Validation and decomposition of raw HTTP header-block bytes.
//!
//! The crate splits a header block into individual header lines and each
//! line into a field-name / field-value pair, following the header field
//! grammar of RFC 7230 and the core character classes of RFC 5234.

pub mod chars;
pub mod laws;
pub mod parsers;

//! Discovery of the accounts of an AWS organization, with the classification
//! tags that the management account keeps on each of them.
//!
//! The decisions of discovery are verified here; the calls to the service are
//! made by the caller, who hands over what the service answered.

pub mod guarantees;
pub mod org;

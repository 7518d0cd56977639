//! Deployment configuration of the storage-backed services, as plain
//! data.  Reading it from the process environment is edge work.

use vstd::prelude::*;

verus! {

/// The buckets and sender identity one deployment runs with.
#[derive(Debug, Clone, PartialEq, Eq)]
pub struct Config {
    pub environment: String,
    pub public_bucket: String,
    pub private_bucket: String,
    pub from_email: String,
}

} // verus!

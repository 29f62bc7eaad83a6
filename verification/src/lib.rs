//! A content-addressable manifest registry: manifests are stored and found by
//! a mutable tag or by an immutable digest, and deleting by digest removes
//! every tag that names the content while deleting by tag removes one name.

pub mod backend;
pub mod codec;
pub mod descriptor;
pub mod laws;
pub mod manifest;
pub mod memory;
pub mod tags;

use crate::manifest::Status;
use vstd::prelude::*;

verus! {

/// Answers that the registry speaks version 2 of the distribution
/// protocol.
pub fn v2() -> (r: Status)
    ensures
        r == Status::Success,
{
    Status::Success
}

} // verus!

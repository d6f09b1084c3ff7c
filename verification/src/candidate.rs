//! The candidate generator: fresh identifiers drawn from the fixed domain.

use crate::{GroupId, MAX_GROUP_ID};
use vstd::prelude::*;

verus! {

/// Relies on `rand::random`: some `u32` from the process-wide random source;
/// nothing is promised of its value.
#[verifier::external_body]
fn random_u32() -> u32 {
    rand::random::<u32>()
}

/// A fresh candidate identifier, drawn from `[0, MAX_GROUP_ID)`.
pub fn generate_random_group_id() -> (id: GroupId)
    ensures
        id < MAX_GROUP_ID,
{
    random_u32() % MAX_GROUP_ID
}

} // verus!

//! The non-network fragment of the crates-io version checker.
//!
//! The checker fetches the registry's version list through the facade
//! and compares the newest entry against a version requirement; the
//! comparison itself is the requirement library's work, performed by
//! the surrounding application. What stands here is the selection the
//! checker makes on the fetched list.

use vstd::prelude::*;

verus! {

/// The version the checker compares: the first entry of the registry's
/// list, which the registry orders newest first. `None` exactly when
/// the list is empty, which the checker reports as an error.
pub fn latest_version(versions: &Vec<Vec<u8>>) -> (r: Option<&Vec<u8>>)
    ensures
        (match r {
            Some(v) => versions@.len() > 0 && v@ == versions@[0]@,
            None => versions@.len() == 0,
        }),
{
    if versions.len() > 0 {
        Some(&versions[0])
    } else {
        None
    }
}

/// Anchor for this checker's usage examples; the scenarios live in the
/// crate's integration tests.
pub fn tests() {
}

} // verus!

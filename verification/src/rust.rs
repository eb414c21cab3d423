//! The Rust toolchain version checker has no logic of its own to hold
//! here: it reads the active compiler's version and hands it, with the
//! caller's requirement, to the version-requirement library. Both steps
//! happen in the surrounding application; only the checker's test
//! anchor stands in this module.

use vstd::prelude::*;

verus! {

/// Anchor for this checker's usage examples; the scenarios live in the
/// crate's integration tests.
pub fn tests() {
}

} // verus!

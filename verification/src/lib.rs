//! Content-hash fingerprinting of build artifacts and collision-safe
//! rewriting of textual references to the renamed files.
//!
//! The pipeline has two stages. The first walks a directory tree, digests
//! each regular file's bytes, and renames the file to `{stem}.{digest}` or
//! `{stem}.{digest}.{ext}`, recording an old-path to new-path manifest.
//! The second derives a set of textual substitution pairs from the manifest
//! and applies them to every text file as one simultaneous pass, so that no
//! replacement's output is ever re-matched as another pattern's input.
//!
//! Walking the tree, reading and writing files are the caller's concern;
//! this library holds the decisions and the algorithms, stated and proved
//! over the file paths and contents it is handed.

use vstd::prelude::*;

pub mod digest;
pub mod manifest;
pub mod paths;
pub mod replace;
pub mod subst;

verus! {

/// Errors of the substitution stage itself; I/O and encoding failures
/// happen at the caller's edge, before values reach this library.
#[derive(Clone, Copy, PartialEq, Eq, Structural, Debug)]
pub enum Error {
    /// The pattern expander returned lists of different lengths for the old
    /// and the new relative path of one manifest entry, so the variants
    /// cannot be paired positionally.
    ExpanderMismatch,
}

} // verus!

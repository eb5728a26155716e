//! Fatal errors of a migration run.

use vstd::prelude::*;

verus! {

/// A fatal error: the run stops at the first one, no rollback is attempted,
/// and re-running the migration is the recovery path.
#[derive(Debug)]
pub enum MigrationError {
    /// A configured initialization argument item could not be decoded.
    InitCallArgs,
    /// The diff reports an updated library; libraries cannot be upgraded, so
    /// the diff producer violated its contract.
    LibraryUpdate,
    /// A class publication failed for a reason other than the class being
    /// already published; the message of the first such failure.
    DeclareClassError(String),
}

} // verus!

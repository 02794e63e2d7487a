//! The admin tool's command line, as plain values.
use vstd::prelude::*;

verus! {

/// What the admin tool was asked to do, and on which object store.
#[derive(Debug, Clone, PartialEq, Eq)]
pub struct Args {
    pub command: Command,
    /// The object store's bucket.
    pub bucket: String,
}

/// The admin tool's commands.
#[derive(Debug, Clone, PartialEq, Eq)]
pub enum Command {
    /// List the stored shares.
    List,
    /// Delete these shares: descriptor and every block.
    Delete { ids: Vec<String> },
}

} // verus!

//! The commands of the control surface. The surrounding process parses
//! its argument vector into these; the library only defines their shape
//! and carries their plain values.

use vstd::prelude::*;

verus! {

/// One parsed invocation of the control surface.
pub struct Cli {
    pub command: Command,
}

/// The commands the control surface accepts.
pub enum Command {
    /// Replace the tags of an existing post outright.
    Update { id: u32, set_tags: String },
    /// Check for and add new files from the source directory.
    Scan,
    /// Search posts by a tag expression.
    Search { tags: String },
    /// Open (or initialize) the store and start serving commands.
    Start { data_dir: String, src_dir: String, init: bool },
}

} // verus!

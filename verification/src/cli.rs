//! The commands hue accepts.
use vstd::prelude::*;

verus! {

/// A parsed command line.
pub struct Cli {
    pub command: Command,
}

/// What to do.
pub enum Command {
    /// List the themes of the catalog.
    List,
    /// Show the current theme.
    Current,
    /// Set a theme across the targets.
    SetTheme(SetArgs),
}

/// The arguments of `set`.
pub struct SetArgs {
    /// The logical theme to set.
    pub theme: String,
    /// Show what would change without writing anything.
    pub dry_run: bool,
}

} // verus!

use vstd::prelude::*;

verus! {

/// What the formatter does with a line that holds the move marker.
#[derive(Clone, Copy)]
pub struct MovePolicy<'a> {
    /// The marker that separates a line from where it should go; empty for none.
    pub marker: &'a str,
    /// Whether lines may be moved to other files.
    pub allow_external_writes: bool,
    /// Whether a line whose destination is blank may be deleted.
    pub allow_deletions: bool,
}

} // verus!

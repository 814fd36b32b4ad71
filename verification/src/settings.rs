use crate::locale::Locale;
use crate::move_policy::MovePolicy;
use vstd::prelude::*;

verus! {

/// What a run is asked to do.
pub struct Settings {
    /// The file to format in place; standard input to standard output where `None`.
    pub path: Option<String>,
    /// The locale whose case and collation rules apply.
    pub locale: Locale,
    /// The marker that moves a line to another file.
    pub move_marker: String,
    /// Whether a line with the marker and no destination may be deleted.
    pub allow_deletions: bool,
    /// Whether lines may be moved to other files.
    pub allow_external_writes: bool,
    /// Whether to skip syncing a file to disk before it is rewritten.
    pub skip_disk_sync: bool,
}

impl Settings {
    /// The policy for moved lines that these settings give.
    pub fn move_policy(&self) -> (r: MovePolicy)
        ensures
            r.marker@ == self.move_marker@,
            r.allow_deletions == self.allow_deletions,
            r.allow_external_writes == self.allow_external_writes,
    {
        MovePolicy {
            marker: self.move_marker.as_str(),
            allow_deletions: self.allow_deletions,
            allow_external_writes: self.allow_external_writes,
        }
    }
}

} // verus!

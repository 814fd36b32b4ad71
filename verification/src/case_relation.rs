use crate::case::Case;
use vstd::prelude::*;

verus! {

/// How a character relates to case mapping: either it has a case that
/// mapping may change, or it has none.
#[derive(Clone, Copy, Debug, PartialEq, Eq, Structural)]
pub enum CaseRelation {
    /// The character is neither lowercase nor changed by lowercasing.
    Stable,
    /// The character is lowercase or uppercase.
    Unstable(Case),
}

} // verus!

use vstd::prelude::*;

verus! {

/// The case class of a character, as the formatter sorts lines into it.
#[derive(Clone, Copy, Debug, PartialEq, Eq, Structural)]
pub enum Case {
    /// The character has the Unicode `Lowercase` property.
    Lower,
    /// The character is not lowercase, but lowercasing changes it.
    Upper,
    /// Neither of the two.
    Neutral,
}

} // verus!

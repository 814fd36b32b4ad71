use crate::case::Case;
use crate::cased_string::first_char_case_spec;
use crate::locale::{lowercase_mapping, Locale};
use crate::text::{chars_of, trim_end, trim_end_spec};
use vstd::prelude::*;

verus! {

/// A line without trailing white space.
pub struct Row {
    string: String,
}

impl View for Row {
    type V = Seq<char>;

    closed spec fn view(&self) -> Seq<char> {
        self.string@
    }
}

impl Row {
    /// The row of `string`: its trailing white space is removed.
    pub fn new(string: String) -> (r: Row)
        ensures
            r@ == trim_end_spec(string@),
    {
        Row { string: trim_end(string.as_str()) }
    }

    /// The text of the row.
    pub fn as_str(&self) -> (r: &str)
        ensures
            r@ == self@,
    {
        self.string.as_str()
    }

    /// The case class of the first character, if any.
    pub fn case(&self, locale: &Locale) -> (r: Option<Case>)
        ensures
            r == first_char_case_spec(self@),
    {
        let cs = chars_of(self.string.as_str());
        if cs.len() > 0 {
            Some(locale.case(cs[0]))
        } else {
            None
        }
    }

    /// Replaces the whole row by the locale's lowercase mapping of it, which
    /// `Locale::first_char_to_lower` gives.
    pub fn first_char_to_upper(&mut self, locale: &Locale)
        ensures
            final(self)@ == lowercase_mapping(locale@, old(self)@),
    {
        self.string = locale.first_char_to_lower(self.string.as_str());
    }
}

} // verus!

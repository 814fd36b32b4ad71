use crate::case::Case;
use crate::cased_string::{first_char_case_spec, lower_first, title_first, CasedString};
use crate::locale::Locale;
use crate::text::{trim_end, trim_end_spec};
use vstd::prelude::*;

verus! {

/// One line of a paragraph, without trailing white space.
pub struct Row {
    string: String,
}

impl View for Row {
    type V = Seq<char>;

    closed spec fn view(&self) -> Seq<char> {
        self.string@
    }
}

impl Row {
    /// The row of `string`: its trailing white space is removed.
    pub fn from_string(string: String) -> (r: Row)
        ensures
            r@ == trim_end_spec(string@),
    {
        Row { string: trim_end(string.as_str()) }
    }

    /// The row of `string`: its trailing white space is removed.
    pub fn from_str(string: &str) -> (r: Row)
        ensures
            r@ == trim_end_spec(string@),
    {
        Row { string: trim_end(string) }
    }

    /// The text of the row.
    pub fn into_string(self) -> (r: String)
        ensures
            r@ == self@,
    {
        self.string
    }

    /// The text of the row.
    pub fn as_str(&self) -> (r: &str)
        ensures
            r@ == self@,
    {
        self.string.as_str()
    }

    /// The case class of the first character, if any.
    pub fn case(&self, locale: &Locale) -> (r: Option<Case>)
        ensures
            r == first_char_case_spec(self@),
    {
        self.string.first_char_case(locale)
    }

    /// Titlecases the first character.
    pub fn first_char_to_upper(&mut self, locale: &Locale)
        ensures
            final(self)@ == title_first(locale@, old(self)@),
    {
        self.transform_first_char(locale, true);
    }

    /// Lowercases the first character.
    pub fn first_char_to_lower(&mut self, locale: &Locale)
        ensures
            final(self)@ == lower_first(locale@, old(self)@),
    {
        self.transform_first_char(locale, false);
    }

    /// Maps the first character to its titlecase (`to_title`) or lowercase form.
    fn transform_first_char(&mut self, locale: &Locale, to_title: bool)
        ensures
            final(self)@ == if to_title {
                title_first(locale@, old(self)@)
            } else {
                lower_first(locale@, old(self)@)
            },
    {
        if to_title {
            self.string.first_char_to_upper(locale);
        } else {
            self.string.first_char_to_lower(locale);
        }
    }
}

} // verus!

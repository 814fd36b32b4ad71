use crate::case::Case;
use crate::locale::{case_of, lowercase_mapping, titlecase_mapping, Locale};
use crate::text::chars_of;
use vstd::prelude::*;
use vstd::string::*;

verus! {

/// The case class of the first character of `s`, if it has one.
pub open spec fn first_char_case_spec(s: Seq<char>) -> Option<Case> {
    if s.len() == 0 {
        None
    } else {
        Some(case_of(s[0]))
    }
}

/// `s` with its first character (if any) replaced by its titlecase mapping.
pub open spec fn title_first(descriptor: Seq<char>, s: Seq<char>) -> Seq<char> {
    if s.len() == 0 {
        titlecase_mapping(descriptor, s)
    } else {
        titlecase_mapping(descriptor, s.take(1)) + s.skip(1)
    }
}

/// `s` with its first character (if any) replaced by its lowercase mapping.
pub open spec fn lower_first(descriptor: Seq<char>, s: Seq<char>) -> Seq<char> {
    if s.len() == 0 {
        lowercase_mapping(descriptor, s)
    } else {
        lowercase_mapping(descriptor, s.take(1)) + s.skip(1)
    }
}

/// Case operations on the first character of a string.
pub trait CasedString {
    fn first_char_case(&self, locale: &Locale) -> Option<Case>;

    fn first_char_to_upper(&mut self, locale: &Locale);

    fn first_char_to_lower(&mut self, locale: &Locale);
}

/// Replaces the first character of `string` by its titlecase mapping (`to_title`)
/// or by its lowercase mapping (otherwise).
fn transform_first_char(string: &mut String, locale: &Locale, to_title: bool)
    ensures
        final(string)@ == if to_title {
            title_first(locale@, old(string)@)
        } else {
            lower_first(locale@, old(string)@)
        },
{
    let n = chars_of(string.as_str()).len();
    let i: usize = if n > 0 { 1 } else { 0 };
    let head = string.as_str().substring_char(0, i);
    let tail = string.as_str().substring_char(i, n);
    let mapped = if to_title { locale.to_title(head) } else { locale.to_lower(head) };
    let result = mapped.concat(tail);
    proof {
        if n > 0 {
            assert(string@.take(1) == string@.subrange(0, i as int));
            assert(string@.skip(1) == string@.subrange(i as int, n as int));
        } else {
            assert(string@ == string@.subrange(0, 0));
            assert(tail@.len() == 0);
            assert(result@ == mapped@);
        }
    }
    *string = result;
}

impl CasedString for String {
    /// The case class of the first character, if any.
    fn first_char_case(&self, locale: &Locale) -> (r: Option<Case>)
        ensures
            r == first_char_case_spec(self@),
    {
        let cs = chars_of(self.as_str());
        if cs.len() > 0 {
            Some(locale.case(cs[0]))
        } else {
            None
        }
    }

    /// Titlecases the first character.
    fn first_char_to_upper(&mut self, locale: &Locale)
        ensures
            final(self)@ == title_first(locale@, old(self)@),
    {
        transform_first_char(self, locale, true);
    }

    /// Lowercases the first character.
    fn first_char_to_lower(&mut self, locale: &Locale)
        ensures
            final(self)@ == lower_first(locale@, old(self)@),
    {
        transform_first_char(self, locale, false);
    }
}

} // verus!

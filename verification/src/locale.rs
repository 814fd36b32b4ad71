use crate::case::Case;
use crate::case_relation::CaseRelation;
use core::cmp::Ordering;
use icu_casemap::CaseMapper;
use icu_locale::Locale as IcuLocale;
use icu_collator::{Collator, CollatorBorrowed};
use icu_properties::props::{ChangesWhenLowercased, Lowercase};
use icu_properties::CodePointSetData;
use std::sync::Arc;
use vstd::prelude::*;
use writeable::Writeable;

verus! {

#[verifier::external_type_specification]
#[verifier::external_body]
pub struct ExIcuLocale(IcuLocale);

#[verifier::external_type_specification]
#[verifier::external_body]
pub struct ExCollatorBorrowed<'a>(CollatorBorrowed<'a>);

/// Whether `c` has the Unicode `Lowercase` property, as ICU's compiled data says.
pub uninterp spec fn has_lowercase_property(c: char) -> bool;

/// Whether `c` has the Unicode `Changes_When_Lowercased` property, as ICU's compiled data says.
pub uninterp spec fn changes_when_lowercased(c: char) -> bool;

/// Whether ICU accepts `descriptor` as a locale identifier.
pub uninterp spec fn locale_parses(descriptor: Seq<char>) -> bool;

/// ICU's titlecase mapping of `s`, taken as one segment, in the locale that
/// `descriptor` names.
pub uninterp spec fn titlecase_mapping(descriptor: Seq<char>, s: Seq<char>) -> Seq<char>;

/// ICU's full lowercase mapping of `s` in the locale that `descriptor` names.
pub uninterp spec fn lowercase_mapping(descriptor: Seq<char>, s: Seq<char>) -> Seq<char>;

/// Whether ICU's compiled data gives a collator for the locale that
/// `descriptor` names (the root locale for the empty descriptor).
pub uninterp spec fn collation_loads(descriptor: Seq<char>) -> bool;

/// How ICU's collator for the locale that `descriptor` names orders `a` against `b`.
pub uninterp spec fn collation(descriptor: Seq<char>, a: Seq<char>, b: Seq<char>) -> Order;

/// The result of comparing two strings by collation.
#[derive(Clone, Copy, Debug, PartialEq, Eq, Structural)]
pub enum Order {
    Less,
    Equal,
    Greater,
}

/// The `Ordering` that stands for `o`.
pub open spec fn ordering_of(o: Order) -> Ordering {
    match o {
        Order::Less => Ordering::Less,
        Order::Equal => Ordering::Equal,
        Order::Greater => Ordering::Greater,
    }
}

/// The case class of a character: lowercase before anything else, then
/// whether lowercasing changes it.
pub open spec fn case_of(c: char) -> Case {
    if has_lowercase_property(c) {
        Case::Lower
    } else if changes_when_lowercased(c) {
        Case::Upper
    } else {
        Case::Neutral
    }
}

/// The case relation of a character: neutral characters are stable.
pub open spec fn case_relation_of(c: char) -> CaseRelation {
    match case_of(c) {
        Case::Neutral => CaseRelation::Stable,
        other => CaseRelation::Unstable(other),
    }
}

/// Calls `CodePointSetData::new::<Lowercase>().contains(c)` (icu_properties):
/// the result is named `has_lowercase_property(c)`.
#[verifier::external_body]
fn lowercase_contains(c: char) -> (r: bool)
    ensures
        r == has_lowercase_property(c),
{
    CodePointSetData::new::<Lowercase>().contains(c)
}

/// Calls `CodePointSetData::new::<ChangesWhenLowercased>().contains(c)` (icu_properties):
/// the result is named `changes_when_lowercased(c)`.
#[verifier::external_body]
fn changes_when_lowercased_contains(c: char) -> (r: bool)
    ensures
        r == changes_when_lowercased(c),
{
    CodePointSetData::new::<ChangesWhenLowercased>().contains(c)
}

/// Calls `IcuLocale::try_from_str` (icu_locale_core): it succeeds exactly
/// when `locale_parses(descriptor)`; the parsed value is opaque.
#[verifier::external_body]
fn parse_icu_locale(descriptor: &str) -> (r: Option<IcuLocale>)
    ensures
        r is Some == locale_parses(descriptor@),
{
    IcuLocale::try_from_str(descriptor).ok()
}

/// The constant `IcuLocale::UNKNOWN` (the root locale, "und").
#[verifier::external_body]
fn unknown_icu_locale() -> IcuLocale {
    IcuLocale::UNKNOWN
}

/// Calls `Collator::try_new` (icu_collator) with the preferences of `id`'s
/// ICU locale and default options. The collator is built from compiled data,
/// so whether one comes back depends on the ICU locale alone, and that is
/// fixed by `id`'s descriptor: the result is `Some` exactly when
/// `collation_loads(id@)`.
#[verifier::external_body]
fn try_new_collator(id: &LocaleId) -> (r: Option<Arc<CollatorBorrowed<'static>>>)
    ensures
        r is Some == collation_loads(id@),
{
    Collator::try_new(id.icu.clone().into(), Default::default()).ok().map(Arc::new)
}

/// Calls `Clone::clone` on an ICU locale (icu_locale_core); the copy is opaque.
#[verifier::external_body]
fn clone_icu_locale(icu: &IcuLocale) -> IcuLocale {
    icu.clone()
}

/// An ICU locale with the descriptor it was made from: the root locale for
/// the empty descriptor, ICU's parse of the descriptor otherwise. `parse` and
/// `clone` are the only ways to make one.
struct LocaleId {
    descriptor: String,
    icu: IcuLocale,
}

impl View for LocaleId {
    type V = Seq<char>;

    /// An identifier is known by its descriptor.
    closed spec fn view(&self) -> Seq<char> {
        self.descriptor@
    }
}

impl LocaleId {
    /// The identifier of `descriptor`: the root locale where it is empty,
    /// else ICU's parse of it, where ICU parses it.
    fn parse(descriptor: &str) -> (r: Option<LocaleId>)
        ensures
            r is Some == (descriptor@.len() == 0 || locale_parses(descriptor@)),
            r matches Some(id) ==> id@ == descriptor@,
    {
        if descriptor.is_empty() {
            Some(LocaleId { descriptor: descriptor.to_owned(), icu: unknown_icu_locale() })
        } else {
            match parse_icu_locale(descriptor) {
                Some(icu) => Some(LocaleId { descriptor: descriptor.to_owned(), icu }),
                None => None,
            }
        }
    }

    /// A copy of the identifier.
    fn clone_id(&self) -> (r: LocaleId)
        ensures
            r@ == self@,
    {
        LocaleId { descriptor: self.descriptor.clone(), icu: clone_icu_locale(&self.icu) }
    }
}

/// Case and collation rules of one locale.
pub struct Locale {
    id: LocaleId,
    collator: Arc<CollatorBorrowed<'static>>,
}

impl View for Locale {
    type V = Seq<char>;

    /// A locale is known by the descriptor it was made from.
    closed spec fn view(&self) -> Seq<char> {
        self.id@
    }
}

impl Locale {
    /// Makes the locale that `descriptor` names; the empty descriptor names the
    /// root locale. `None` where ICU does not parse the descriptor, or where no
    /// collation data loads for it.
    pub fn try_new(descriptor: &str) -> (r: Option<Locale>)
        ensures
            r is Some == ((descriptor@.len() == 0 || locale_parses(descriptor@))
                && collation_loads(descriptor@)),
            r matches Some(l) ==> l@ == descriptor@,
    {
        match LocaleId::parse(descriptor) {
            Some(id) => match try_new_collator(&id) {
                Some(collator) => Some(Locale { id, collator }),
                None => None,
            },
            None => None,
        }
    }

    /// The case class of `character`.
    pub fn case(&self, character: char) -> (r: Case)
        ensures
            r == case_of(character),
    {
        if lowercase_contains(character) {
            Case::Lower
        } else if changes_when_lowercased_contains(character) {
            Case::Upper
        } else {
            Case::Neutral
        }
    }

    /// The case relation of `character`.
    pub fn case_relation(&self, character: char) -> (r: CaseRelation)
        ensures
            r == case_relation_of(character),
    {
        match self.case(character) {
            Case::Neutral => CaseRelation::Stable,
            other => CaseRelation::Unstable(other),
        }
    }

    /// Calls `CaseMapperBorrowed::titlecase_segment_with_only_case_data` (icu_casemap)
    /// with default options and this locale's language identifier, and writes the
    /// result to a string: the result is named `titlecase_mapping(self@, string@)`.
    #[verifier::external_body]
    pub fn to_title(&self, string: &str) -> (r: String)
        ensures
            r@ == titlecase_mapping(self@, string@),
    {
        CaseMapper::new()
            .titlecase_segment_with_only_case_data(string, &self.id.icu.id, Default::default())
            .write_to_string()
            .into_owned()
    }

    /// Calls `CaseMapperBorrowed::lowercase` (icu_casemap) with this locale's language
    /// identifier and writes the result to a string: the result is named
    /// `lowercase_mapping(self@, string@)`.
    #[verifier::external_body]
    pub fn to_lower(&self, string: &str) -> (r: String)
        ensures
            r@ == lowercase_mapping(self@, string@),
    {
        CaseMapper::new().lowercase(string, &self.id.icu.id).write_to_string().into_owned()
    }

    /// Calls `CollatorBorrowed::compare` (icu_collator) on this locale's collator:
    /// the result is named `collation(self@, a@, b@)`.
    #[verifier::external_body]
    pub fn compare(&self, a: &str, b: &str) -> (r: Ordering)
        ensures
            r == ordering_of(collation(self@, a@, b@)),
    {
        self.collator.compare(a, b)
    }

    /// The titlecase mapping of `string` as one segment: its first cased
    /// character titlecased, the rest lowercased.
    pub fn first_char_to_upper(&self, string: &str) -> (r: String)
        ensures
            r@ == titlecase_mapping(self@, string@),
    {
        self.to_title(string)
    }

    /// The lowercase mapping of `string`.
    pub fn first_char_to_lower(&self, string: &str) -> (r: String)
        ensures
            r@ == lowercase_mapping(self@, string@),
    {
        self.to_lower(string)
    }

    /// How `a` and `b` compare by this locale's collation.
    pub fn order(&self, a: &str, b: &str) -> (r: Order)
        ensures
            r == collation(self@, a@, b@),
    {
        match self.compare(a, b) {
            Ordering::Less => Order::Less,
            Ordering::Equal => Order::Equal,
            Ordering::Greater => Order::Greater,
        }
    }
}

impl Clone for Locale {
    fn clone(&self) -> (r: Locale)
        ensures
            r@ == self@,
    {
        Locale { id: self.id.clone_id(), collator: self.collator.clone() }
    }
}

impl core::str::FromStr for Locale {
    type Err = ();

    /// `Locale::try_new`, with `Err(())` in place of `None`.
    fn from_str(descriptor: &str) -> (r: Result<Locale, ()>)
        ensures
            r is Ok == ((descriptor@.len() == 0 || locale_parses(descriptor@)) && collation_loads(
                descriptor@,
            )),
            r matches Ok(l) ==> l@ == descriptor@,
    {
        match Locale::try_new(descriptor) {
            Some(locale) => Ok(locale),
            None => Err(()),
        }
    }
}

} // verus!

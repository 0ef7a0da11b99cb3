//! Character classes for identifiers.
//!
//! The Unicode general categories that identifiers draw on are supplied by
//! the `unicode_categories` crate. Each category membership test is a pure
//! function of the character; the tables behind it are far too large to
//! restate, so each one gets an uninterpreted name that the trusted wrapper
//! below ties to the crate's answer.

use vstd::prelude::*;
use unicode_categories::UnicodeCategories;

verus! {

/// Membership of a character in Unicode general category Lu.
pub uninterp spec fn cat_letter_uppercase(c: char) -> bool;

/// Membership of a character in Unicode general category Ll.
pub uninterp spec fn cat_letter_lowercase(c: char) -> bool;

/// Membership of a character in Unicode general category Lt.
pub uninterp spec fn cat_letter_titlecase(c: char) -> bool;

/// Membership of a character in Unicode general category Lm.
pub uninterp spec fn cat_letter_modifier(c: char) -> bool;

/// Membership of a character in Unicode general category Lo.
pub uninterp spec fn cat_letter_other(c: char) -> bool;

/// Membership of a character in Unicode general category Nl.
pub uninterp spec fn cat_number_letter(c: char) -> bool;

/// Membership of a character in Unicode general category Mn.
pub uninterp spec fn cat_mark_nonspacing(c: char) -> bool;

/// Membership of a character in Unicode general category Mc.
pub uninterp spec fn cat_mark_spacing_combining(c: char) -> bool;

/// Membership of a character in Unicode general category Nd.
pub uninterp spec fn cat_number_decimal_digit(c: char) -> bool;

/// Membership of a character in Unicode general category Pc.
pub uninterp spec fn cat_punctuation_connector(c: char) -> bool;

/// Relies on unicode_categories' is_letter_uppercase: a table lookup for
/// category Lu, a function of the character alone.
#[verifier::external_body]
pub(crate) fn char_is_letter_uppercase(c: char) -> (r: bool)
    ensures
        r == cat_letter_uppercase(c),
{
    c.is_letter_uppercase()
}

/// Relies on unicode_categories' is_letter_lowercase: a table lookup for
/// category Ll, a function of the character alone.
#[verifier::external_body]
pub(crate) fn char_is_letter_lowercase(c: char) -> (r: bool)
    ensures
        r == cat_letter_lowercase(c),
{
    c.is_letter_lowercase()
}

/// Relies on unicode_categories' is_letter_titlecase: a table lookup for
/// category Lt, a function of the character alone.
#[verifier::external_body]
pub(crate) fn char_is_letter_titlecase(c: char) -> (r: bool)
    ensures
        r == cat_letter_titlecase(c),
{
    c.is_letter_titlecase()
}

/// Relies on unicode_categories' is_letter_modifier: a table lookup for
/// category Lm, a function of the character alone.
#[verifier::external_body]
pub(crate) fn char_is_letter_modifier(c: char) -> (r: bool)
    ensures
        r == cat_letter_modifier(c),
{
    c.is_letter_modifier()
}

/// Relies on unicode_categories' is_letter_other: a table lookup for
/// category Lo, a function of the character alone.
#[verifier::external_body]
pub(crate) fn char_is_letter_other(c: char) -> (r: bool)
    ensures
        r == cat_letter_other(c),
{
    c.is_letter_other()
}

/// Relies on unicode_categories' is_number_letter: a table lookup for
/// category Nl, a function of the character alone.
#[verifier::external_body]
pub(crate) fn char_is_number_letter(c: char) -> (r: bool)
    ensures
        r == cat_number_letter(c),
{
    c.is_number_letter()
}

/// Relies on unicode_categories' is_mark_nonspacing: a table lookup for
/// category Mn, a function of the character alone.
#[verifier::external_body]
pub(crate) fn char_is_mark_nonspacing(c: char) -> (r: bool)
    ensures
        r == cat_mark_nonspacing(c),
{
    c.is_mark_nonspacing()
}

/// Relies on unicode_categories' is_mark_spacing_combining: a table lookup
/// for category Mc, a function of the character alone.
#[verifier::external_body]
pub(crate) fn char_is_mark_spacing_combining(c: char) -> (r: bool)
    ensures
        r == cat_mark_spacing_combining(c),
{
    c.is_mark_spacing_combining()
}

/// Relies on unicode_categories' is_number_decimal_digit: a table lookup for
/// category Nd, a function of the character alone.
#[verifier::external_body]
pub(crate) fn char_is_number_decimal_digit(c: char) -> (r: bool)
    ensures
        r == cat_number_decimal_digit(c),
{
    c.is_number_decimal_digit()
}

/// Relies on unicode_categories' is_punctuation_connector: a table lookup
/// for category Pc, a function of the character alone.
#[verifier::external_body]
pub(crate) fn char_is_punctuation_connector(c: char) -> (r: bool)
    ensures
        r == cat_punctuation_connector(c),
{
    c.is_punctuation_connector()
}

/// A character that may open a name: categories Lu, Ll, Lt, Lm, Lo, Nl, or
/// the underscore.
pub open spec fn is_id_start(c: char) -> bool {
    ||| cat_letter_uppercase(c)
    ||| cat_letter_lowercase(c)
    ||| cat_letter_titlecase(c)
    ||| cat_letter_modifier(c)
    ||| cat_letter_other(c)
    ||| cat_number_letter(c)
    ||| c == '_'
}

/// A character that may continue a name: anything that may open one, or the
/// categories Mn, Mc, Nd, Pc.
pub open spec fn is_id_continue(c: char) -> bool {
    ||| is_id_start(c)
    ||| cat_mark_nonspacing(c)
    ||| cat_mark_spacing_combining(c)
    ||| cat_number_decimal_digit(c)
    ||| cat_punctuation_connector(c)
}

} // verus!

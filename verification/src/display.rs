//! How a character is displayed: its category and the columns it takes.
//!
//! The Unicode properties themselves come from the tables of other crates.
//! What is decided here is what to make of them.

use unicode_width::UnicodeWidthChar;
use vstd::prelude::*;

verus! {

/// How to display a character.
#[derive(Clone, Copy, Debug, PartialEq, Eq, Structural)]
pub enum DisplayType {
    /// Nothing special about this character.
    Normal,
    /// A combining character, to be displayed on top of another symbol.
    Combining,
    /// A control character, which cannot be printed directly.
    Control,
}

/// The canonical combining class that the Unicode Character Database gives
/// to `c`, as `unicode_normalization` has it.
pub uninterp spec fn combining_class(c: char) -> u8;

/// The columns that `unicode_width` gives to `c` by itself, ambiguous
/// characters taken as narrow.
pub uninterp spec fn column_width(c: char) -> Option<usize>;

/// The control characters: general category `Cc`, which Unicode fixes for
/// good as C0, DEL and C1.
pub open spec fn is_control_char(c: char) -> bool {
    c <= '\u{1F}' || '\u{7F}' <= c <= '\u{9F}'
}

/// `unicode_normalization::char::canonical_combining_class`. Trusted: the
/// result is a function of the character alone.
pub assume_specification[ unicode_normalization::char::canonical_combining_class ](
    c: char,
) -> (class: u8)
    ensures
        class == combining_class(c),
;

/// `char::is_control` of std. Trusted: it tells the characters of general
/// category `Cc`, which are U+0000 to U+001F and U+007F to U+009F.
pub assume_specification[ char::is_control ](c: char) -> (control: bool)
    ensures
        control == is_control_char(c),
;

/// `UnicodeWidthChar::width` of `unicode_width`. Trusted: the result is a
/// function of the character alone.
#[verifier::external_body]
fn unicode_width(c: char) -> (columns: Option<usize>)
    ensures
        columns == column_width(c),
{
    UnicodeWidthChar::width(c)
}

/// The category of a character with these properties: control wins over
/// combining, and a combining character is one whose class is not zero.
pub open spec fn display_type(control: bool, class: u8) -> DisplayType {
    if control {
        DisplayType::Control
    } else if class != 0 {
        DisplayType::Combining
    } else {
        DisplayType::Normal
    }
}

/// The columns to count for a character with these properties: none for a
/// control character or one of no width, else what the table says.
pub open spec fn display_width(control: bool, columns: Option<usize>) -> Option<usize> {
    if control || columns == Some(0usize) {
        None
    } else {
        columns
    }
}

/// The category of `c`. That it is a function of the scalar says that the
/// classifier is pure: asked twice about one scalar, it answers the same.
pub open spec fn category_of(c: char) -> DisplayType {
    display_type(is_control_char(c), combining_class(c))
}

/// The rendered width of `c`: like the category, a function of the scalar.
pub open spec fn width_of(c: char) -> Option<usize> {
    display_width(is_control_char(c), column_width(c))
}

/// A control character is of category `Control` and has no width, whatever
/// its other properties are.
pub proof fn lemma_control_is_a_hazard(c: char)
    requires
        is_control_char(c),
    ensures
        category_of(c) == DisplayType::Control,
        width_of(c) is None,
{
}

/// Decides the category from the two properties that it depends on.
pub fn classify(control: bool, class: u8) -> (kind: DisplayType)
    ensures
        kind == display_type(control, class),
{
    if control {
        DisplayType::Control
    } else if class != 0 {
        DisplayType::Combining
    } else {
        DisplayType::Normal
    }
}

/// Decides the width from the two properties that it depends on.
pub fn rendered_width(control: bool, columns: Option<usize>) -> (width: Option<usize>)
    ensures
        width == display_width(control, columns),
{
    if control {
        return None;
    }
    match columns {
        Some(0) => None,
        other => other,
    }
}

/// Extension methods on `char` values.
pub trait CharExt {
    /// How this character should be displayed.
    fn char_type(&self) -> DisplayType;

    /// Whether this character is a Unicode combining character.
    fn is_combining(&self) -> bool;

    /// The columns this character takes when rendered, or `None` where it
    /// is a rendering hazard: a control character, or one of no width.
    fn width(&self) -> Option<usize>;
}

impl CharExt for char {
    fn char_type(&self) -> (kind: DisplayType)
        ensures
            kind == category_of(*self),
    {
        classify(self.is_control(), unicode_normalization::char::canonical_combining_class(*self))
    }

    fn is_combining(&self) -> (combining: bool)
        ensures
            combining == (combining_class(*self) != 0),
    {
        unicode_normalization::char::canonical_combining_class(*self) != 0
    }

    fn width(&self) -> (width: Option<usize>)
        ensures
            width == width_of(*self),
    {
        rendered_width(self.is_control(), unicode_width(*self))
    }
}

} // verus!

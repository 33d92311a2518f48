//! Classes of characters.
use vstd::prelude::*;

verus! {

/// The characters with Unicode's `White_Space` property.
pub open spec fn whitespace(c: char) -> bool {
    ||| '\u{9}' <= c <= '\u{d}'
    ||| c == ' '
    ||| c == '\u{85}'
    ||| c == '\u{a0}'
    ||| c == '\u{1680}'
    ||| '\u{2000}' <= c <= '\u{200a}'
    ||| c == '\u{2028}'
    ||| c == '\u{2029}'
    ||| c == '\u{202f}'
    ||| c == '\u{205f}'
    ||| c == '\u{3000}'
}

/// Whether `c` is white space.
pub fn is_whitespace(c: char) -> (r: bool)
    ensures
        r == whitespace(c),
{
    ('\u{9}' <= c && c <= '\u{d}') || c == ' ' || c == '\u{85}' || c == '\u{a0}' || c == '\u{1680}'
        || ('\u{2000}' <= c && c <= '\u{200a}') || c == '\u{2028}' || c == '\u{2029}' || c
        == '\u{202f}' || c == '\u{205f}' || c == '\u{3000}'
}

/// What `char::is_alphanumeric` answers for `c`.
pub uninterp spec fn alphanumeric(c: char) -> bool;

/// `char::is_alphanumeric`: whether Unicode counts `c` as a letter or a number.
/// Nothing more is claimed than that the answer depends on `c` alone.
#[verifier::external_body]
pub(crate) fn is_alphanumeric(c: char) -> (r: bool)
    ensures
        r == alphanumeric(c),
{
    c.is_alphanumeric()
}

/// What `char::is_alphabetic` answers for `c`.
pub uninterp spec fn alphabetic(c: char) -> bool;

/// `char::is_alphabetic`: whether Unicode counts `c` as a letter. Nothing more is
/// claimed than that the answer depends on `c` alone.
#[verifier::external_body]
pub(crate) fn is_alphabetic(c: char) -> (r: bool)
    ensures
        r == alphabetic(c),
{
    c.is_alphabetic()
}

/// What `char::is_uppercase` answers for `c`.
pub uninterp spec fn uppercase(c: char) -> bool;

/// `char::is_uppercase`: whether `c` is an upper-case letter. Nothing more is
/// claimed than that the answer depends on `c` alone.
#[verifier::external_body]
pub(crate) fn is_uppercase(c: char) -> (r: bool)
    ensures
        r == uppercase(c),
{
    c.is_uppercase()
}

/// What `char::is_lowercase` answers for `c`.
pub uninterp spec fn lowercase(c: char) -> bool;

/// `char::is_lowercase`: whether `c` is a lower-case letter. Nothing more is
/// claimed than that the answer depends on `c` alone.
#[verifier::external_body]
pub(crate) fn is_lowercase(c: char) -> (r: bool)
    ensures
        r == lowercase(c),
{
    c.is_lowercase()
}

/// What `char::is_numeric` answers for `c`.
pub uninterp spec fn numeric(c: char) -> bool;

/// `char::is_numeric`: whether Unicode counts `c` as a number. Nothing more is
/// claimed than that the answer depends on `c` alone.
#[verifier::external_body]
pub(crate) fn is_numeric(c: char) -> (r: bool)
    ensures
        r == numeric(c),
{
    c.is_numeric()
}

/// The ASCII digits.
pub open spec fn digit(c: char) -> bool {
    '0' <= c <= '9'
}

/// Whether `c` is an ASCII digit.
pub fn is_digit(c: char) -> (r: bool)
    ensures
        r == digit(c),
{
    '0' <= c && c <= '9'
}

/// A set of characters to cut at, to strip, or to test for.
#[derive(Clone, Copy)]
pub enum Class<'a> {
    /// White space.
    Space,
    /// White space and the listed characters.
    SpaceOr(&'a str),
    /// The listed characters alone.
    Only(&'a str),
    /// Letters, numbers and the listed characters.
    Word(&'a str),
    /// Everything but letters, numbers and the listed characters.
    Outside(&'a str),
    /// The ASCII digits.
    Digit,
    /// One character.
    Is(char),
}

impl<'a> Class<'a> {
    /// Whether the class holds `c`.
    pub open spec fn has(self, c: char) -> bool {
        match self {
            Class::Space => whitespace(c),
            Class::SpaceOr(extra) => whitespace(c) || extra@.contains(c),
            Class::Only(listed) => listed@.contains(c),
            Class::Word(extra) => alphanumeric(c) || extra@.contains(c),
            Class::Outside(extra) => !(alphanumeric(c) || extra@.contains(c)),
            Class::Digit => digit(c),
            Class::Is(d) => c == d,
        }
    }

    /// Decides [`Class::has`].
    pub fn holds(&self, c: char) -> (r: bool)
        ensures
            r == self.has(c),
    {
        match self {
            Class::Space => is_whitespace(c),
            Class::SpaceOr(extra) => is_whitespace(c) || has_char(extra, c),
            Class::Only(listed) => has_char(listed, c),
            Class::Word(extra) => is_alphanumeric(c) || has_char(extra, c),
            Class::Outside(extra) => !(is_alphanumeric(c) || has_char(extra, c)),
            Class::Digit => is_digit(c),
            Class::Is(d) => c == *d,
        }
    }
}

/// Whether `c` occurs in `text`.
pub fn has_char(text: &str, c: char) -> (r: bool)
    ensures
        r == text@.contains(c),
{
    for d in it: text.chars()
        invariant
            it.seq() == text@,
            forall|i: int| 0 <= i < it.index() ==> text@[i] != c,
    {
        if d == c {
            assert(text@[it.index() as int] == c);
            return true;
        }
    }
    false
}

/// Every character of `text` belongs to the class.
pub open spec fn all_of(text: Seq<char>, class: Class) -> bool {
    forall|i: int| 0 <= i < text.len() ==> class.has(#[trigger] text[i])
}

/// Some character of `text` belongs to the class.
pub open spec fn any_of(text: Seq<char>, class: Class) -> bool {
    exists|i: int| 0 <= i < text.len() && class.has(#[trigger] text[i])
}

/// Decides [`all_of`].
pub fn is_all(text: &str, class: Class) -> (r: bool)
    ensures
        r == all_of(text@, class),
{
    for d in it: text.chars()
        invariant
            it.seq() == text@,
            forall|i: int| 0 <= i < it.index() ==> class.has(#[trigger] text@[i]),
    {
        if !class.holds(d) {
            assert(!class.has(text@[it.index() as int]));
            return false;
        }
    }
    true
}

/// Decides [`any_of`].
pub fn is_any(text: &str, class: Class) -> (r: bool)
    ensures
        r == any_of(text@, class),
{
    for d in it: text.chars()
        invariant
            it.seq() == text@,
            forall|i: int| 0 <= i < it.index() ==> !class.has(#[trigger] text@[i]),
    {
        if class.holds(d) {
            assert(class.has(text@[it.index() as int]));
            return true;
        }
    }
    false
}

} // verus!

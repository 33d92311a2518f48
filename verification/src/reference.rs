//! References: a letter for the kind and a running number, such as `q12`.
use crate::failure::{refuse, Failure};
use crate::text::class::{all_of, is_all, Class};
use crate::text::make::cat2;
use crate::text::scan::from_index;
use vstd::prelude::*;

verus! {

/// What a reference refers to.
#[derive(Debug, Clone, Copy, PartialEq, Eq, Structural)]
pub enum ReferenceKind {
    Workspace,
    Check,
    Submission,
    Sync,
    Query,
}

impl ReferenceKind {
    /// The letter that a reference of this kind begins with.
    pub open spec fn mark(self) -> char {
        match self {
            ReferenceKind::Workspace => 'w',
            ReferenceKind::Check => 'c',
            ReferenceKind::Submission => 's',
            ReferenceKind::Sync => 'u',
            ReferenceKind::Query => 'q',
        }
    }

    /// Computes [`ReferenceKind::mark`].
    pub fn letter(self) -> (r: char)
        ensures
            r == self.mark(),
    {
        match self {
            ReferenceKind::Workspace => 'w',
            ReferenceKind::Check => 'c',
            ReferenceKind::Submission => 's',
            ReferenceKind::Sync => 'u',
            ReferenceKind::Query => 'q',
        }
    }
}

/// One character, and then at least one ASCII digit and nothing else.
pub open spec fn well_formed_reference(text: Seq<char>) -> bool {
    text.len() > 1 && all_of(text.skip(1), Class::Digit)
}

/// A reference of the given kind.
pub open spec fn refers(text: Seq<char>, kind: ReferenceKind) -> bool {
    well_formed_reference(text) && text[0] == kind.mark()
}

/// The letter of a reference, or why the text is none.
pub open spec fn reference_letter(text: Seq<char>) -> Result<char, Seq<char>> {
    if text.len() == 0 {
        Err("empty reference"@)
    } else if !well_formed_reference(text) {
        Err("malformed reference "@ + text)
    } else {
        Ok(text[0])
    }
}

/// References as text.
pub struct Reference;

impl Reference {
    /// Decides [`refers`].
    pub fn is_kind(text: &str, kind: ReferenceKind) -> (r: bool)
        ensures
            r == refers(text@, kind),
    {
        text.unicode_len() > 1 && text.get_char(0) == kind.letter() && is_all(
            from_index(text, 1),
            Class::Digit,
        )
    }
}

/// Computes [`reference_letter`].
pub fn validate_reference(reference: &str) -> (r: Result<char, Failure>)
    ensures
        match r {
            Ok(c) => reference_letter(reference@) == Ok::<char, Seq<char>>(c),
            Err(e) => reference_letter(reference@) == Err::<char, Seq<char>>(e@),
        },
{
    if reference.is_empty() {
        return refuse("empty reference");
    }
    if reference.unicode_len() == 1 || !is_all(from_index(reference, 1), Class::Digit) {
        return refuse(cat2("malformed reference ", reference).as_str());
    }
    Ok(reference.get_char(0))
}

} // verus!

//! How much of a source is shown.
use vstd::prelude::*;

verus! {

/// Lines of a declaration in a preview.
pub const SOURCE_PREVIEW_LINES: usize = 16;

/// Lines of a declaration whose text was asked for.
pub const DECLARATION_DETAIL_LINES: usize = 48;

/// Entries of an inventory.
pub const SOURCE_OCCURRENCE_ALL_LIMIT: usize = 200;

/// Matching lines of a file.
pub const SOURCE_OCCURRENCE_LIMIT: usize = 40;

/// Lines of a requested range.
pub const SOURCE_RANGE_LIMIT: usize = 200;

/// Lines of a requested range in full detail.
pub const SOURCE_RANGE_ALL_LIMIT: usize = 512;

/// Entries of the outline of a file.
pub const OUTLINE_PREVIEW_LINES: usize = 40;

/// Characters of an entry of an outline.
pub const OUTLINE_LINE_CHARS: usize = 160;

/// Lines around a location.
pub const LOCATION_PREVIEW_LINES: usize = 32;

/// Lines around a location in full detail.
pub const LOCATION_EXPANDED_LINES: usize = 96;

/// Usages of a declaration that are kept.
pub const SEARCH_USAGE_LIMIT: usize = 20;

} // verus!

//! Regular expressions, as the `regex` crate matches them.
use crate::text::scan::opt_string;
use vstd::prelude::*;

verus! {

/// Whether `regex` takes `pattern` for a regular expression.
pub uninterp spec fn pattern_valid(pattern: Seq<char>) -> bool;

/// `regex::Regex::new` succeeds on `pattern`. Nothing more is claimed than that this
/// depends on the characters of `pattern` alone.
#[verifier::external_body]
pub(crate) fn is_pattern(pattern: &str) -> (r: bool)
    ensures
        r == pattern_valid(pattern@),
{
    regex::Regex::new(pattern).is_ok()
}

/// Whether the regular expression matches somewhere in `text`.
pub uninterp spec fn pattern_matches(pattern: Seq<char>, text: Seq<char>) -> bool;

/// `regex::Regex::is_match` of the expression that `regex::Regex::new` makes of
/// `pattern`, for each text; a pattern that is no expression matches nowhere. Nothing
/// more is claimed than that an answer depends on the pattern and its text alone.
#[verifier::external_body]
pub(crate) fn match_each(pattern: &str, texts: &Vec<&str>) -> (r: Vec<bool>)
    ensures
        r.len() == texts.len(),
        forall|i: int|
            0 <= i < texts.len() ==> (#[trigger] r@[i]) == pattern_matches(pattern@, texts@[i]@),
{
    let expression = regex::Regex::new(pattern);
    texts.iter().map(|t| expression.as_ref().is_ok_and(|e| e.is_match(t))).collect()
}

/// Whether the regular expression matches somewhere in one text.
pub(crate) fn matches_pattern(pattern: &str, text: &str) -> (r: bool)
    ensures
        r == pattern_matches(pattern@, text@),
{
    let mut texts: Vec<&str> = Vec::new();
    texts.push(text);
    let answers = match_each(pattern, &texts);
    answers[0]
}

/// The texts of the groups of the first match, the whole match first, a group that
/// took no part as `None`.
pub uninterp spec fn first_groups(pattern: Seq<char>, text: Seq<char>) -> Option<
    Seq<Option<Seq<char>>>,
>;

/// The view of the groups of a match.
pub open spec fn group_views(groups: Seq<Option<String>>) -> Seq<Option<Seq<char>>> {
    groups.map_values(|g: Option<String>| opt_string(g))
}

/// `regex::Regex::captures` of the expression that `regex::Regex::new` makes of
/// `pattern`; a pattern that is no expression matches nowhere. Nothing more is claimed
/// than that the groups depend on the two texts alone.
#[verifier::external_body]
pub(crate) fn capture_groups(pattern: &str, text: &str) -> (r: Option<Vec<Option<String>>>)
    ensures
        match r {
            Some(groups) => first_groups(pattern@, text@) == Some(group_views(groups@)),
            None => first_groups(pattern@, text@) is None,
        },
{
    let expression = regex::Regex::new(pattern).ok()?;
    let found = expression.captures(text)?;
    Some(found.iter().map(|group| group.map(|part| part.as_str().to_owned())).collect())
}

/// The spans of the groups of every match from left to right, the whole match first in
/// each, in bytes, a group that took no part as `None`.
pub uninterp spec fn all_spans(pattern: Seq<char>, text: Seq<char>) -> Seq<
    Seq<Option<(usize, usize)>>,
>;

/// The spans of a list of matches.
pub open spec fn span_views(list: Seq<Vec<Option<(usize, usize)>>>) -> Seq<
    Seq<Option<(usize, usize)>>,
> {
    list.map_values(|m: Vec<Option<(usize, usize)>>| m@)
}

/// `regex::Regex::captures_iter` of the expression that `regex::Regex::new` makes of
/// `pattern`; a pattern that is no expression matches nowhere. Nothing more is claimed
/// than that the spans depend on the two texts alone.
#[verifier::external_body]
pub(crate) fn capture_spans(pattern: &str, text: &str) -> (r: Vec<Vec<Option<(usize, usize)>>>)
    ensures
        span_views(r@) == all_spans(pattern@, text@),
{
    let Ok(expression) = regex::Regex::new(pattern) else {
        return Vec::new();
    };
    expression
        .captures_iter(text)
        .map(|found| found.iter().map(|g| g.map(|p| (p.start(), p.end()))).collect())
        .collect()
}

/// A character with a meaning of its own in a regular expression.
pub open spec fn meta_character(c: char) -> bool {
    ||| c == '\\' || c == '.' || c == '+' || c == '*' || c == '?' || c == '('
    ||| c == ')' || c == '|' || c == '[' || c == ']' || c == '{' || c == '}'
    ||| c == '^' || c == '$' || c == '#' || c == '&' || c == '-' || c == '~'
}

/// A text with a backslash before every character that has a meaning of its own in a
/// regular expression.
pub open spec fn escaped(text: Seq<char>) -> Seq<char>
    decreases text.len(),
{
    if text.len() == 0 {
        Seq::empty()
    } else if meta_character(text.last()) {
        escaped(text.drop_last()).push('\\').push(text.last())
    } else {
        escaped(text.drop_last()).push(text.last())
    }
}

/// `regex::escape`: a backslash is put before each meta character and nothing else is
/// changed.
#[verifier::external_body]
pub(crate) fn escape(text: &str) -> (r: String)
    ensures
        r@ == escaped(text@),
{
    regex::escape(text)
}

} // verus!

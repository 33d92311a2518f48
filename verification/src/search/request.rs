//! Probe requests: a context, a subject, a focus or a Lean directive.
use crate::failure::{refuse, Failure};
use crate::path::{extension, extension_of, is_lean_file, lean_file};
use crate::reference::{refers, Reference, ReferenceKind};
use crate::search::fragment::{fragment_check, validate_balanced_fragment};
use crate::text::class::{whitespace, Class};
use crate::text::make::{
    alike, cat2, cat3, cat4, cat5, join_strs, joined, lower, own, prefix_all, prefix_step, push_str,
    same, same_ignoring_case, strings, strings_push, strs, strs_push, to_lower,
};
use crate::text::number::{decimal, number, parse_u64, parse_usize, show};
use crate::text::pieces::{split_words, words};
use crate::text::scan::{
    after_chars, after_prefix, bare, before_suffix, begins, contains, cut, ends, ends_with,
    has_text, opt_str, rcut, rsplit_once, sans_prefix, skip_chars, split_once, starts_with,
    strip_prefix, strip_suffix, trim, trim_of, trimmed, without_prefix,
};
use vstd::prelude::*;

verus! {

broadcast use {strings_push, strs_push};

/// Where a probe looks.
#[derive(Debug, PartialEq, Eq)]
pub enum ProbeContext {
    File(String),
    Scope(String),
    Position(String),
    Check(String),
    Query(String, usize),
}

/// The contents of a [`ProbeContext`].
pub enum ContextView {
    File(Seq<char>),
    Scope(Seq<char>),
    Position(Seq<char>),
    Check(Seq<char>),
    Query(Seq<char>, usize),
}

impl View for ProbeContext {
    type V = ContextView;

    open spec fn view(&self) -> ContextView {
        match self {
            ProbeContext::File(t) => ContextView::File(t@),
            ProbeContext::Scope(t) => ContextView::Scope(t@),
            ProbeContext::Position(t) => ContextView::Position(t@),
            ProbeContext::Check(t) => ContextView::Check(t@),
            ProbeContext::Query(t, i) => ContextView::Query(t@, *i),
        }
    }
}

/// What Lean is asked.
#[derive(Debug, PartialEq, Eq)]
pub enum LeanDirective {
    Check(String),
    Synth(String),
    Reduce(String),
    Tactic(String),
    Inspect(String),
    Apply(String),
}

/// The contents of a [`LeanDirective`].
pub enum DirectiveView {
    Check(Seq<char>),
    Synth(Seq<char>),
    Reduce(Seq<char>),
    Tactic(Seq<char>),
    Inspect(Seq<char>),
    Apply(Seq<char>),
}

impl View for LeanDirective {
    type V = DirectiveView;

    open spec fn view(&self) -> DirectiveView {
        match self {
            LeanDirective::Check(t) => DirectiveView::Check(t@),
            LeanDirective::Synth(t) => DirectiveView::Synth(t@),
            LeanDirective::Reduce(t) => DirectiveView::Reduce(t@),
            LeanDirective::Tactic(t) => DirectiveView::Tactic(t@),
            LeanDirective::Inspect(t) => DirectiveView::Inspect(t@),
            LeanDirective::Apply(t) => DirectiveView::Apply(t@),
        }
    }
}

/// A probe request.
#[derive(Debug, PartialEq, Eq)]
pub struct ProbeRequest {
    pub context: Option<ProbeContext>,
    pub subject: Option<String>,
    pub focus: Option<String>,
    pub directive: Option<LeanDirective>,
}

/// The contents of a [`ProbeRequest`].
pub struct ProbeRequestView {
    pub context: Option<ContextView>,
    pub subject: Option<Seq<char>>,
    pub focus: Option<Seq<char>>,
    pub directive: Option<DirectiveView>,
}

/// The view of an optional context.
pub open spec fn opt_context(o: Option<ProbeContext>) -> Option<ContextView> {
    match o {
        Some(c) => Some(c@),
        None => None,
    }
}

/// The view of an optional directive.
pub open spec fn opt_directive(o: Option<LeanDirective>) -> Option<DirectiveView> {
    match o {
        Some(d) => Some(d@),
        None => None,
    }
}

impl View for ProbeRequest {
    type V = ProbeRequestView;

    open spec fn view(&self) -> ProbeRequestView {
        ProbeRequestView {
            context: opt_context(self.context),
            subject: crate::text::scan::opt_string(self.subject),
            focus: crate::text::scan::opt_string(self.focus),
            directive: opt_directive(self.directive),
        }
    }
}

/// `text` between one pair of the same quotation marks, or as it is.
pub open spec fn unquoted(text: Seq<char>) -> Seq<char> {
    let t = bare(text);
    match between(t, "'"@) {
        Some(inner) => bare(inner),
        None => match between(t, "\""@) {
            Some(inner) => bare(inner),
            None => t,
        },
    }
}

/// What stands between two copies of `mark`, where `text` begins and ends with it.
pub open spec fn between(text: Seq<char>, mark: Seq<char>) -> Option<Seq<char>> {
    match after_prefix(text, mark) {
        Some(rest) => before_suffix(rest, mark),
        None => None,
    }
}

fn inside<'a>(text: &'a str, mark: &str) -> (r: Option<&'a str>)
    ensures
        opt_str(r) == between(text@, mark@),
{
    match strip_prefix(text, mark) {
        Some(rest) => strip_suffix(rest, mark),
        None => None,
    }
}

/// Computes [`unquoted`].
pub fn unquote<'a>(text: &'a str) -> (r: &'a str)
    ensures
        r@ == unquoted(text@),
{
    let t = trim(text);
    match inside(t, "'") {
        Some(inner) => trim(inner),
        None => match inside(t, "\"") {
            Some(inner) => trim(inner),
            None => t,
        },
    }
}

/// A word without the quotation marks around it.
pub open spec fn stripped_quotes(word: Seq<char>) -> Seq<char> {
    trimmed(word, Class::Only("'\""))
}

fn strip_quotes<'a>(word: &'a str) -> (r: &'a str)
    ensures
        r@ == stripped_quotes(word@),
{
    trim_of(word, Class::Only("'\""))
}

/// The facets of source files that searches answer.
pub open spec fn source_facet(word: Seq<char>) -> bool {
    let w = lower(word);
    w == "outline"@ || w == "declarations"@ || w == "imports"@ || w == "dependents"@
}

/// Decides [`source_facet`].
pub fn is_source_facet(word: &str) -> (r: bool)
    ensures
        r == source_facet(word@),
{
    let w = to_lower(word);
    same(w.as_str(), "outline") || same(w.as_str(), "declarations") || same(w.as_str(), "imports")
        || same(w.as_str(), "dependents")
}

/// A Lean file with a facet attached by a colon.
pub open spec fn attached_facet(word: Seq<char>) -> Option<(Seq<char>, Seq<char>)> {
    match rcut(word, ":"@) {
        Some(sides) => if lean_file(sides.0) && source_facet(sides.1) {
            Some(sides)
        } else {
            None
        },
        None => None,
    }
}

/// The word, with an attached facet set off by a space.
pub open spec fn detached(word: Seq<char>) -> Seq<char> {
    match attached_facet(word) {
        Some(sides) => sides.0 + " "@ + sides.1,
        None => word,
    }
}

/// The words, each with its attached facet set off.
pub open spec fn detached_words(list: Seq<Seq<char>>) -> Seq<Seq<char>> {
    list.map_values(|w: Seq<char>| detached(w))
}

/// A query in which some word has a facet attached.
pub open spec fn has_attached_facet(list: Seq<Seq<char>>) -> bool {
    exists|i: int| 0 <= i < list.len() && attached_facet(#[trigger] list[i]) is Some
}

/// The query with attached facets set off by spaces.
pub open spec fn facets_detached(query: Seq<char>) -> Seq<char> {
    if has_attached_facet(words(query)) {
        joined(detached_words(words(query)), " "@)
    } else {
        query
    }
}

/// Computes [`facets_detached`].
pub fn normalize_colon_attached_source_facet(query: &str) -> (r: String)
    ensures
        r@ == facets_detached(query@),
{
    let list = split_words(query);
    let ghost views = words(query@);
    let mut out: Vec<String> = Vec::new();
    let mut found = false;
    for i in 0..list.len()
        invariant
            views == strs(list@),
            found == exists|j: int| 0 <= j < i && attached_facet(#[trigger] views[j]) is Some,
            strings(out@) == detached_words(views).take(i as int),
    {
        let word = list[i];
        assert(views[i as int] == word@);
        proof {
            prefix_step(detached_words(views), i as int);
        }
        match rsplit_once(word, ":") {
            Some(sides) => {
                if is_lean_file(sides.0) && is_source_facet(sides.1) {
                    found = true;
                    out.push(cat3(sides.0, " ", sides.1));
                } else {
                    out.push(own(word));
                }
            },
            None => {
                out.push(own(word));
            },
        }
    }
    proof {
        prefix_all(detached_words(views));
    }
    if found {
        crate::text::make::join(&out, " ")
    } else {
        own(query)
    }
}

/// A range of line numbers, `FIRST-LAST` with `1 <= FIRST <= LAST`.
pub open spec fn line_range(range: Seq<char>) -> Option<(u64, u64)> {
    match cut(range, "-"@) {
        Some(sides) => match (number(sides.0, u64::MAX as nat), number(sides.1, u64::MAX as nat)) {
            (Some(first), Some(last)) => if 0 < first <= last {
                Some((first as u64, last as u64))
            } else {
                None
            },
            _ => None,
        },
        None => None,
    }
}

/// Computes [`line_range`].
pub fn parse_source_line_range(range: &str) -> (r: Option<(u64, u64)>)
    ensures
        r == line_range(range@),
{
    match split_once(range, "-") {
        Some(sides) => match parse_u64(sides.0) {
            Some(first) => match parse_u64(sides.1) {
                Some(last) => if 0 < first && first <= last {
                    Some((first, last))
                } else {
                    None
                },
                None => None,
            },
            None => None,
        },
        None => None,
    }
}

/// A result of a stored query, `qREF` or `qREF#NUMBER`, with its index from zero.
pub open spec fn query_hit(value: Seq<char>) -> Option<(Seq<char>, usize)> {
    match cut(value, "#"@) {
        Some(sides) => match number(sides.1, usize::MAX as nat) {
            Some(index) => if index > 0 && refers(sides.0, ReferenceKind::Query) {
                Some((sides.0, (index - 1) as usize))
            } else {
                None
            },
            None => None,
        },
        None => if refers(value, ReferenceKind::Query) {
            Some((value, 0))
        } else {
            None
        },
    }
}

/// Computes [`query_hit`].
pub fn parse_query_hit_reference(value: &str) -> (r: Option<(String, usize)>)
    ensures
        match r {
            Some(found) => query_hit(value@) == Some((found.0@, found.1)),
            None => query_hit(value@) is None,
        },
{
    match split_once(value, "#") {
        Some(sides) => match parse_usize(sides.1) {
            Some(index) => if index > 0 && Reference::is_kind(sides.0, ReferenceKind::Query) {
                Some((own(sides.0), index - 1))
            } else {
                None
            },
            None => None,
        },
        None => if Reference::is_kind(value, ReferenceKind::Query) {
            Some((own(value), 0))
        } else {
            None
        },
    }
}

/// The context that the first word of a probe names.
pub open spec fn context_of(value: Seq<char>) -> Option<ContextView> {
    if refers(value, ReferenceKind::Check) {
        Some(ContextView::Check(value))
    } else if query_hit(value) is Some {
        Some(ContextView::Query((query_hit(value)->0).0, (query_hit(value)->0).1))
    } else if rcut(value, ":"@) matches Some(sides) && number(sides.1, u64::MAX as nat) is Some {
        Some(ContextView::Position(value))
    } else if ends(value, ".lean"@) {
        Some(ContextView::File(value))
    } else if has_text(value, "/"@) {
        Some(ContextView::Scope(value))
    } else {
        None
    }
}

/// Computes [`context_of`].
pub fn parse_context(value: &str) -> (r: Option<ProbeContext>)
    ensures
        opt_context(r) == context_of(value@),
{
    if Reference::is_kind(value, ReferenceKind::Check) {
        return Some(ProbeContext::Check(own(value)));
    }
    if let Some(found) = parse_query_hit_reference(value) {
        return Some(ProbeContext::Query(found.0, found.1));
    }
    if let Some(sides) = rsplit_once(value, ":") {
        if parse_u64(sides.1).is_some() {
            return Some(ProbeContext::Position(own(value)));
        }
    }
    if ends_with(value, ".lean") {
        return Some(ProbeContext::File(own(value)));
    }
    if contains(value, "/") {
        Some(ProbeContext::Scope(own(value)))
    } else {
        None
    }
}

/// A Lean file with a range of lines: the file and the first line.
pub open spec fn range_context(value: Seq<char>) -> Option<(Seq<char>, u64)> {
    match rcut(value, ":"@) {
        Some(sides) => match (line_range(sides.1), extension_of(sides.0)) {
            (Some(range), Some(found)) => if alike(found, "lean"@) {
                Some((sides.0, range.0))
            } else {
                None
            },
            _ => None,
        },
        None => None,
    }
}

/// Computes [`range_context`].
pub fn source_range_context<'a>(value: &'a str) -> (r: Option<(&'a str, u64)>)
    ensures
        match r {
            Some(found) => range_context(value@) == Some((found.0@, found.1)),
            None => range_context(value@) is None,
        },
{
    match rsplit_once(value, ":") {
        Some(sides) => match parse_source_line_range(sides.1) {
            Some(range) => match extension(sides.0) {
                Some(found) => if same_ignoring_case(found, "lean") {
                    Some((sides.0, range.0))
                } else {
                    None
                },
                None => None,
            },
            None => None,
        },
        None => None,
    }
}

/// The argument of a directive that begins with `prefix`: `None` where the text is not
/// that directive, and a complaint where the argument is missing.
pub open spec fn directive_argument(value: Seq<char>, prefix: Seq<char>) -> Result<
    Option<Seq<char>>,
    Seq<char>,
> {
    if value == prefix {
        Err(prefix + " requires an argument"@)
    } else {
        match after_prefix(value, prefix) {
            Some(rest) => if rest.len() > 0 && whitespace(rest[0]) {
                let body = bare(rest.skip(1));
                if body.len() == 0 {
                    Err(prefix + " requires an argument"@)
                } else {
                    Ok(Some(body))
                }
            } else {
                Ok(None)
            },
            None => Ok(None),
        }
    }
}

fn read_argument(value: &str, prefix: &str) -> (r: Result<Option<String>, Failure>)
    ensures
        match r {
            Ok(found) => directive_argument(value@, prefix@) == Ok::<
                Option<Seq<char>>,
                Seq<char>,
            >(crate::text::scan::opt_string(found)),
            Err(e) => directive_argument(value@, prefix@) == Err::<Option<Seq<char>>, Seq<char>>(
                e@,
            ),
        },
{
    if same(value, prefix) {
        return refuse(cat2(prefix, " requires an argument").as_str());
    }
    match strip_prefix(value, prefix) {
        Some(rest) => {
            if rest.unicode_len() > 0 && crate::text::class::is_whitespace(rest.get_char(0)) {
                let body = trim(crate::text::scan::from_index(rest, 1));
                if body.is_empty() {
                    return refuse(cat2(prefix, " requires an argument").as_str());
                }
                Ok(Some(own(body)))
            } else {
                Ok(None)
            }
        },
        None => Ok(None),
    }
}

/// The directive that a text stands for.
pub open spec fn directive_of(value: Seq<char>) -> Result<Option<DirectiveView>, Seq<char>> {
    match directive_argument(value, "#check"@) {
        Err(e) => Err(e),
        Ok(Some(body)) => Ok(Some(DirectiveView::Check(body))),
        Ok(None) => match directive_argument(value, "#synth"@) {
            Err(e) => Err(e),
            Ok(Some(body)) => Ok(Some(DirectiveView::Synth(body))),
            Ok(None) => match directive_argument(value, "#reduce"@) {
                Err(e) => Err(e),
                Ok(Some(body)) => Ok(Some(DirectiveView::Reduce(body))),
                Ok(None) => match directive_argument(value, "#inspect"@) {
                    Err(e) => Err(e),
                    Ok(Some(body)) => Ok(Some(DirectiveView::Inspect(body))),
                    Ok(None) => match directive_argument(value, "#apply"@) {
                        Err(e) => Err(e),
                        Ok(Some(body)) => Ok(Some(DirectiveView::Apply(body))),
                        Ok(None) => match directive_argument(value, "by"@) {
                            Err(e) => Err(e),
                            Ok(Some(body)) => Ok(Some(DirectiveView::Tactic(body))),
                            Ok(None) => Ok(None),
                        },
                    },
                },
            },
        },
    }
}

/// Computes [`directive_of`].
pub fn parse_directive(value: &str) -> (r: Result<Option<LeanDirective>, Failure>)
    ensures
        match r {
            Ok(found) => directive_of(value@) == Ok::<Option<DirectiveView>, Seq<char>>(
                opt_directive(found),
            ),
            Err(e) => directive_of(value@) == Err::<Option<DirectiveView>, Seq<char>>(e@),
        },
{
    match read_argument(value, "#check") {
        Err(e) => {
            return Err(e);
        },
        Ok(Some(body)) => {
            return Ok(Some(LeanDirective::Check(body)));
        },
        Ok(None) => {},
    }
    match read_argument(value, "#synth") {
        Err(e) => {
            return Err(e);
        },
        Ok(Some(body)) => {
            return Ok(Some(LeanDirective::Synth(body)));
        },
        Ok(None) => {},
    }
    match read_argument(value, "#reduce") {
        Err(e) => {
            return Err(e);
        },
        Ok(Some(body)) => {
            return Ok(Some(LeanDirective::Reduce(body)));
        },
        Ok(None) => {},
    }
    match read_argument(value, "#inspect") {
        Err(e) => {
            return Err(e);
        },
        Ok(Some(body)) => {
            return Ok(Some(LeanDirective::Inspect(body)));
        },
        Ok(None) => {},
    }
    match read_argument(value, "#apply") {
        Err(e) => {
            return Err(e);
        },
        Ok(Some(body)) => {
            return Ok(Some(LeanDirective::Apply(body)));
        },
        Ok(None) => {},
    }
    match read_argument(value, "by") {
        Err(e) => Err(e),
        Ok(Some(body)) => Ok(Some(LeanDirective::Tactic(body))),
        Ok(None) => Ok(None),
    }
}

/// The words that select a part of an answer.
pub open spec fn focus_word(w: Seq<char>) -> bool {
    ||| w == "assumptions"@ || w == "evidence"@ || w == "examples"@ || w == "context"@
    ||| w == "signature"@ || w == "apply"@ || w == "fields"@ || w == "constructors"@
    ||| w == "ext"@ || w == "simp"@ || w == "usages"@ || w == "source"@ || w == "outline"@
    ||| w == "goal"@ || w == "types"@ || w == "defeq"@ || w == "rewrite"@
    ||| w == "profile"@ || w == "warnings"@
}

fn is_focus_word(w: &str) -> (r: bool)
    ensures
        r == focus_word(w@),
{
    same(w, "assumptions") || same(w, "evidence") || same(w, "examples") || same(w, "context")
        || same(w, "signature") || same(w, "apply") || same(w, "fields") || same(w, "constructors")
        || same(w, "ext") || same(w, "simp") || same(w, "usages") || same(w, "source") || same(
        w,
        "outline",
    ) || same(w, "goal") || same(w, "types") || same(w, "defeq") || same(w, "rewrite") || same(
        w,
        "profile",
    ) || same(w, "warnings")
}

/// The words that selected a part of an answer once.
pub open spec fn removed_focus(w: Seq<char>) -> bool {
    w == "neighborhood"@ || w == "dependencies"@ || w == "instances"@ || w == "coercions"@
}

fn is_removed_focus(w: &str) -> (r: bool)
    ensures
        r == removed_focus(w@),
{
    same(w, "neighborhood") || same(w, "dependencies") || same(w, "instances") || same(
        w,
        "coercions",
    )
}

/// Some word, without its quotation marks, is `wanted`.
pub open spec fn mentions_word(list: Seq<Seq<char>>, wanted: Seq<char>, from: int) -> bool {
    exists|i: int| from <= i < list.len() && stripped_quotes(#[trigger] list[i]) == wanted
}

fn has_word(list: &Vec<&str>, wanted: &str, from: usize) -> (r: bool)
    ensures
        r == mentions_word(strs(list@), wanted@, from as int),
{
    let mut i: usize = from;
    while i < list.len()
        invariant
            from <= i,
            forall|j: int|
                from <= j < i && j < list.len() ==> stripped_quotes(#[trigger] strs(list@)[j])
                    != wanted@,
        decreases list.len() - i,
    {
        assert(strs(list@)[i as int] == list[i as int]@);
        if same(strip_quotes(list[i]), wanted) {
            return true;
        }
        i += 1;
    }
    false
}

/// A Lean command that needs a context.
pub open spec fn stray_command(word: Seq<char>) -> bool {
    word == "#check"@ || word == "#synth"@ || word == "#reduce"@
}

/// The first Lean command after the first word.
pub open spec fn stray_directive(list: Seq<Seq<char>>) -> Option<Seq<char>>
    decreases list.len(),
{
    if list.len() <= 1 {
        None
    } else {
        match stray_directive(list.drop_last()) {
            Some(found) => Some(found),
            None => if stray_command(stripped_quotes(list.last())) {
                Some(stripped_quotes(list.last()))
            } else {
                None
            },
        }
    }
}

fn find_stray_directive<'a>(list: &Vec<&'a str>) -> (r: Option<&'a str>)
    ensures
        opt_str(r) == stray_directive(strs(list@)),
{
    let ghost views = strs(list@);
    let mut found: Option<&'a str> = None;
    for i in 0..list.len()
        invariant
            views == strs(list@),
            opt_str(found) == stray_directive(views.take(i as int)),
    {
        proof {
            prefix_step(views, i as int);
        }
        assert(views[i as int] == list[i as int]@);
        if i > 0 && found.is_none() {
            let word = strip_quotes(list[i]);
            if same(word, "#check") || same(word, "#synth") || same(word, "#reduce") {
                found = Some(word);
            }
        }
    }
    proof {
        prefix_all(views);
    }
    found
}

/// The words with a leading at-sign taken off the first.
pub open spec fn plain_terms(terms: Seq<Seq<char>>) -> Seq<Seq<char>> {
    if terms.len() > 0 {
        terms.update(0, sans_prefix(terms[0], "@"@))
    } else {
        terms
    }
}

/// Why a declaration cannot be probed with the last word as its focus.
pub open spec fn unknown_focus(name: Seq<char>, requested: Seq<char>) -> Seq<char> {
    if requested == "type"@ {
        "declaration types use `probe "@ + name + " signature`"@
    } else if requested == "body"@ || requested == "proof"@ {
        "declaration "@ + requested + " uses `search '"@ + name + " "@ + requested + "'`"@
    } else if requested == "context"@ {
        "Lean context requires an exact position; use `probe FILE:LINE goal` or `probe FILE:LINE TERM`"@
    } else {
        "unknown declaration focus `"@ + requested + "`; try `probe "@ + name
            + " signature`, `probe "@ + name + " source`, or `probe "@ + name + " usages`"@
    }
}

fn unknown_focus_message(name: &str, requested: &str) -> (r: String)
    ensures
        r@ == unknown_focus(name@, requested@),
{
    if same(requested, "type") {
        cat3("declaration types use `probe ", name, " signature`")
    } else if same(requested, "body") || same(requested, "proof") {
        let mut out = cat5("declaration ", requested, " uses `search '", name, " ");
        push_str(&mut out, requested);
        push_str(&mut out, "'`");
        out
    } else if same(requested, "context") {
        own(
            "Lean context requires an exact position; use `probe FILE:LINE goal` or `probe FILE:LINE TERM`",
        )
    } else {
        let mut out = cat5(
            "unknown declaration focus `",
            requested,
            "`; try `probe ",
            name,
            " signature`, `probe ",
        );
        push_str(&mut out, name);
        push_str(&mut out, " source`, or `probe ");
        push_str(&mut out, name);
        push_str(&mut out, " usages`");
        out
    }
}

/// What a probe is answered that asks for everything.
pub open spec fn all_refusal(context: Option<ContextView>) -> Seq<char> {
    "probe --all is not valid here; "@ + match context {
        Some(ContextView::Check(reference)) => "use `mathmux probe "@ + reference
            + " goal|types|defeq|rewrite|profile`"@,
        Some(ContextView::Query(reference, _)) => "use `mathmux show "@ + reference
            + " --all` for stored results"@,
        _ => "use `mathmux probe NAME source` or `mathmux probe NAME usages`"@,
    }
}

fn all_refusal_message(context: &Option<ProbeContext>) -> (r: String)
    ensures
        r@ == all_refusal(opt_context(*context)),
{
    let hint = match context {
        Some(ProbeContext::Check(reference)) => cat3(
            "use `mathmux probe ",
            reference.as_str(),
            " goal|types|defeq|rewrite|profile`",
        ),
        Some(ProbeContext::Query(reference, _)) => cat3(
            "use `mathmux show ",
            reference.as_str(),
            " --all` for stored results",
        ),
        _ => own("use `mathmux probe NAME source` or `mathmux probe NAME usages`"),
    };
    cat2("probe --all is not valid here; ", hint.as_str())
}

/// What is refused before the words of a probe are looked at one by one. `first` is
/// the first word, `rest` the words after the context.
pub open spec fn early_refusal(
    first: Seq<char>,
    context: Option<ContextView>,
    rest: Seq<Seq<char>>,
) -> Option<Seq<char>> {
    if context is None && !begins(first, "type:"@) && has_text(first, "\\"@) {
        Some(
            "declaration names require literal characters, not backslash escapes; use the literal apostrophe or Unicode character"@,
        )
    } else if range_context(first) is Some {
        Some(
            "source ranges are a search form, not a probe context; use `mathmux search "@ + first
                + "` for source or `mathmux probe "@ + (range_context(first)->0).0 + ":"@ + decimal(
                (range_context(first)->0).1 as nat,
            ) + " goal` for Lean context"@,
        )
    } else if context is Some && context->0 is Query && rest.len() > 0 && (rest[0] == "show"@
        || rest[0] == "--all"@) {
        Some(
            "probe --all is not valid here; use `mathmux show "@ + first
                + " --all` for stored detail"@,
        )
    } else if context is Some && context->0 is Check && rest.len() > 0 && stripped_quotes(rest[0])
        == "--wait"@ {
        Some(
            "--wait belongs to show; use `mathmux show "@ + context->0->Check_0 + " --wait`"@,
        )
    } else if mentions_word(rest, "--all"@, 0) {
        Some(all_refusal(context))
    } else {
        None
    }
}

fn refuse_early(first: &str, context: &Option<ProbeContext>, rest: &Vec<&str>) -> (r: Option<
    String,
>)
    ensures
        crate::text::scan::opt_string(r) == early_refusal(
            first@,
            opt_context(*context),
            strs(rest@),
        ),
{
    assert(strs(rest@).len() == rest.len());
    assert(rest.len() > 0 ==> strs(rest@)[0] == rest[0]@);
    if context.is_none() && !starts_with(first, "type:") && contains(first, "\\") {
        return Some(
            own(
                "declaration names require literal characters, not backslash escapes; use the literal apostrophe or Unicode character",
            ),
        );
    }
    if let Some(found) = source_range_context(first) {
        let mut out = cat4(
            "source ranges are a search form, not a probe context; use `mathmux search ",
            first,
            "` for source or `mathmux probe ",
            found.0,
        );
        push_str(&mut out, ":");
        push_str(&mut out, show(found.1).as_str());
        push_str(&mut out, " goal` for Lean context");
        return Some(out);
    }
    if let Some(ProbeContext::Query(_, _)) = context {
        if rest.len() > 0 && (same(rest[0], "show") || same(rest[0], "--all")) {
            return Some(
                cat3(
                    "probe --all is not valid here; use `mathmux show ",
                    first,
                    " --all` for stored detail",
                ),
            );
        }
    }
    if let Some(ProbeContext::Check(reference)) = context {
        if rest.len() > 0 && same(strip_quotes(rest[0]), "--wait") {
            return Some(
                cat3(
                    "--wait belongs to show; use `mathmux show ",
                    reference.as_str(),
                    " --wait`",
                ),
            );
        }
    }
    if has_word(rest, "--all", 0) {
        return Some(all_refusal_message(context));
    }
    None
}

/// What is refused of a probe that is not a directive, before its focus is read.
pub open spec fn form_refusal(
    context: Option<ContextView>,
    rest: Seq<Seq<char>>,
) -> Option<Seq<char>> {
    if (context matches Some(ContextView::File(_)) || context matches Some(ContextView::Scope(_)))
        && rest.len() == 1 && source_facet(stripped_quotes(rest[0])) {
        let facet = stripped_quotes(rest[0]);
        let file = match context {
            Some(ContextView::File(f)) => f,
            Some(ContextView::Scope(f)) => f,
            _ => Seq::empty(),
        };
        Some(
            "`"@ + facet + "` is a source-search facet, not a probe subject; use `mathmux search "@
                + file + " "@ + facet + "`"@,
        )
    } else if context matches Some(ContextView::Position(location)) && rest.len() == 1
        && stripped_quotes(rest[0]) == "source"@ {
        let location = context->0->Position_0;
        Some(
            "source is a search form at FILE:LINE; use `mathmux search "@ + location
                + "` for source or `mathmux probe "@ + location + " goal` for Lean context"@,
        )
    } else if mentions_word(rest, "by"@, 1) {
        Some("by requires FILE:LINE, cREF, or positioned qREF context"@)
    } else if stray_directive(rest) is Some {
        Some(
            stray_directive(rest)->0
                + " requires FILE, FILE:LINE, cREF, or qREF context; use NAME signature for a declaration"@,
        )
    } else {
        None
    }
}

fn refuse_form(context: &Option<ProbeContext>, rest: &Vec<&str>) -> (r: Option<String>)
    ensures
        crate::text::scan::opt_string(r) == form_refusal(opt_context(*context), strs(rest@)),
{
    assert(strs(rest@).len() == rest.len());
    assert(rest.len() > 0 ==> strs(rest@)[0] == rest[0]@);
    if rest.len() == 1 {
        let word = strip_quotes(rest[0]);
        let file: Option<&String> = match context {
            Some(ProbeContext::File(f)) => Some(f),
            Some(ProbeContext::Scope(f)) => Some(f),
            _ => None,
        };
        if let Some(file) = file {
            if is_source_facet(word) {
                let mut out = cat5(
                    "`",
                    word,
                    "` is a source-search facet, not a probe subject; use `mathmux search ",
                    file.as_str(),
                    " ",
                );
                push_str(&mut out, word);
                push_str(&mut out, "`");
                return Some(out);
            }
        }
        if let Some(ProbeContext::Position(location)) = context {
            if same(word, "source") {
                return Some(
                    cat5(
                        "source is a search form at FILE:LINE; use `mathmux search ",
                        location.as_str(),
                        "` for source or `mathmux probe ",
                        location.as_str(),
                        " goal` for Lean context",
                    ),
                );
            }
        }
    }
    if has_word(rest, "by", 1) {
        return Some(own("by requires FILE:LINE, cREF, or positioned qREF context"));
    }
    if let Some(found) = find_stray_directive(rest) {
        return Some(
            cat2(
                found,
                " requires FILE, FILE:LINE, cREF, or qREF context; use NAME signature for a declaration",
            ),
        );
    }
    None
}

/// The focus that the last word names.
pub open spec fn named_focus(terms: Seq<Seq<char>>) -> Option<Seq<char>> {
    if terms.len() > 0 && focus_word(lower(unquoted(terms.last()))) {
        Some(lower(unquoted(terms.last())))
    } else {
        None
    }
}

/// What the words of a probe ask for once its focus is taken off.
pub open spec fn subject_request(
    context: Option<ContextView>,
    terms: Seq<Seq<char>>,
    focus: Option<Seq<char>>,
) -> Result<ProbeRequestView, Seq<char>> {
    if context is None && terms.len() >= 3 && alike(terms[1], "find"@) {
        Ok(
            ProbeRequestView {
                context,
                subject: Some(terms[0]),
                focus: Some("find:"@ + joined(terms.skip(2), " "@)),
                directive: None,
            },
        )
    } else if context is Some && context->0 is Query && terms.len() >= 2 && alike(
        terms[0],
        "find"@,
    ) {
        Ok(
            ProbeRequestView {
                context,
                subject: None,
                focus: Some("find:"@ + joined(terms.skip(1), " "@)),
                directive: None,
            },
        )
    } else if context is None && terms.len() > 1 && !begins(terms[0], "type:"@) {
        Err(unknown_focus(joined(terms.drop_last(), " "@), unquoted(terms.last())))
    } else if context is None && terms.len() == 0 {
        Err("probe requires a subject or context"@)
    } else {
        Ok(
            ProbeRequestView {
                context,
                subject: if terms.len() > 0 {
                    Some(joined(terms, " "@))
                } else {
                    None
                },
                focus,
                directive: None,
            },
        )
    }
}

fn rest_from<'a>(list: &Vec<&'a str>, n: usize) -> (r: Vec<&'a str>)
    requires
        n <= list.len(),
    ensures
        strs(r@) == strs(list@).skip(n as int),
{
    let mut out: Vec<&'a str> = Vec::new();
    for i in n..list.len()
        invariant
            n <= list.len(),
            strs(out@) == strs(list@).skip(n as int).take(i - n),
    {
        proof {
            prefix_step(strs(list@).skip(n as int), i - n);
        }
        out.push(list[i]);
    }
    proof {
        prefix_all(strs(list@).skip(n as int));
    }
    out
}

fn read_subject(context: Option<ProbeContext>, terms: Vec<&str>, focus: Option<String>) -> (r:
    Result<ProbeRequest, Failure>)
    ensures
        probe_view(r) == subject_request(
            opt_context(context),
            strs(terms@),
            crate::text::scan::opt_string(focus),
        ),
{
    let ghost views = strs(terms@);
    assert(views.len() == terms.len());
    assert(forall|i: int| 0 <= i < terms.len() ==> views[i] == #[trigger] terms@[i]@);
    if context.is_none() && terms.len() >= 3 && same_ignoring_case(terms[1], "find") {
        let wanted = join_strs(&rest_from(&terms, 2), " ");
        return Ok(
            ProbeRequest {
                context,
                subject: Some(own(terms[0])),
                focus: Some(cat2("find:", wanted.as_str())),
                directive: None,
            },
        );
    }
    let stored = match &context {
        Some(ProbeContext::Query(_, _)) => true,
        _ => false,
    };
    if stored && terms.len() >= 2 && same_ignoring_case(terms[0], "find") {
        let wanted = join_strs(&rest_from(&terms, 1), " ");
        return Ok(
            ProbeRequest {
                context,
                subject: None,
                focus: Some(cat2("find:", wanted.as_str())),
                directive: None,
            },
        );
    }
    if context.is_none() && terms.len() > 1 && !starts_with(terms[0], "type:") {
        let requested = unquote(terms[terms.len() - 1]);
        let mut names = terms;
        let ghost all = names@;
        let _ = names.pop();
        assert(strs(names@) =~= views.drop_last());
        let name = join_strs(&names, " ");
        return refuse(unknown_focus_message(name.as_str(), requested).as_str());
    }
    if context.is_none() && terms.len() == 0 {
        return refuse("probe requires a subject or context");
    }
    let subject = if terms.len() > 0 {
        Some(join_strs(&terms, " "))
    } else {
        None
    };
    Ok(ProbeRequest { context, subject, focus, directive: None })
}

/// The view of a parsed probe.
pub open spec fn probe_view(r: Result<ProbeRequest, Failure>) -> Result<
    ProbeRequestView,
    Seq<char>,
> {
    match r {
        Ok(q) => Ok(q@),
        Err(e) => Err(e@),
    }
}

/// What a probe asks for that is not a directive.
pub open spec fn plain_request(context: Option<ContextView>, remainder: Seq<char>) -> Result<
    ProbeRequestView,
    Seq<char>,
> {
    let terms = words(remainder);
    match form_refusal(context, terms) {
        Some(message) => Err(message),
        None => match fragment_check(remainder, "search"@) {
            Err(message) => Err(message),
            Ok(_) => {
                if terms.len() > 0 && removed_focus(lower(terms.last())) {
                    Err(
                        "probe focus `"@ + lower(terms.last())
                            + "` was removed; use signature, source, usages, or a kind-specific focus"@,
                    )
                } else {
                    let focus = named_focus(terms);
                    let kept = if focus is Some {
                        terms.drop_last()
                    } else {
                        terms
                    };
                    if focus == Some("context"@) && !(context is Some && context->0 is Check) {
                        Err(
                            "Lean context requires an exact position; use `probe FILE:LINE goal` or `probe FILE:LINE TERM`"@,
                        )
                    } else {
                        subject_request(context, plain_terms(kept), focus)
                    }
                }
            },
        },
    }
}

/// The probe that a query stands for, or why it is refused.
pub open spec fn probe_request(query: Seq<char>) -> Result<ProbeRequestView, Seq<char>> {
    let text = bare(facets_detached(bare(query)));
    if text.len() == 0 || words(text).len() == 0 {
        Err("probe query is empty"@)
    } else if text == "mathmux probe"@ || begins(text, "mathmux probe "@) {
        Err("probe receives QUERY only; omit the leading `mathmux probe`"@)
    } else {
        let first = words(text)[0];
        let context = context_of(first);
        let remainder = if context is Some {
            bare(after_chars(text, first.len() as int))
        } else {
            text
        };
        match early_refusal(first, context, words(remainder)) {
            Some(message) => Err(message),
            None => match directive_of(unquoted(remainder)) {
                Err(message) => Err(message),
                Ok(Some(directive)) => if context is Some {
                    Ok(
                        ProbeRequestView {
                            context,
                            subject: None,
                            focus: None,
                            directive: Some(directive),
                        },
                    )
                } else {
                    Err("Lean directives require FILE, FILE:LINE, cREF, or qREF context"@)
                },
                Ok(None) => plain_request(context, remainder),
            },
        }
    }
}

fn read_plain(context: Option<ProbeContext>, remainder: &str) -> (r: Result<ProbeRequest, Failure>)
    ensures
        probe_view(r) == plain_request(opt_context(context), remainder@),
{
    let mut terms = split_words(remainder);
    let ghost views = words(remainder@);
    assert(views.len() == terms.len());
    if let Some(message) = refuse_form(&context, &terms) {
        return refuse(message.as_str());
    }
    match validate_balanced_fragment(remainder) {
        Ok(_) => {},
        Err(e) => {
            return Err(e);
        },
    }
    let mut focus: Option<String> = None;
    if terms.len() > 0 {
        let last = terms[terms.len() - 1];
        assert(views.last() == last@);
        let lowered = to_lower(last);
        if is_removed_focus(lowered.as_str()) {
            return refuse(
                cat3(
                    "probe focus `",
                    lowered.as_str(),
                    "` was removed; use signature, source, usages, or a kind-specific focus",
                ).as_str(),
            );
        }
        let candidate = to_lower(unquote(last));
        if is_focus_word(candidate.as_str()) {
            focus = Some(candidate);
            let _ = terms.pop();
            assert(strs(terms@) =~= views.drop_last());
        }
    }
    let checked = match &context {
        Some(ProbeContext::Check(_)) => true,
        _ => false,
    };
    if let Some(f) = &focus {
        if same(f.as_str(), "context") && !checked {
            return refuse(
                "Lean context requires an exact position; use `probe FILE:LINE goal` or `probe FILE:LINE TERM`",
            );
        }
    }
    let ghost kept = strs(terms@);
    if terms.len() > 0 {
        let head = without_prefix(terms[0], "@");
        terms.set(0, head);
        assert(strs(terms@) =~= kept.update(0, head@));
    }
    assert(strs(terms@) =~= plain_terms(kept));
    read_subject(context, terms, focus)
}

impl ProbeRequest {
    /// Reads a probe request.
    pub fn parse(query: &str) -> (r: Result<Self, Failure>)
        ensures
            probe_view(r) == probe_request(query@),
    {
        let normalized = normalize_colon_attached_source_facet(trim(query));
        let text = trim(normalized.as_str());
        let all = split_words(text);
        assert(strs(all@).len() == all.len());
        if text.is_empty() || all.len() == 0 {
            return refuse("probe query is empty");
        }
        if same(text, "mathmux probe") || starts_with(text, "mathmux probe ") {
            return refuse("probe receives QUERY only; omit the leading `mathmux probe`");
        }
        let first = all[0];
        assert(strs(all@)[0] == first@);
        let context = parse_context(first);
        let remainder = if context.is_some() {
            trim(skip_chars(text, first.unicode_len()))
        } else {
            text
        };
        let rest = split_words(remainder);
        if let Some(message) = refuse_early(first, &context, &rest) {
            return refuse(message.as_str());
        }
        match parse_directive(unquote(remainder)) {
            Err(e) => Err(e),
            Ok(Some(directive)) => {
                if context.is_none() {
                    return refuse("Lean directives require FILE, FILE:LINE, cREF, or qREF context");
                }
                Ok(
                    ProbeRequest { context, subject: None, focus: None, directive: Some(directive) },
                )
            },
            Ok(None) => read_plain(context, remainder),
        }
    }
}

} // verus!

//! A line of a source with the lines around it.
use crate::failure::{refuse, Failure};
use crate::path::{is_lean_file, lean_file};
use crate::search::excerpt::unless_blank;
use crate::search::groups::file_spans;
use crate::search::limits::{LOCATION_EXPANDED_LINES, LOCATION_PREVIEW_LINES, SOURCE_PREVIEW_LINES};
use crate::search::lines::{name_shown, show_name, shown_hit};
use crate::search::modules::{module_name, module_of, SourceKind};
use crate::search::names::nonempty;
use crate::search::records::{
    hit_views, hit_views_push, usage_views, ResultView, SearchHit, SearchResult, SearchUsage,
};
use crate::search::spans::{
    declaration_spans, declared_views, enclosing_declaration_span, span_at, DeclarationSpan,
    SpanView,
};
use crate::search::tree::{
    missing_source, missing_source_message, opt_tree, resolve_source_path, source_at,
    ResolvedSource, ResolvedView, SourceTree, TreeView,
};
use crate::text::make::{
    alike, cat3, cat4, copy_opt, join, joined, own, prefix_all, prefix_step, push_str,
    same_ignoring_case, strings, strings_push, strs, strs_push,
};
use crate::text::number::{align_right, decimal, number, parse_u64, right_aligned, show, show_size};
use crate::text::pieces::{line_list, lines, split_words, words};
use crate::text::scan::{opt_str, opt_string, rcut, rsplit_once};
use vstd::prelude::*;

verus! {

broadcast use {strings_push, strs_push, hit_views_push};

/// A text that is a number.
pub open spec fn numeral(text: Seq<char>) -> bool {
    number(text, u64::MAX as nat) is Some
}

/// A word that names a line of a Lean file, or its end.
pub open spec fn location_token(token: Seq<char>) -> bool {
    match rcut(token, ":"@) {
        None => false,
        Some((prefix, suffix)) => {
            let path = match rcut(prefix, ":"@) {
                Some((path, line)) => if numeral(line) {
                    path
                } else {
                    prefix
                },
                None => prefix,
            };
            (alike(suffix, "tail"@) || numeral(suffix)) && lean_file(path)
        },
    }
}

/// Decides [`location_token`].
pub fn is_source_location_token(token: &str) -> (r: bool)
    ensures
        r == location_token(token@),
{
    let Some((prefix, suffix)) = rsplit_once(token, ":") else {
        return false;
    };
    if !same_ignoring_case(suffix, "tail") && parse_u64(suffix).is_none() {
        return false;
    }
    let path = match rsplit_once(prefix, ":") {
        Some((path, line)) => if parse_u64(line).is_some() {
            path
        } else {
            prefix
        },
        None => prefix,
    };
    is_lean_file(path)
}

/// The words that name a line.
pub open spec fn location_words(list: Seq<Seq<char>>) -> Seq<Seq<char>>
    decreases list.len(),
{
    if list.len() == 0 {
        Seq::empty()
    } else if location_token(list.last()) {
        location_words(list.drop_last()).push(list.last())
    } else {
        location_words(list.drop_last())
    }
}

/// The word of a request that alone names a line, or else the whole request.
pub open spec fn location_part(query: Seq<char>) -> Seq<char> {
    let found = location_words(words(query));
    if found.len() == 1 {
        found[0]
    } else {
        query
    }
}

/// Computes [`location_part`].
pub fn find_location<'a>(query: &'a str) -> (r: &'a str)
    ensures
        r@ == location_part(query@),
{
    let list = split_words(query);
    let ghost views = strs(list@);
    let mut found: Vec<&'a str> = Vec::new();
    assert(strs(found@) =~= Seq::empty());
    for i in 0..list.len()
        invariant
            views == strs(list@),
            strs(found@) == location_words(views.take(i as int)),
    {
        proof {
            prefix_step(views, i as int);
        }
        assert(views[i as int] == list@[i as int]@);
        if is_source_location_token(list[i]) {
            found.push(list[i]);
        }
    }
    proof {
        prefix_all(views);
    }
    assert(strs(found@).len() == found.len());
    if found.len() == 1 {
        assert(strs(found@)[0] == found@[0]@);
        found[0]
    } else {
        query
    }
}

/// A line of a file that was found. Without a line the end of the file is meant.
#[derive(Debug)]
pub struct LocationRequest {
    pub path: String,
    pub display_path: Option<String>,
    pub line: Option<u64>,
    pub project: bool,
}

/// The contents of a [`LocationRequest`].
pub struct LocationRequestView {
    pub path: Seq<char>,
    pub display_path: Option<Seq<char>>,
    pub line: Option<u64>,
    pub project: bool,
}

impl View for LocationRequest {
    type V = LocationRequestView;

    open spec fn view(&self) -> LocationRequestView {
        LocationRequestView {
            path: self.path@,
            display_path: opt_string(self.display_path),
            line: self.line,
            project: self.project,
        }
    }
}

/// The view of an optional request.
pub open spec fn location_view(r: Result<Option<LocationRequest>, Failure>) -> Result<
    Option<LocationRequestView>,
    Seq<char>,
> {
    match r {
        Ok(Some(q)) => Ok(Some(q@)),
        Ok(None) => Ok(None),
        Err(e) => Err(e@),
    }
}

/// A request for a line of a file that was found, or the refusal where it was not.
pub open spec fn located(
    found: Option<ResolvedView>,
    missing: Seq<char>,
    line: Option<u64>,
) -> Result<Option<LocationRequestView>, Seq<char>> {
    match found {
        None => Err(missing),
        Some(source) => if line == Some(0u64) {
            Err("source line starts at 1"@)
        } else {
            Ok(
                Some(
                    LocationRequestView {
                        path: source.path,
                        display_path: source.display,
                        line,
                        project: source.project,
                    },
                ),
            )
        },
    }
}

/// What a request for a line asks for, unless it is no such request.
pub open spec fn location_request(
    tree: TreeView,
    main: Option<TreeView>,
    query: Seq<char>,
) -> Result<Option<LocationRequestView>, Seq<char>> {
    let q = location_part(query);
    match rcut(q, ":"@) {
        None => Ok(None),
        Some((path, suffix)) => if numeral(suffix) && rcut(path, ":"@) is Some && numeral(
            (rcut(path, ":"@)->0).1,
        ) {
            Err("positions use FILE:LINE; columns are not supported"@)
        } else if alike(suffix, "tail"@) {
            located(source_at(tree, path), missing_source(tree, main, path), None)
        } else if numeral(suffix) {
            located(
                source_at(tree, path),
                missing_source(tree, main, path),
                Some(number(suffix, u64::MAX as nat)->0 as u64),
            )
        } else {
            Ok(None)
        },
    }
}

fn locate(found: Option<ResolvedSource>, missing: String, line: Option<u64>) -> (r: Result<
    Option<LocationRequest>,
    Failure,
>)
    ensures
        location_view(r) == located(crate::search::tree::resolved_view(found), missing@, line),
{
    match found {
        None => refuse(missing.as_str()),
        Some(source) => {
            if let Some(n) = line {
                if n == 0 {
                    return refuse("source line starts at 1");
                }
            }
            Ok(
                Some(
                    LocationRequest {
                        path: source.path,
                        display_path: source.display,
                        line,
                        project: source.project,
                    },
                ),
            )
        },
    }
}

/// Computes [`location_request`].
pub fn parse_source_location(tree: &SourceTree, main: Option<&SourceTree>, query: &str) -> (r: Result<
    Option<LocationRequest>,
    Failure,
>)
    ensures
        location_view(r) == location_request(tree@, opt_tree(main), query@),
{
    let q = find_location(query);
    let Some((path, suffix)) = rsplit_once(q, ":") else {
        return Ok(None);
    };
    let line = parse_u64(suffix);
    if line.is_some() {
        if let Some((_, before)) = rsplit_once(path, ":") {
            if parse_u64(before).is_some() {
                return refuse("positions use FILE:LINE; columns are not supported");
            }
        }
    }
    if same_ignoring_case(suffix, "tail") {
        return locate(
            resolve_source_path(tree, path),
            missing_source_message(tree, main, path),
            None,
        );
    }
    match line {
        Some(n) => locate(
            resolve_source_path(tree, path),
            missing_source_message(tree, main, path),
            Some(n),
        ),
        None => Ok(None),
    }
}

/// A line of a file, as it is shown.
#[derive(Debug)]
pub struct SourceLocation {
    pub path: String,
    pub display_path: Option<String>,
    pub line: u64,
    pub tail: bool,
    pub expanded: bool,
}

/// The contents of a [`SourceLocation`].
pub struct LocationView {
    pub path: Seq<char>,
    pub display_path: Option<Seq<char>>,
    pub line: u64,
    pub tail: bool,
    pub expanded: bool,
}

impl View for SourceLocation {
    type V = LocationView;

    open spec fn view(&self) -> LocationView {
        LocationView {
            path: self.path@,
            display_path: opt_string(self.display_path),
            line: self.line,
            tail: self.tail,
            expanded: self.expanded,
        }
    }
}

/// The line that a request means in a source.
pub open spec fn location_in_source(
    q: LocationRequestView,
    source: Seq<char>,
    expanded: bool,
) -> LocationView {
    LocationView {
        path: q.path,
        display_path: q.display_path,
        line: match q.line {
            Some(n) => n,
            None => crate::search::spans::last_line(source),
        },
        tail: q.line is None,
        expanded,
    }
}

impl LocationRequest {
    /// Computes [`location_in_source`].
    pub fn in_source(&self, source: &str, expanded: bool) -> (r: SourceLocation)
        ensures
            r@ == location_in_source(self@, source@, expanded),
    {
        let list = lines(source);
        assert(strs(list@).len() == list.len());
        let line = match self.line {
            Some(n) => n,
            None => if list.len() < 1 {
                1
            } else {
                list.len() as u64
            },
        };
        SourceLocation {
            path: self.path.clone(),
            display_path: copy_opt(&self.display_path),
            line,
            tail: self.line.is_none(),
            expanded,
        }
    }
}

/// The first of the lines that are shown around a line, counted from zero, and the one
/// after the last.
pub open spec fn location_window(count: int, requested: int, limit: int) -> (int, int) {
    let target = if requested < 1 {
        0
    } else if requested - 1 < count - 1 {
        requested - 1
    } else {
        count - 1
    };
    let before = if target < 6 {
        0
    } else {
        target - 6
    };
    let latest = if count < limit {
        0
    } else {
        count - limit
    };
    let start = if before < latest {
        before
    } else {
        latest
    };
    (
        start,
        if start + limit < count {
            start + limit
        } else {
            count
        },
    )
}

fn find_window(count: usize, requested: u64, limit: usize) -> (r: (usize, usize))
    requires
        count > 0,
    ensures
        (r.0 as int, r.1 as int) == location_window(count as int, requested as int, limit as int),
        r.0 <= r.1 <= count,
{
    let target: usize = if requested < 1 {
        0
    } else if requested - 1 < (count - 1) as u64 {
        (requested - 1) as usize
    } else {
        count - 1
    };
    let before = if target < 6 {
        0
    } else {
        target - 6
    };
    let latest = if count < limit {
        0
    } else {
        count - limit
    };
    let start = if before < latest {
        before
    } else {
        latest
    };
    let end = if limit < count - start {
        start + limit
    } else {
        count
    };
    (start, end)
}

/// The lines that are shown around a line include it, and are as many as asked for or all
/// there are.
pub proof fn window_holds_the_line(count: int, requested: int, limit: int)
    requires
        1 <= requested <= count,
        limit >= 7,
    ensures
        location_window(count, requested, limit).0 < requested <= location_window(
            count,
            requested,
            limit,
        ).1,
        location_window(count, requested, limit).1 - location_window(count, requested, limit).0
            == if limit < count {
            limit
        } else {
            count
        },
{
}

/// The first and the last of the lines that are shown.
pub open spec fn shown_bounds(source: Seq<char>, requested: u64, limit: int) -> (u64, u64) {
    let count = line_list(source).len() as int;
    if count == 0 {
        (0, 0)
    } else {
        let w = location_window(count, requested as int, limit);
        ((w.0 + 1) as u64, w.1 as u64)
    }
}

/// Computes [`shown_bounds`].
pub fn location_excerpt_bounds(source: &str, requested_line: u64, line_limit: usize) -> (r: (u64, u64))
    ensures
        r == shown_bounds(source@, requested_line, line_limit as int),
{
    let list = lines(source);
    assert(strs(list@).len() == list.len());
    if list.len() == 0 {
        return (0, 0);
    }
    let (start, end) = find_window(list.len(), requested_line, line_limit);
    (start as u64 + 1, end as u64)
}

/// Lines with their numbers.
pub open spec fn numbered(list: Seq<Seq<char>>, start: int, end: int) -> Seq<Seq<char>> {
    Seq::new(
        (end - start) as nat,
        |k: int| right_aligned(decimal((start + k + 1) as nat), 5) + "  "@ + list[start + k],
    )
}

/// The lines that are shown around a line.
pub open spec fn shown_lines(source: Seq<char>, requested: u64, limit: int) -> Seq<char> {
    let list = line_list(source);
    if list.len() == 0 {
        ""@
    } else {
        let w = location_window(list.len() as int, requested as int, limit);
        joined(numbered(list, w.0, w.1), "\n"@)
    }
}

/// Computes [`shown_lines`].
pub fn location_source_excerpt(source: &str, requested_line: u64, line_limit: usize) -> (r: String)
    ensures
        r@ == shown_lines(source@, requested_line, line_limit as int),
{
    let list = lines(source);
    let ghost views = strs(list@);
    assert(views.len() == list.len());
    if list.len() == 0 {
        return own("");
    }
    let (start, end) = find_window(list.len(), requested_line, line_limit);
    let ghost wanted = numbered(views, start as int, end as int);
    let mut out: Vec<String> = Vec::new();
    assert(strings(out@) =~= wanted.take(0));
    for i in start..end
        invariant
            start <= i,
            start <= end <= list.len(),
            views == strs(list@),
            wanted == numbered(views, start as int, end as int),
            strings(out@) == wanted.take(i - start),
    {
        proof {
            prefix_step(wanted, i - start);
        }
        assert(views[i as int] == list@[i as int]@);
        let aligned = align_right(show_size(i + 1).as_str(), 5);
        out.push(cat3(aligned.as_str(), "  ", list[i]));
    }
    proof {
        prefix_all(wanted);
    }
    join(&out, "\n")
}

/// How many lines are shown around a line.
pub open spec fn location_limit(expanded: bool, tail: bool) -> usize {
    if expanded {
        LOCATION_EXPANDED_LINES
    } else if tail {
        SOURCE_PREVIEW_LINES
    } else {
        LOCATION_PREVIEW_LINES
    }
}

/// The answer that shows a line of a file with given declarations.
pub open spec fn location_answer(
    at: LocationView,
    source: Seq<char>,
    spans: Seq<SpanView>,
    path: Seq<char>,
    note: Option<Seq<char>>,
    source_only: bool,
) -> ResultView {
    let limit = location_limit(at.expanded, at.tail) as int;
    let bounds = shown_bounds(source, at.line, limit);
    let enclosing = span_at(spans, at.line, spans.len());
    ResultView {
        hits: seq![
            shown_hit(
                match enclosing {
                    Some(i) => spans[i].name,
                    None => "source"@,
                },
                if at.expanded {
                    "location-expanded"@
                } else {
                    "location"@
                },
                match enclosing {
                    Some(i) => "inside "@ + spans[i].kind + " lines "@ + decimal(
                        spans[i].start as nat,
                    ) + "-"@ + decimal(spans[i].end as nat) + "; showing "@ + decimal(
                        bounds.0 as nat,
                    ) + "-"@ + decimal(bounds.1 as nat),
                    None => "showing lines "@ + decimal(bounds.0 as nat) + "-"@ + decimal(
                        bounds.1 as nat,
                    ),
                },
                ""@,
                path,
                at.line,
                unless_blank(shown_lines(source, at.line, limit)),
            ),
        ],
        inference: if source_only {
            "source-only"@
        } else {
            "source"@
        },
        note,
        ok: true,
    }
}

/// Computes [`location_answer`].
pub fn answer_location(
    at: &SourceLocation,
    source: &str,
    spans: &Vec<DeclarationSpan>,
    path: &str,
    note: Option<&str>,
    source_only: bool,
) -> (r: SearchResult)
    ensures
        r@ == location_answer(
            at@,
            source@,
            declared_views(spans@),
            path@,
            opt_str(note),
            source_only,
        ),
{
    let ghost regions = declared_views(spans@);
    assert(regions.len() == spans.len());
    let limit: usize = if at.expanded {
        LOCATION_EXPANDED_LINES
    } else if at.tail {
        SOURCE_PREVIEW_LINES
    } else {
        LOCATION_PREVIEW_LINES
    };
    let (first, last) = location_excerpt_bounds(source, at.line, limit);
    let from = show(first);
    let to = show(last);
    let mut name = own("source");
    let mut signature = own("");
    match enclosing_declaration_span(spans, at.line) {
        Some(i) => {
            assert(regions[i as int] == spans@[i as int]@);
            name = spans[i].name.clone();
            signature = cat3("inside ", spans[i].kind.as_str(), " lines ");
            push_str(&mut signature, show(spans[i].start).as_str());
            push_str(&mut signature, "-");
            push_str(&mut signature, show(spans[i].end).as_str());
            push_str(&mut signature, "; showing ");
            push_str(&mut signature, from.as_str());
            push_str(&mut signature, "-");
            push_str(&mut signature, to.as_str());
        },
        None => {
            signature = cat4("showing lines ", from.as_str(), "-", to.as_str());
        },
    }
    let usages: Vec<SearchUsage> = Vec::new();
    assert(usage_views(usages@) =~= Seq::empty());
    let hit = SearchHit {
        name,
        kind: own(
            if at.expanded {
                "location-expanded"
            } else {
                "location"
            },
        ),
        signature: Some(signature),
        module: own(""),
        path: own(path),
        line: at.line,
        doc: None,
        source: nonempty(location_source_excerpt(source, at.line, limit)),
        usages,
        applicable: false,
        required_import: None,
    };
    let mut hits: Vec<SearchHit> = Vec::new();
    hits.push(hit);
    assert(hit_views(hits@) =~= seq![hit@]);
    SearchResult {
        hits,
        inference: own(
            if source_only {
                "source-only"
            } else {
                "source"
            },
        ),
        note: match note {
            Some(text) => Some(own(text)),
            None => None,
        },
        ok: true,
    }
}

/// The answer that shows a line of a file of a workspace.
pub fn source_location_result(
    at: &SourceLocation,
    source: &str,
    workspace: &str,
    note: Option<&str>,
    source_only: bool,
) -> (r: SearchResult)
    ensures
        r@ == location_answer(
            at@,
            source@,
            file_spans(source@, module_of(at.path@, workspace@, SourceKind::Project)),
            name_shown(opt_string(at.display_path), at.path@, workspace@),
            opt_str(note),
            source_only,
        ),
{
    let path = show_name(&at.display_path, at.path.as_str(), workspace);
    let module = module_name(at.path.as_str(), workspace, SourceKind::Project);
    let spans = declaration_spans(source, module.as_str());
    answer_location(at, source, &spans, path.as_str(), note, source_only)
}

} // verus!

//! Requests to search sources with a regular expression.
use crate::failure::{refuse, Failure};
use crate::path::{absolute, is_absolute, is_lean_file, is_under, join_path, lean_file, lies_under, placed_under};
use crate::search::groups::{RegexQueryView, SourceRegexQuery};
use crate::search::patterns::{is_pattern, pattern_valid};
use crate::search::request::{line_range, parse_source_line_range};
use crate::search::tree::{
    all_led, choice_of, choose_sole, follow_all, missing_source, missing_source_message, opt_tree,
    resolve_source_path, source_at, Choice, ChoiceView, SourceTree, TreeView,
};
use crate::text::make::{
    alike, byte_length, cat2, cat3, own, prefix_all, prefix_step, same, same_ignoring_case, strings,
    strings_push, strs, to_chars,
};
use crate::text::pieces::{first_word, next_word, split_words, words};
use crate::text::scan::{
    after_prefix, bare, before_suffix, begins, find, find_text, opt_str, rcut, rfind, rfind_text,
    rsplit_once, sans_suffix, slice, starts_with, strip_prefix, strip_suffix, subtext, trim,
    without_suffix,
};
use vstd::prelude::*;

verus! {

broadcast use strings_push;

/// How many backslashes stand right before position `i`, down to position `from`.
pub open spec fn backslashes(text: Seq<char>, from: int, i: int) -> nat
    decreases i - from,
{
    if i <= from || text[i - 1] != '\\' {
        0
    } else {
        backslashes(text, from, i - 1) + 1
    }
}

/// The first slash from position `i` on that no backslash escapes.
pub open spec fn closing_slash(text: Seq<char>, i: int) -> Option<int>
    decreases text.len() - i,
{
    if i >= text.len() {
        None
    } else if text[i] == '/' && backslashes(text, 1, i) % 2 == 0 {
        Some(i)
    } else {
        closing_slash(text, i + 1)
    }
}

fn count_backslashes(text: &Vec<char>, from: usize, i: usize) -> (r: usize)
    requires
        from <= i <= text.len(),
    ensures
        r == backslashes(text@, from as int, i as int),
{
    let mut at = i;
    let mut n: usize = 0;
    while at > from && text[at - 1] == '\\'
        invariant
            from <= at <= i <= text.len(),
            n + at == i,
            backslashes(text@, from as int, i as int) == n + backslashes(
                text@,
                from as int,
                at as int,
            ),
        decreases at,
    {
        at -= 1;
        n += 1;
    }
    n
}

fn find_closing_slash(text: &Vec<char>) -> (r: Option<usize>)
    requires
        text.len() >= 1,
    ensures
        match r {
            Some(i) => 1 <= i < text.len() && closing_slash(text@, 1) == Some(i as int),
            None => closing_slash(text@, 1) is None,
        },
{
    for i in 1..text.len()
        invariant
            1 <= i,
            closing_slash(text@, 1) == closing_slash(text@, i as int),
    {
        if text[i] == '/' && count_backslashes(text, 1, i) % 2 == 0 {
            return Some(i);
        }
    }
    None
}

/// Where the expression of a request begins, and whether its scope stands right before
/// it.
pub open spec fn expression_start(query: Seq<char>) -> Option<(int, bool)> {
    if begins(query, "/"@) {
        Some((0, false))
    } else {
        match find_text(query, " /"@) {
            Some(i) => Some((i + 1, false)),
            None => match find_text(query, ":/"@) {
                Some(i) => Some((i + 1, true)),
                None => None,
            },
        }
    }
}

/// Where the expression of a request ends.
pub open spec fn expression_stop(query: Seq<char>, start: int) -> Option<int> {
    if start == 0 {
        closing_slash(query, 1)
    } else {
        rfind_text(query, "/"@)
    }
}

/// The parts of a request: its expression, its scope, and whether the scope stood right
/// before the expression.
pub open spec fn regex_parts(query: Seq<char>) -> Option<(Seq<char>, Seq<char>)> {
    let q = bare(query);
    match expression_start(q) {
        Some((start, compact)) => match expression_stop(q, start) {
            Some(end) => if end <= start + 1 {
                None
            } else {
                let around = bare(subtext(q, 0, start) + " "@ + subtext(q, end + 1, q.len() as int));
                let scope = if compact {
                    sans_suffix(around, ":"@)
                } else {
                    around
                };
                Some((subtext(q, start + 1, end), unbracketed(scope)))
            },
            None => None,
        },
        None => None,
    }
}

/// A scope without the brackets around it.
pub open spec fn unbracketed(scope: Seq<char>) -> Seq<char> {
    match after_prefix(scope, "["@) {
        Some(rest) => match before_suffix(rest, "]"@) {
            Some(inner) => inner,
            None => scope,
        },
        None => scope,
    }
}

fn strip_brackets<'a>(scope: &'a str) -> (r: &'a str)
    ensures
        r@ == unbracketed(scope@),
{
    match strip_prefix(scope, "[") {
        Some(rest) => match strip_suffix(rest, "]") {
            Some(inner) => inner,
            None => scope,
        },
        None => scope,
    }
}

/// The contents of an optional pair.
pub open spec fn opt_strings(o: Option<(String, String)>) -> Option<(Seq<char>, Seq<char>)> {
    match o {
        Some(p) => Some((p.0@, p.1@)),
        None => None,
    }
}

/// Computes [`regex_parts`].
pub fn split_regex_query(query: &str) -> (r: Option<(String, String)>)
    ensures
        opt_strings(r) == regex_parts(query@),
{
    let q = trim(query);
    let length = q.unicode_len();
    let mut start: usize = 0;
    let mut compact = false;
    proof {
        reveal_strlit("/");
        reveal_strlit(" /");
        reveal_strlit(":/");
    }
    if !starts_with(q, "/") {
        match find(q, " /") {
            Some(i) => {
                start = i + 1;
            },
            None => match find(q, ":/") {
                Some(i) => {
                    start = i + 1;
                    compact = true;
                },
                None => {
                    return None;
                },
            },
        }
    }
    let end = if start == 0 {
        let chars = to_chars(q);
        match find_closing_slash(&chars) {
            Some(i) => i,
            None => {
                return None;
            },
        }
    } else {
        match rfind(q, "/") {
            Some(i) => i,
            None => {
                return None;
            },
        }
    };
    if end <= start + 1 {
        return None;
    }
    let pattern = slice(q, start + 1, end);
    let before = slice(q, 0, start);
    let after = slice(q, end + 1, length);
    let joint = cat3(before, " ", after);
    let around = trim(joint.as_str());
    let scope = if compact {
        without_suffix(around, ":")
    } else {
        around
    };
    Some((own(pattern), own(strip_brackets(scope))))
}

/// What is wrong with an expression and its scope, before anything is looked up.
pub open spec fn regex_fault(pattern: Seq<char>, scope: Seq<char>) -> Option<Seq<char>> {
    let word = first_word(scope);
    if byte_length(pattern) > 500 {
        Some("source regex is too long"@)
    } else if !pattern_valid(pattern) {
        Some("invalid source regex"@)
    } else if word == Some("--all"@) {
        Some(
            "source regex options must be outside the query; use `mathmux search '/REGEX/' --all`"@,
        )
    } else if word == Some("--limit"@) {
        Some(
            "source regex options must be outside the query; use `mathmux search '/REGEX/' --limit N`"@,
        )
    } else if word is Some && alike(word->0, "source"@) {
        Some("source is a help label, not a keyword; use /REGEX/ or PATH /REGEX/ directly"@)
    } else if words(scope).len() > 1 {
        Some("source regex accepts at most one file or directory scope"@)
    } else {
        None
    }
}

fn find_regex_fault(pattern: &str, scope: &str) -> (r: Option<&'static str>)
    ensures
        opt_str(r) == regex_fault(pattern@, scope@),
{
    if pattern.len() > 500 {
        return Some("source regex is too long");
    }
    if !is_pattern(pattern) {
        return Some("invalid source regex");
    }
    if let Some(word) = next_word(scope) {
        if same(word, "--all") {
            return Some(
                "source regex options must be outside the query; use `mathmux search '/REGEX/' --all`",
            );
        }
        if same(word, "--limit") {
            return Some(
                "source regex options must be outside the query; use `mathmux search '/REGEX/' --limit N`",
            );
        }
        if same_ignoring_case(word, "source") {
            return Some(
                "source is a help label, not a keyword; use /REGEX/ or PATH /REGEX/ directly",
            );
        }
    }
    let list = split_words(scope);
    assert(strs(list@).len() == list.len());
    if list.len() > 1 {
        return Some("source regex accepts at most one file or directory scope");
    }
    None
}

/// The places at which a directory is looked for.
pub open spec fn directory_places(tree: TreeView, scope: Seq<char>) -> Seq<Seq<char>> {
    if absolute(scope) {
        seq![scope]
    } else {
        seq![placed_under(tree.cwd, scope), placed_under(tree.real_root, scope)]
            + match tree.packages {
            Some(p) => seq![placed_under(p, scope)] + tree.package_roots.map_values(
                |root: Seq<char>| placed_under(root, scope),
            ),
            None => Seq::empty(),
        }
    }
}

fn places_of_directory(tree: &SourceTree, scope: &str) -> (r: Vec<String>)
    ensures
        strings(r@) == directory_places(tree@, scope@),
{
    let mut out: Vec<String> = Vec::new();
    if is_absolute(scope) {
        out.push(own(scope));
        assert(strings(out@) =~= seq![scope@]);
        return out;
    }
    out.push(join_path(tree.cwd.as_str(), scope));
    out.push(join_path(tree.real_root.as_str(), scope));
    let ghost first = seq![placed_under(tree.cwd@, scope@), placed_under(tree.real_root@, scope@)];
    assert(strings(out@) =~= first);
    match &tree.packages {
        Some(packages) => {
            out.push(join_path(packages.as_str(), scope));
            let ghost head = seq![placed_under(packages@, scope@)];
            let ghost wanted = strings(tree.package_roots@).map_values(
                |root: Seq<char>| placed_under(root, scope@),
            );
            assert(strings(out@) =~= first + (head + wanted.take(0)));
            for i in 0..tree.package_roots.len()
                invariant
                    wanted == strings(tree.package_roots@).map_values(
                        |root: Seq<char>| placed_under(root, scope@),
                    ),
                    strings(out@) == first + (head + wanted.take(i as int)),
            {
                proof {
                    prefix_step(wanted, i as int);
                }
                out.push(join_path(tree.package_roots[i].as_str(), scope));
                assert(strings(out@) =~= first + (head + wanted.take(i + 1)));
            }
            proof {
                prefix_all(wanted);
            }
        },
        None => {
            assert(strings(out@) =~= first + Seq::<Seq<char>>::empty());
        },
    }
    out
}

/// The directory that a scope leads to.
pub open spec fn directory_at(tree: TreeView, scope: Seq<char>) -> Result<Seq<char>, Seq<char>> {
    match choice_of(all_led(tree.directories, directory_places(tree, scope))) {
        ChoiceView::One(path) => if lies_under(path, tree.real_root) || (tree.packages is Some
            && lies_under(path, tree.packages->0)) {
            Ok(path)
        } else {
            Err("source regex scope is outside the workspace"@)
        },
        _ => Err("source directory not found or ambiguous: "@ + scope),
    }
}

/// Computes [`directory_at`].
pub fn resolve_source_directory(tree: &SourceTree, scope: &str) -> (r: Result<String, Failure>)
    ensures
        crate::failure::text_view(r) == directory_at(tree@, scope@),
{
    match choose_sole(&follow_all(&tree.directories, &places_of_directory(tree, scope))) {
        Choice::One(path) => {
            let mut inside = is_under(path.as_str(), tree.real_root.as_str());
            if let Some(packages) = &tree.packages {
                if is_under(path.as_str(), packages.as_str()) {
                    inside = true;
                }
            }
            if inside {
                Ok(path)
            } else {
                refuse("source regex scope is outside the workspace")
            }
        },
        _ => refuse(cat2("source directory not found or ambiguous: ", scope).as_str()),
    }
}

/// A scope and the lines that it names.
pub open spec fn ranged(scope: Seq<char>) -> (Seq<char>, Option<(u64, u64)>) {
    match rcut(scope, ":"@) {
        Some(sides) => match line_range(sides.1) {
            Some(range) => (sides.0, Some(range)),
            None => (scope, None),
        },
        None => (scope, None),
    }
}

/// Computes [`ranged`].
pub fn split_range<'a>(scope: &'a str) -> (r: (&'a str, Option<(u64, u64)>))
    ensures
        (r.0@, r.1) == ranged(scope@),
{
    match rsplit_once(scope, ":") {
        Some((path, range)) => match parse_source_line_range(range) {
            Some(lines) => (path, Some(lines)),
            None => (scope, None),
        },
        None => (scope, None),
    }
}

/// What a scope leads to: the whole workspace, a file, or a directory.
pub open spec fn scope_at(
    tree: TreeView,
    main: Option<TreeView>,
    scope: Seq<char>,
    has_range: bool,
) -> Result<Seq<char>, Seq<char>> {
    if scope.len() == 0 {
        Ok(tree.real_root)
    } else if has_range || lean_file(scope) {
        match source_at(tree, scope) {
            Some(source) => Ok(source.path),
            None => Err(missing_source(tree, main, scope)),
        }
    } else {
        directory_at(tree, scope)
    }
}

fn resolve_scope(tree: &SourceTree, main: Option<&SourceTree>, scope: &str, has_range: bool) -> (r:
    Result<String, Failure>)
    ensures
        crate::failure::text_view(r) == scope_at(tree@, opt_tree(main), scope@, has_range),
{
    if scope.is_empty() {
        Ok(tree.real_root.clone())
    } else if has_range || is_lean_file(scope) {
        match resolve_source_path(tree, scope) {
            Some(source) => Ok(source.path),
            None => refuse(missing_source_message(tree, main, scope).as_str()),
        }
    } else {
        resolve_source_directory(tree, scope)
    }
}

/// The view of an optional request.
pub open spec fn regex_request_view(r: Result<Option<SourceRegexQuery>, Failure>) -> Result<
    Option<RegexQueryView>,
    Seq<char>,
> {
    match r {
        Ok(Some(q)) => Ok(Some(q@)),
        Ok(None) => Ok(None),
        Err(e) => Err(e@),
    }
}

/// What a request to search with a regular expression asks for, unless it is no such
/// request.
pub open spec fn regex_request(tree: TreeView, main: Option<TreeView>, query: Seq<char>) -> Result<
    Option<RegexQueryView>,
    Seq<char>,
> {
    match regex_parts(query) {
        None => Ok(None),
        Some((pattern, whole)) => match regex_fault(pattern, whole) {
            Some(fault) => Err(fault),
            None => {
                let (scope, range) = ranged(whole);
                match scope_at(tree, main, scope, range is Some) {
                    Ok(found) => Ok(
                        Some(
                            RegexQueryView {
                                scope: found,
                                pattern,
                                first_line: if range is Some {
                                    (range->0).0
                                } else {
                                    1
                                },
                                last_line: if range is Some {
                                    (range->0).1
                                } else {
                                    u64::MAX
                                },
                            },
                        ),
                    ),
                    Err(fault) => Err(fault),
                }
            },
        },
    }
}

/// Computes [`regex_request`].
pub fn parse_source_regex_query(
    tree: &SourceTree,
    main: Option<&SourceTree>,
    query: &str,
) -> (r: Result<Option<SourceRegexQuery>, Failure>)
    ensures
        regex_request_view(r) == regex_request(tree@, opt_tree(main), query@),
{
    let Some((pattern, whole)) = split_regex_query(query) else {
        return Ok(None);
    };
    if let Some(fault) = find_regex_fault(pattern.as_str(), whole.as_str()) {
        return refuse(fault);
    }
    let (scope, range) = split_range(whole.as_str());
    match resolve_scope(tree, main, scope, range.is_some()) {
        Ok(found) => {
            let (first_line, last_line) = match range {
                Some(lines) => lines,
                None => (1, u64::MAX),
            };
            Ok(Some(SourceRegexQuery { scope: found, pattern, first_line, last_line }))
        },
        Err(fault) => Err(fault),
    }
}

} // verus!

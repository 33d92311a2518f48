//! What a probe shows of the declarations that a search found.
use crate::failure::{refuse, text_view, Failure};
use crate::reference::{refers, Reference, ReferenceKind};
use crate::search::constructors::{line_margin, margin};
use crate::search::contract::{rootless, without_root};
use crate::search::declarations::{declaration_pattern, declaration_regex};
use crate::search::diagnostics::{
    diagnostic_context, diagnostic_goal_detail, goal_detail, message_context,
};
use crate::search::display::{
    compact_signature_preview, plainly_empty, range_noted, summary_head, tail_head, render_summary_without_hints, signature_preview,
    summary,
};
use crate::search::exact::{noted, prepend_search_note};
use crate::search::fields::line_below;
use crate::search::names::{
    canonical, canonical_declaration_name, declaration_name_query, name_query,
    qualified_match, qualified_name_matches,
};
use crate::search::patterns::{match_each, matches_pattern, pattern_matches};
use crate::search::records::{
    hit_views, hit_views_push, usage_views, HitView, RunView, SearchHit, SearchResult, SearchRun,
};
use crate::search::request::{ContextView, ProbeContext};
use crate::text::class::Class;
use crate::text::layout::{
    front, one_line, shell_argument, shell_quoted, shortened, single_line, sublist, truncate_line,
};
use crate::text::make::{
    cat2, cat3, cat5, join, join_strs, joined, lower, own, prefix_all, prefix_step, push_str, same,
    strings, strings_push, strs, strs_push, to_chars, to_lower,
};
use crate::text::number::{align_right, decimal, right_aligned, show, show_size};
use crate::text::pieces::{
    chomped, first_in, first_in_bounds, first_in_is, keep_nonempty, line_list, lines, nonempty_of,
    pieces, split,
};
use crate::text::scan::{
    after_prefix, bare, bare_end, bare_start, before_suffix, begins, blank, contains, cut, has_text,
    is_blank, opt_str, opt_string, sans_prefixes, split_once, starts_with, strip_prefix,
    strip_suffix, trim, trim_end, trim_end_of, trim_start, trimmed_end, without_prefixes,
};
use vstd::prelude::*;

verus! {

broadcast use {strings_push, strs_push, hit_views_push};

/// A path without what does not tell it from others.
pub open spec fn tidy_path(path: Seq<char>) -> Seq<char> {
    trimmed_end(sans_prefixes(path, "./"@), Class::Is('/'))
}

fn tidy<'a>(path: &'a str) -> (r: &'a str)
    ensures
        r@ == tidy_path(path@),
{
    proof {
        reveal_strlit("./");
    }
    trim_end_of(without_prefixes(path, "./"), Class::Is('/'))
}

/// Whether a usage stands in a scope: in the file itself, or below the directory.
pub open spec fn in_scope(path: Seq<char>, scope: Seq<char>) -> bool {
    tidy_path(path) == tidy_path(scope) || match after_prefix(tidy_path(path), tidy_path(scope)) {
        Some(rest) => begins(rest, "/"@),
        None => false,
    }
}

/// Decides [`in_scope`].
pub fn usage_path_matches_scope(path: &str, scope: &str) -> (r: bool)
    ensures
        r == in_scope(path@, scope@),
{
    let path = tidy(path);
    let scope = tidy(scope);
    same(path, scope) || match strip_prefix(path, scope) {
        Some(rest) => starts_with(rest, "/"),
        None => false,
    }
}

/// A hit that tells the type of a declaration.
pub open spec fn tells_type(hit: HitView, subject: Seq<char>) -> bool {
    qualified_match(hit.name, subject) && hit.signature is Some && !blank(hit.signature->0)
}

fn is_telling(hit: &SearchHit, subject: &str) -> (r: bool)
    ensures
        r == tells_type(hit@, subject@),
{
    qualified_name_matches(hit.name.as_str(), subject) && match &hit.signature {
        Some(signature) => !is_blank(signature.as_str()),
        None => false,
    }
}

/// The first hit from `i` on that tells the type of a declaration.
pub open spec fn telling_from(hits: Seq<HitView>, subject: Seq<char>, i: int) -> Option<HitView>
    decreases hits.len() - i,
{
    if i >= hits.len() {
        None
    } else if tells_type(hits[i], subject) {
        Some(hits[i])
    } else {
        telling_from(hits, subject, i + 1)
    }
}

/// The view of an optional hit.
pub open spec fn opt_hit(hit: Option<SearchHit>) -> Option<HitView> {
    match hit {
        Some(h) => Some(h@),
        None => None,
    }
}

fn find_telling(hits: &Vec<SearchHit>, subject: &str) -> (r: Option<SearchHit>)
    ensures
        opt_hit(r) == telling_from(hit_views(hits@), subject@, 0),
{
    let ghost views = hit_views(hits@);
    assert(views.len() == hits.len());
    for i in 0..hits.len()
        invariant
            views == hit_views(hits@),
            views.len() == hits.len(),
            telling_from(views, subject@, 0) == telling_from(views, subject@, i as int),
    {
        assert(views[i as int] == hits@[i as int]@);
        if is_telling(&hits[i], subject) {
            return Some(hits[i].copy());
        }
    }
    None
}

/// The type of a declaration that an earlier search found.
pub open spec fn found_type(run: RunView, subject: Seq<char>) -> Option<HitView> {
    if name_query(subject) {
        telling_from(run.hits, subject, 0)
    } else {
        None
    }
}

/// Computes [`found_type`].
pub fn indexed_check_hit(run: &SearchRun, subject: &str) -> (r: Option<SearchHit>)
    ensures
        opt_hit(r) == found_type(run@, subject@),
{
    if declaration_name_query(subject) {
        find_telling(&run.hits, subject)
    } else {
        None
    }
}

/// The type of a declaration that a search found, see [`telling_from`].
pub fn indexed_check_hit_from_result(result: SearchResult, subject: &str) -> (r: Option<SearchHit>)
    ensures
        opt_hit(r) == telling_from(result@.hits, subject@, 0),
{
    find_telling(&result.hits, subject)
}

/// What Lean says where it gives no answer.
pub open spec fn tells_failure(detail: Seq<char>) -> bool {
    let t = lower(detail);
    ||| has_text(t, "unknown identifier"@)
    ||| has_text(t, "failed to synthesize"@)
    ||| has_text(t, "type mismatch"@)
    ||| has_text(t, "declaration has metavariables"@)
    ||| has_text(t, "error:"@)
}

fn is_failure(detail: &str) -> (r: bool)
    ensures
        r == tells_failure(detail@),
{
    let t = to_lower(detail);
    contains(t.as_str(), "unknown identifier") || contains(t.as_str(), "failed to synthesize")
        || contains(t.as_str(), "type mismatch") || contains(
        t.as_str(),
        "declaration has metavariables",
    ) || contains(t.as_str(), "error:")
}

/// A line that states the type of the input.
pub open spec fn states_type(line: Seq<char>, input: Seq<char>) -> bool {
    begins(bare_start(line), input) && has_text(line, " : "@)
}

/// The first line from `i` on that states the type of the input.
pub open spec fn stated_from(list: Seq<Seq<char>>, input: Seq<char>, i: int) -> Option<int>
    decreases list.len() - i,
{
    if i >= list.len() {
        None
    } else if states_type(list[i], input) {
        Some(i)
    } else {
        stated_from(list, input, i + 1)
    }
}

/// The first line from `i` on that begins a warning.
pub open spec fn warned_from(list: Seq<Seq<char>>, i: int) -> int
    decreases list.len() - i,
{
    if i >= list.len() {
        list.len() as int
    } else if begins(bare_start(list[i]), "warning:"@) {
        i
    } else {
        warned_from(list, i + 1)
    }
}

/// Whether a directive succeeded, and what is told of it. The requested result counts,
/// not what Lean reports of the file before it.
pub open spec fn decisive(
    operation: Seq<char>,
    input: Seq<char>,
    worker_ok: bool,
    detail: Seq<char>,
) -> (bool, Seq<char>) {
    let list = line_list(detail);
    if operation == "tactic"@ || operation == "goal"@ {
        (worker_ok, detail)
    } else if operation == "term"@ && stated_from(list, input, 0) is Some {
        let start = stated_from(list, input, 0)->0;
        (true, joined(list.subrange(start, warned_from(list, start)), "\n"@))
    } else {
        (!tells_failure(detail) && (worker_ok || !blank(detail)), detail)
    }
}

fn find_stated(list: &Vec<&str>, input: &str) -> (r: Option<usize>)
    ensures
        match r {
            Some(i) => i < list.len() && stated_from(strs(list@), input@, 0) == Some(i as int),
            None => stated_from(strs(list@), input@, 0) is None,
        },
{
    let ghost views = strs(list@);
    assert(views.len() == list.len());
    for i in 0..list.len()
        invariant
            views == strs(list@),
            views.len() == list.len(),
            stated_from(views, input@, 0) == stated_from(views, input@, i as int),
    {
        assert(views[i as int] == list@[i as int]@);
        if starts_with(trim_start(list[i]), input) && contains(list[i], " : ") {
            return Some(i);
        }
    }
    None
}

fn find_warned(list: &Vec<&str>, start: usize) -> (r: usize)
    requires
        start <= list.len(),
    ensures
        start <= r <= list.len(),
        r == warned_from(strs(list@), start as int),
{
    let ghost views = strs(list@);
    assert(views.len() == list.len());
    for i in start..list.len()
        invariant
            start <= list.len(),
            views == strs(list@),
            views.len() == list.len(),
            warned_from(views, start as int) == warned_from(views, i as int),
    {
        assert(views[i as int] == list@[i as int]@);
        if starts_with(trim_start(list[i]), "warning:") {
            return i;
        }
    }
    list.len()
}

/// Computes [`decisive`].
pub fn decisive_directive_result(
    operation: &str,
    input: &str,
    worker_ok: bool,
    detail: String,
) -> (r: (bool, String))
    ensures
        (r.0, r.1@) == decisive(operation@, input@, worker_ok, detail@),
{
    if same(operation, "tactic") || same(operation, "goal") {
        return (worker_ok, detail);
    }
    if same(operation, "term") {
        let list = lines(detail.as_str());
        if let Some(start) = find_stated(&list, input) {
            let end = find_warned(&list, start);
            return (true, join_strs(&sublist(&list, start, end), "\n"));
        }
    }
    let good = !is_failure(detail.as_str()) && (worker_ok || !is_blank(detail.as_str()));
    (good, detail)
}

/// The requested result of a term wins over everything else that Lean reports.
pub proof fn stated_types_decide(input: Seq<char>, worker_ok: bool, detail: Seq<char>)
    requires
        stated_from(line_list(detail), input, 0) is Some,
    ensures
        decisive("term"@, input, worker_ok, detail).0,
        decisive("term"@, input, worker_ok, detail) == decisive("term"@, input, !worker_ok, detail),
{
    reveal_strlit("term");
    reveal_strlit("tactic");
    reveal_strlit("goal");
    assert("term"@.len() != "tactic"@.len());
    assert("term"@[0] != "goal"@[0]);
}

/// What an abbreviation stands for.
pub open spec fn abbreviated(hit: HitView) -> Option<Seq<char>> {
    match hit.source {
        None => None,
        Some(source) => match cut(source, ":="@) {
            None => None,
            Some((_, target)) => {
                let found = nonempty_of(pieces(bare(target), Class::Outside("_'.")));
                if found.len() == 0 {
                    None
                } else {
                    Some(found[0])
                }
            },
        },
    }
}

/// Computes [`abbreviated`].
pub fn abbreviation_target(hit: &SearchHit) -> (r: Option<String>)
    ensures
        opt_string(r) == abbreviated(hit@),
{
    match &hit.source {
        None => None,
        Some(source) => match split_once(source.as_str(), ":=") {
            None => None,
            Some((_, target)) => {
                let found = keep_nonempty(split(trim(target), Class::Outside("_'.")));
                assert(strs(found@).len() == found.len());
                if found.len() == 0 {
                    None
                } else {
                    assert(strs(found@)[0] == found@[0]@);
                    Some(own(found[0]))
                }
            },
        },
    }
}

/// A line that begins a declaration or an example.
pub open spec fn heading_line(line: Seq<char>) -> bool {
    pattern_matches(declaration_pattern(), line) || begins(bare_start(line), "example "@)
}

/// Decides [`heading_line`].
pub fn is_declaration_header(line: &str) -> (r: bool)
    ensures
        r == heading_line(line@),
{
    matches_pattern(declaration_regex(), line) || starts_with(trim_start(line), "example ")
}

/// The first blank line from `i` on.
pub open spec fn blank_from(list: Seq<Seq<char>>, i: int) -> Option<int>
    decreases list.len() - i,
{
    if i >= list.len() {
        None
    } else if blank(list[i]) {
        Some(i)
    } else {
        blank_from(list, i + 1)
    }
}

/// The number of lines before the declaration in a source that may begin with what
/// surrounds it.
pub open spec fn ambient_lines(source: Seq<char>) -> nat {
    if begins(source, "-- ambient context"@) {
        match blank_from(line_list(source), 0) {
            Some(i) => (i + 1) as nat,
            None => 0,
        }
    } else {
        0
    }
}

/// Computes [`ambient_lines`].
pub fn declaration_source_header_offset(source: &str) -> (r: usize)
    ensures
        r == ambient_lines(source@),
        r <= line_list(source@).len(),
{
    if starts_with(source, "-- ambient context") {
        let list = lines(source);
        let ghost views = strs(list@);
        assert(views.len() == list.len());
        for i in 0..list.len()
            invariant
                views == strs(list@),
                views == line_list(source@),
                views.len() == list.len(),
                begins(source@, "-- ambient context"@),
                blank_from(views, 0) == blank_from(views, i as int),
        {
            assert(views[i as int] == list@[i as int]@);
            if is_blank(list[i]) {
                return i + 1;
            }
        }
    }
    0
}

/// A line of a file with its number.
pub open spec fn numbered_line(number: u64, text: Seq<char>) -> Seq<char> {
    right_aligned(decimal(number as nat), 5) + "  "@ + shortened(text, 180)
}

fn number_line(number: u64, text: &str) -> (r: String)
    ensures
        r@ == numbered_line(number, text@),
{
    cat3(align_right(show(number).as_str(), 5).as_str(), "  ", truncate_line(text, 180).as_str())
}

fn below(line: u64, n: usize) -> (r: u64)
    ensures
        r == line_below(line, n as nat),
{
    if n as u64 <= u64::MAX - line {
        line + n as u64
    } else {
        u64::MAX
    }
}

/// The first `n` lines that hold a term. Lines before the declaration have no number.
pub open spec fn term_lines(
    list: Seq<Seq<char>>,
    header: nat,
    line: u64,
    term: Seq<char>,
    n: nat,
) -> Seq<Seq<char>>
    decreases n,
{
    if n == 0 {
        Seq::empty()
    } else {
        let earlier = term_lines(list, header, line, term, (n - 1) as nat);
        if !has_text(list[n - 1], term) {
            earlier
        } else if n - 1 < header {
            earlier.push("ambient: "@ + shortened(list[n - 1], 180))
        } else {
            earlier.push(numbered_line(line_below(line, (n - 1 - header) as nat), list[n - 1]))
        }
    }
}

/// What a search for a term in the source of a declaration shows.
pub open spec fn found_in_source(
    source: Seq<char>,
    line: u64,
    term: Seq<char>,
    reference: Seq<char>,
) -> Seq<char> {
    let list = line_list(source);
    let found = term_lines(list, ambient_lines(source), line, term, list.len());
    if found.len() == 0 {
        "No literal matches in the available source snapshot."@
    } else if found.len() <= 12 {
        joined(found, "\n"@)
    } else {
        joined(front(found, 12), "\n"@) + "\n… "@ + decimal((found.len() - 12) as nat)
            + " matching lines not shown; full source: mathmux show "@ + reference + " --all"@
    }
}

fn first_strings(list: &Vec<String>, n: usize) -> (r: Vec<String>)
    ensures
        strings(r@) == front(strings(list@), n as int),
{
    let ghost views = strings(list@);
    assert(views.len() == list.len());
    let stop: usize = if list.len() <= n {
        list.len()
    } else {
        n
    };
    let mut out: Vec<String> = Vec::new();
    assert(strings(out@) =~= views.take(0));
    for i in 0..stop
        invariant
            stop <= list.len(),
            views == strings(list@),
            strings(out@) == views.take(i as int),
    {
        proof {
            prefix_step(views, i as int);
        }
        out.push(own(list[i].as_str()));
    }
    proof {
        prefix_all(views);
    }
    out
}

/// Computes [`found_in_source`].
pub fn declaration_find_from_hit(
    source: &str,
    declaration_line: u64,
    term: &str,
    reference: &str,
) -> (r: String)
    ensures
        r@ == found_in_source(source@, declaration_line, term@, reference@),
{
    let list = lines(source);
    let header = declaration_source_header_offset(source);
    let ghost views = strs(list@);
    assert(views.len() == list.len());
    let mut found: Vec<String> = Vec::new();
    assert(strings(found@) =~= Seq::<Seq<char>>::empty());
    for i in 0..list.len()
        invariant
            views == strs(list@),
            strings(found@) == term_lines(views, header as nat, declaration_line, term@, i as nat),
    {
        assert(views[i as int] == list@[i as int]@);
        if contains(list[i], term) {
            if i < header {
                found.push(cat2("ambient: ", truncate_line(list[i], 180).as_str()));
            } else {
                found.push(number_line(below(declaration_line, i - header), list[i]));
            }
        }
    }
    assert(strings(found@).len() == found.len());
    if found.len() == 0 {
        return own("No literal matches in the available source snapshot.");
    }
    if found.len() <= 12 {
        return join(&found, "\n");
    }
    let mut out = join(&first_strings(&found, 12), "\n");
    push_str(&mut out, "\n… ");
    push_str(&mut out, show_size(found.len() - 12).as_str());
    push_str(&mut out, " matching lines not shown; full source: mathmux show ");
    push_str(&mut out, reference);
    push_str(&mut out, " --all");
    out
}

/// A line of a proof that carries it on.
pub open spec fn proof_step(t: Seq<char>) -> bool {
    ||| begins(t, "let "@) || begins(t, "letI "@) || begins(t, "have "@)
    ||| begins(t, "suffices "@) || begins(t, "show "@) || begins(t, "refine "@)
    ||| begins(t, "exact "@) || begins(t, "apply "@) || begins(t, "simpa "@)
    ||| begins(t, "rw "@) || begins(t, "constructor"@) || begins(t, "cases "@)
    ||| begins(t, "rcases "@) || begins(t, "intro "@) || begins(t, "case "@)
    ||| begins(t, "calc"@)
}

fn is_proof_step(t: &str) -> (r: bool)
    ensures
        r == proof_step(t@),
{
    starts_with(t, "let ") || starts_with(t, "letI ") || starts_with(t, "have ")
        || starts_with(t, "suffices ") || starts_with(t, "show ") || starts_with(t, "refine ")
        || starts_with(t, "exact ") || starts_with(t, "apply ") || starts_with(t, "simpa ")
        || starts_with(t, "rw ") || starts_with(t, "constructor") || starts_with(t, "cases ")
        || starts_with(t, "rcases ") || starts_with(t, "intro ") || starts_with(t, "case ")
        || starts_with(t, "calc")
}

/// A line that shows the structure of a declaration of some kind.
pub open spec fn telling_line(line: Seq<char>, kind: Seq<char>) -> bool {
    let t = bare_start(line);
    if kind == "class"@ || kind == "structure"@ {
        margin(line) <= 4 && (has_text(t, " : "@) || begins(t, "extends "@))
    } else if kind == "inductive"@ {
        begins(t, "|"@) || begins(t, "deriving "@)
    } else if kind == "def"@ || kind == "abbrev"@ || kind == "instance"@ {
        margin(line) <= 6 && (has_text(t, " :="@) || begins(t, "|"@) || begins(t, "{ "@))
    } else {
        margin(line) <= 8 && proof_step(t)
    }
}

fn is_telling_line(line: &str, kind: &str) -> (r: bool)
    ensures
        r == telling_line(line@, kind@),
{
    let t = trim_start(line);
    if same(kind, "class") || same(kind, "structure") {
        line_margin(line) <= 4 && (contains(t, " : ") || starts_with(t, "extends "))
    } else if same(kind, "inductive") {
        starts_with(t, "|") || starts_with(t, "deriving ")
    } else if same(kind, "def") || same(kind, "abbrev") || same(kind, "instance") {
        line_margin(line) <= 6 && (contains(t, " :=") || starts_with(t, "|") || starts_with(t, "{ "))
    } else {
        line_margin(line) <= 8 && is_proof_step(t)
    }
}

/// The lines from `header` up to `to` that show the structure of a declaration.
/// `headed` tells which lines the pattern of a declaration matches.
pub open spec fn outline_lines(
    list: Seq<Seq<char>>,
    headed: Seq<bool>,
    header: int,
    line: u64,
    kind: Seq<char>,
    to: int,
) -> Seq<Seq<char>>
    decreases to - header,
{
    if to <= header {
        Seq::empty()
    } else {
        let earlier = outline_lines(list, headed, header, line, kind, to - 1);
        let t = list[to - 1];
        if to - 1 == header || headed[to - 1] || begins(bare_start(t), "example "@) || telling_line(
            t,
            kind,
        ) {
            earlier.push(numbered_line(line_below(line, (to - 1 - header) as nat), bare_end(t)))
        } else {
            earlier
        }
    }
}

/// The structure of a declaration, where the pattern of a declaration matches the lines
/// that `headed` tells.
pub open spec fn outlined(source: Seq<char>, headed: Seq<bool>, line: u64, kind: Seq<char>) -> Seq<
    char,
> {
    let list = line_list(source);
    joined(
        front(
            outline_lines(
                list,
                headed,
                ambient_lines(source) as int,
                line,
                kind,
                list.len() as int,
            ),
            80,
        ),
        "\n"@,
    )
}

/// Computes [`outlined`].
pub fn outline_from_matches(source: &str, headed: &Vec<bool>, declaration_line: u64, kind: &str) -> (r:
    String)
    requires
        headed.len() == line_list(source@).len(),
    ensures
        r@ == outlined(source@, headed@, declaration_line, kind@),
{
    let list = lines(source);
    let header = declaration_source_header_offset(source);
    let ghost views = strs(list@);
    assert(views.len() == list.len());
    let mut found: Vec<String> = Vec::new();
    assert(strings(found@) =~= Seq::<Seq<char>>::empty());
    for i in header..list.len()
        invariant
            header <= list.len(),
            headed.len() == list.len(),
            views == strs(list@),
            strings(found@) == outline_lines(
                views,
                headed@,
                header as int,
                declaration_line,
                kind@,
                i as int,
            ),
    {
        assert(views[i as int] == list@[i as int]@);
        if i == header || headed[i] || starts_with(trim_start(list[i]), "example ")
            || is_telling_line(list[i], kind) {
            found.push(number_line(below(declaration_line, i - header), trim_end(list[i])));
        }
    }
    join(&first_strings(&found, 80), "\n")
}

/// The lines of a source that the pattern of a declaration matches.
pub open spec fn headed_lines(source: Seq<char>) -> Seq<bool> {
    line_list(source).map_values(|line: Seq<char>| pattern_matches(declaration_pattern(), line))
}

/// Computes the structure of a declaration, see [`outlined`].
pub fn declaration_outline_from_hit(source: &str, declaration_line: u64, kind: &str) -> (r: String)
    ensures
        r@ == outlined(source@, headed_lines(source@), declaration_line, kind@),
{
    let list = lines(source);
    let headed = match_each(declaration_regex(), &list);
    let ghost views = strs(list@);
    assert forall|i: int| 0 <= i < views.len() implies #[trigger] headed@[i] == headed_lines(
        source@,
    )[i] by {
        assert(views[i] == list@[i]@);
    }
    assert(headed@ =~= headed_lines(source@));
    outline_from_matches(source, &headed, declaration_line, kind)
}

/// The search that a probe of a subject makes, or why it cannot.
pub open spec fn probe_search(
    context: Option<ContextView>,
    subject: Seq<char>,
    focus: Option<Seq<char>>,
) -> Result<Seq<char>, Seq<char>> {
    let name = canonical(subject);
    let wanted = match focus {
        Some(f) => f,
        None => if begins(name, "type:"@) {
            "types"@
        } else {
            "signature"@
        },
    };
    if context is Some {
        if context->0 is File {
            Err(
                "FILE with a declaration supports signature only; use probe NAME for API dossiers"@,
            )
        } else {
            Err("this probe requires a declaration or type subject"@)
        }
    } else if wanted == "signature"@ || wanted == "usages"@ {
        Ok(name)
    } else if wanted == "source"@ || wanted == "outline"@ || begins(wanted, "find:"@) {
        Ok(name + " source"@)
    } else if wanted == "fields"@ {
        Ok(name + " fields"@)
    } else if wanted == "constructors"@ {
        Ok(name + ".mk"@)
    } else if wanted == "ext"@ {
        Ok("declaration "@ + name + ".ext*|"@ + name + "_ext*"@)
    } else if wanted == "simp"@ {
        Ok("declaration "@ + name + "*"@)
    } else if wanted == "apply"@ {
        Ok("declaration "@ + name + ".apply*|"@ + name + "_apply*"@)
    } else if wanted == "types"@ {
        if begins(name, "type:"@) {
            Ok(name)
        } else {
            Err(
                "types requires type:LEAN_TYPE or a cREF with a type/instance failure; use NAME signature for a declaration type"@,
            )
        }
    } else {
        Err("focus `"@ + wanted + "` requires source or failure context"@)
    }
}

/// Computes [`probe_search`].
pub fn static_probe_query(context: Option<&ProbeContext>, subject: &str, focus: Option<&str>) -> (r:
    Result<String, Failure>)
    ensures
        text_view(r) == probe_search(
            match context {
                Some(c) => Some(c@),
                None => None,
            },
            subject@,
            opt_str(focus),
        ),
        r matches Err(e) ==> e.class is None,
{
    let name = canonical_declaration_name(subject);
    let wanted = match focus {
        Some(f) => f,
        None => if starts_with(name, "type:") {
            "types"
        } else {
            "signature"
        },
    };
    if let Some(c) = context {
        return match c {
            ProbeContext::File(_) => refuse(
                "FILE with a declaration supports signature only; use probe NAME for API dossiers",
            ),
            _ => refuse("this probe requires a declaration or type subject"),
        };
    }
    if same(wanted, "signature") || same(wanted, "usages") {
        Ok(own(name))
    } else if same(wanted, "source") || same(wanted, "outline") || starts_with(wanted, "find:") {
        Ok(cat2(name, " source"))
    } else if same(wanted, "fields") {
        Ok(cat2(name, " fields"))
    } else if same(wanted, "constructors") {
        Ok(cat2(name, ".mk"))
    } else if same(wanted, "ext") {
        Ok(cat5("declaration ", name, ".ext*|", name, "_ext*"))
    } else if same(wanted, "simp") {
        Ok(cat3("declaration ", name, "*"))
    } else if same(wanted, "apply") {
        Ok(cat5("declaration ", name, ".apply*|", name, "_apply*"))
    } else if same(wanted, "types") {
        if starts_with(name, "type:") {
            Ok(own(name))
        } else {
            refuse(
                "types requires type:LEAN_TYPE or a cREF with a type/instance failure; use NAME signature for a declaration type",
            )
        }
    } else {
        refuse(cat3("focus `", wanted, "` requires source or failure context").as_str())
    }
}

/// What is said of a declaration that is not of the kind that a focus needs.
pub open spec fn wrong_kind(subject: Seq<char>, kind: Seq<char>, required: Seq<char>) -> Seq<char> {
    subject + " is "@ + kind + ", not "@ + required
        + "; valid focuses: signature, source, outline, usages, apply"@
}

/// Computes [`wrong_kind`].
pub fn invalid_declaration_focus_message(subject: &str, kind: &str, required: &str) -> (r: String)
    ensures
        r@ == wrong_kind(subject@, kind@, required@),
{
    let mut out = cat5(subject, " is ", kind, ", not ", required);
    push_str(&mut out, "; valid focuses: signature, source, outline, usages, apply");
    out
}

/// The reference that a line gives.
pub open spec fn reference_on(line: Seq<char>) -> Option<Seq<char>> {
    match after_prefix(line, "ref: "@) {
        Some(reference) => if refers(reference, ReferenceKind::Query) {
            Some(reference)
        } else {
            None
        },
        None => None,
    }
}

/// The last reference on the first `n` lines.
pub open spec fn last_reference(list: Seq<Seq<char>>, n: nat) -> Option<Seq<char>>
    decreases n,
{
    if n == 0 {
        None
    } else if reference_on(list[n - 1]) is Some {
        reference_on(list[n - 1])
    } else {
        last_reference(list, (n - 1) as nat)
    }
}

/// The reference under which a summary says that it is kept.
pub open spec fn summary_reference(rendered: Seq<char>) -> Option<Seq<char>> {
    last_reference(line_list(rendered), line_list(rendered).len())
}

/// Computes [`summary_reference`].
pub fn rendered_search_reference(rendered: &str) -> (r: Option<String>)
    ensures
        opt_string(r) == summary_reference(rendered@),
{
    let list = lines(rendered);
    let ghost views = strs(list@);
    assert(views.len() == list.len());
    let mut n: usize = list.len();
    while n > 0
        invariant
            n <= list.len(),
            views == strs(list@),
            views == line_list(rendered@),
            last_reference(views, views.len()) == last_reference(views, n as nat),
        decreases n,
    {
        n -= 1;
        assert(views[n as int] == list@[n as int]@);
        if let Some(reference) = strip_prefix(list[n], "ref: ") {
            if Reference::is_kind(reference, ReferenceKind::Query) {
                return Some(own(reference));
            }
        }
    }
    None
}

/// What is told of the goal of a failure that was stored.
pub open spec fn stored_goal(diagnostic: Seq<char>, context: Option<Seq<char>>) -> Seq<char> {
    let primary = match goal_detail(diagnostic) {
        Some(g) => g,
        None => "primary diagnostic\n"@ + message_context(diagnostic, None),
    };
    if context is None || blank(context->0) {
        if blank(primary) {
            Seq::empty()
        } else {
            primary
        }
    } else if blank(primary) {
        context->0
    } else {
        primary + "\n"@ + context->0
    }
}

/// Computes [`stored_goal`].
pub fn stored_goal_detail(diagnostic: &str, source_context: Option<&str>) -> (r: String)
    ensures
        r@ == stored_goal(diagnostic@, opt_str(source_context)),
{
    let primary = match diagnostic_goal_detail(diagnostic) {
        Some(g) => g,
        None => cat2("primary diagnostic\n", diagnostic_context(diagnostic, None).as_str()),
    };
    let empty = is_blank(primary.as_str());
    if let Some(context) = source_context {
        if !is_blank(context) {
            return if empty {
                own(context)
            } else {
                cat3(primary.as_str(), "\n", context)
            };
        }
    }
    if empty {
        String::new()
    } else {
        primary
    }
}

/// What is said to a probe of a check that has not come to its end.
pub open spec fn still_running(reference: Seq<char>) -> Seq<char> {
    "check "@ + reference + " is still running; use `mathmux show "@ + reference
        + " --wait`, then retry `mathmux probe "@ + reference
        + " goal|types|defeq|rewrite|profile`"@
}

/// Computes [`still_running`].
pub fn running_check_probe_hint(reference: &str) -> (r: String)
    ensures
        r@ == still_running(reference@),
{
    let mut out = cat5(
        "check ",
        reference,
        " is still running; use `mathmux show ",
        reference,
        " --wait`, then retry `mathmux probe ",
    );
    push_str(&mut out, reference);
    push_str(&mut out, " goal|types|defeq|rewrite|profile`");
    out
}

/// Whether a summary says that an index is still being built.
pub open spec fn says_warming(rendered: Seq<char>) -> bool {
    has_text(rendered, "warming"@) && has_text(rendered, "index"@)
}

/// Decides [`says_warming`].
pub fn indexes_warming(rendered: &str) -> (r: bool)
    ensures
        r == says_warming(rendered@),
{
    contains(rendered, "warming") && contains(rendered, "index")
}

/// A hit whose signature does not fit on one line of a summary.
pub open spec fn long_signature(hit: HitView) -> bool {
    hit.signature is Some && one_line(hit.signature->0).len() > 240
}

/// Tells whether a hit's signature is long.
pub fn has_long_signature(hit: &SearchHit) -> (r: bool)
    ensures
        r == long_signature(hit@),
{
    match &hit.signature {
        Some(signature) => to_chars(single_line(signature.as_str()).as_str()).len() > 240,
        None => false,
    }
}

/// Some of a list of hits has a long signature.
pub open spec fn any_long(hits: Seq<HitView>) -> bool {
    exists|i: int| 0 <= i < hits.len() && #[trigger] long_signature(hits[i])
}

fn has_long(hits: &Vec<SearchHit>) -> (r: bool)
    ensures
        r == any_long(hit_views(hits@)),
{
    let ghost views = hit_views(hits@);
    assert(views.len() == hits.len());
    for i in 0..hits.len()
        invariant
            views == hit_views(hits@),
            views.len() == hits.len(),
            forall|j: int| 0 <= j < i ==> !#[trigger] long_signature(views[j]),
    {
        assert(views[i as int] == hits@[i as int]@);
        if has_long_signature(&hits[i]) {
            assert(long_signature(views[i as int]));
            return true;
        }
    }
    false
}

/// What a focus leaves of a hit.
pub enum HitChange<'a> {
    /// Everything but the source.
    Sourceless,
    /// Everything but the source, with a long signature as a preview.
    Signed,
    /// Everything but the usages.
    Unused,
    /// The structure of the declaration.
    Outline,
    /// The lines that hold a term.
    Find(&'a str, &'a str),
}

/// The meaning of a [`HitChange`].
pub enum HitChangeView {
    Sourceless,
    Signed,
    Unused,
    Outline,
    Find(Seq<char>, Seq<char>),
}

impl HitChangeView {
    /// The hit that a change makes of another.
    pub open spec fn changed(self, hit: HitView) -> HitView {
        match self {
            HitChangeView::Sourceless => HitView { source: None, ..hit },
            HitChangeView::Signed => HitView {
                source: None,
                signature: if long_signature(hit) {
                    Some(signature_preview(hit.signature->0))
                } else {
                    hit.signature
                },
                ..hit
            },
            HitChangeView::Unused => HitView { usages: Seq::empty(), ..hit },
            HitChangeView::Outline => HitView {
                usages: Seq::empty(),
                kind: "declaration-outline"@,
                signature: Some(hit.kind + " outline from line "@ + decimal(hit.line as nat)),
                source: match hit.source {
                    Some(source) => Some(
                        outlined(source, headed_lines(source), hit.line, hit.kind),
                    ),
                    None => None,
                },
                ..hit
            },
            HitChangeView::Find(term, reference) => HitView {
                usages: Seq::empty(),
                kind: "declaration-find"@,
                signature: Some("local matches for "@ + term),
                source: match hit.source {
                    Some(source) => Some(found_in_source(source, hit.line, term, reference)),
                    None => None,
                },
                ..hit
            },
        }
    }

    /// The hits that a change makes of others.
    pub open spec fn all_changed(self, hits: Seq<HitView>) -> Seq<HitView> {
        hits.map_values(|h: HitView| self.changed(h))
    }
}

impl<'a> HitChange<'a> {
    /// The meaning of a change.
    pub open spec fn view(&self) -> HitChangeView {
        match self {
            HitChange::Sourceless => HitChangeView::Sourceless,
            HitChange::Signed => HitChangeView::Signed,
            HitChange::Unused => HitChangeView::Unused,
            HitChange::Outline => HitChangeView::Outline,
            HitChange::Find(term, reference) => HitChangeView::Find(term@, reference@),
        }
    }

    fn change(&self, hit: &SearchHit) -> (r: SearchHit)
        ensures
            r@ == self@.changed(hit@),
    {
        let mut out = hit.copy();
        match self {
            HitChange::Sourceless => {
                out.source = None;
            },
            HitChange::Signed => {
                out.source = None;
                if has_long_signature(hit) {
                    out.signature =
                    match &hit.signature {
                        Some(signature) => Some(compact_signature_preview(signature.as_str())),
                        None => None,
                    };
                }
            },
            HitChange::Unused => {
                out.usages = Vec::new();
                assert(usage_views(out.usages@) =~= Seq::empty());
            },
            HitChange::Outline => {
                out.usages = Vec::new();
                assert(usage_views(out.usages@) =~= Seq::empty());
                out.kind = own("declaration-outline");
                out.signature =
                Some(cat3(hit.kind.as_str(), " outline from line ", show(hit.line).as_str()));
                out.source =
                match &hit.source {
                    Some(source) => Some(
                        declaration_outline_from_hit(source.as_str(), hit.line, hit.kind.as_str()),
                    ),
                    None => None,
                };
            },
            HitChange::Find(term, reference) => {
                out.usages = Vec::new();
                assert(usage_views(out.usages@) =~= Seq::empty());
                out.kind = own("declaration-find");
                out.signature = Some(cat2("local matches for ", term));
                out.source =
                match &hit.source {
                    Some(source) => Some(
                        declaration_find_from_hit(source.as_str(), hit.line, term, reference),
                    ),
                    None => None,
                };
            },
        }
        out
    }

    /// Changes every hit.
    pub fn change_all(&self, hits: &Vec<SearchHit>) -> (r: Vec<SearchHit>)
        ensures
            hit_views(r@) == self@.all_changed(hit_views(hits@)),
    {
        let ghost views = hit_views(hits@);
        let ghost wanted = self@.all_changed(views);
        assert(views.len() == hits.len());
        let mut out: Vec<SearchHit> = Vec::new();
        assert(hit_views(out@) =~= wanted.take(0));
        for i in 0..hits.len()
            invariant
                views == hit_views(hits@),
                wanted == self@.all_changed(views),
                views.len() == hits.len(),
                hit_views(out@) == wanted.take(i as int),
        {
            proof {
                prefix_step(wanted, i as int);
            }
            assert(views[i as int] == hits@[i as int]@);
            out.push(self.change(&hits[i]));
        }
        proof {
            prefix_all(wanted);
        }
        out
    }
}

/// The hits whose source has the mark of a simplification rule.
pub open spec fn simp_hits(hits: Seq<HitView>) -> Seq<HitView>
    decreases hits.len(),
{
    if hits.len() == 0 {
        Seq::empty()
    } else {
        let earlier = simp_hits(hits.drop_last());
        if hits.last().source is Some && has_text(hits.last().source->0, "@[simp"@) {
            earlier.push(hits.last())
        } else {
            earlier
        }
    }
}

fn keep_simp(hits: &Vec<SearchHit>) -> (r: Vec<SearchHit>)
    ensures
        hit_views(r@) == simp_hits(hit_views(hits@)),
{
    let ghost views = hit_views(hits@);
    assert(views.len() == hits.len());
    let mut out: Vec<SearchHit> = Vec::new();
    assert(hit_views(out@) =~= Seq::<HitView>::empty());
    assert(views.take(0) =~= Seq::<HitView>::empty());
    for i in 0..hits.len()
        invariant
            views == hit_views(hits@),
            views.len() == hits.len(),
            hit_views(out@) == simp_hits(views.take(i as int)),
    {
        proof {
            prefix_step(views, i as int);
        }
        assert(views[i as int] == hits@[i as int]@);
        if let Some(source) = &hits[i].source {
            if contains(source.as_str(), "@[simp") {
                out.push(hits[i].copy());
            }
        }
    }
    proof {
        prefix_all(views);
    }
    out
}

fn first_hit(hits: &Vec<SearchHit>) -> (r: Vec<SearchHit>)
    ensures
        hit_views(r@) == front(hit_views(hits@), 1),
{
    let ghost views = hit_views(hits@);
    assert(views.len() == hits.len());
    let mut out: Vec<SearchHit> = Vec::new();
    assert(hit_views(out@) =~= Seq::<HitView>::empty());
    if hits.len() > 0 {
        out.push(hits[0].copy());
        assert(hit_views(out@) =~= views.take(1));
    }
    if hits.len() <= 1 {
        assert(hit_views(out@) =~= views);
    }
    out
}

/// Whether a note tells that an index is being built.
pub open spec fn notes_warming(note: Option<Seq<char>>) -> bool {
    note is Some && has_text(note->0, "warming"@)
}

fn is_warming_note(note: &Option<String>) -> (r: bool)
    ensures
        r == notes_warming(opt_string(*note)),
{
    match note {
        Some(n) => contains(n.as_str(), "warming"),
        None => false,
    }
}

/// A note, unless nothing was found and nothing is being built: then what was not found.
pub open spec fn note_or(note: Option<Seq<char>>, hits: Seq<HitView>, miss: Seq<char>) -> Option<
    Seq<char>,
> {
    if hits.len() == 0 && !notes_warming(note) {
        Some(miss)
    } else {
        note
    }
}

/// How to see what a constructor without a signature needs.
pub open spec fn obligations_hint(hit: HitView) -> Seq<char> {
    let name = rootless(hit.name);
    "Constructor signature is not indexed. Inspect obligations: "@ + (match before_suffix(
        name,
        ".mk"@,
    ) {
        Some(parent) => "mathmux probe "@ + shell_quoted(parent) + " fields; "@,
        None => Seq::empty(),
    }) + "mathmux probe FILE:LINE "@ + shell_quoted("#inspect "@ + name)
        + " in a project file importing it."@
}

fn render_obligations_hint(hit: &SearchHit) -> (r: String)
    ensures
        r@ == obligations_hint(hit@),
{
    let name = without_root(hit.name.as_str());
    let mut out = own("Constructor signature is not indexed. Inspect obligations: ");
    let fields = match strip_suffix(name, ".mk") {
        Some(parent) => cat3("mathmux probe ", shell_argument(parent).as_str(), " fields; "),
        None => String::new(),
    };
    push_str(&mut out, fields.as_str());
    push_str(&mut out, "mathmux probe FILE:LINE ");
    push_str(&mut out, shell_argument(cat2("#inspect ", name).as_str()).as_str());
    push_str(&mut out, " in a project file importing it.");
    out
}

/// How to go on from a hit without a signature.
pub open spec fn unsigned_hint(hit: HitView) -> Seq<char> {
    if hit.kind == "file"@ {
        "File result has no declaration signature; choose a declaration: mathmux search "@
            + shell_quoted(hit.path) + " outline"@
    } else {
        "Signature is not indexed; inspect textual context: mathmux probe "@ + shell_quoted(
            rootless(hit.name),
        ) + " source"@
    }
}

fn render_unsigned_hint(hit: &SearchHit) -> (r: String)
    ensures
        r@ == unsigned_hint(hit@),
{
    if same(hit.kind.as_str(), "file") {
        cat3(
            "File result has no declaration signature; choose a declaration: mathmux search ",
            shell_argument(hit.path.as_str()).as_str(),
            " outline",
        )
    } else {
        cat3(
            "Signature is not indexed; inspect textual context: mathmux probe ",
            shell_argument(without_root(hit.name.as_str())).as_str(),
            " source",
        )
    }
}

/// A run as a focus shows its hits.
pub open spec fn seen_through(run: RunView, focus: Seq<char>) -> RunView {
    if focus == "constructors"@ {
        if run.hits.len() > 0 && run.hits[0].signature is None {
            RunView { note: noted(run.note, obligations_hint(run.hits[0])), ..run }
        } else {
            run
        }
    } else if focus == "signature"@ || focus == "apply"@ {
        RunView {
            inference: if focus == "signature"@ {
                "signature"@
            } else {
                "exact"@
            },
            hits: if focus == "signature"@ {
                HitChangeView::Signed.all_changed(run.hits)
            } else {
                HitChangeView::Sourceless.all_changed(run.hits)
            },
            ..run
        }
    } else if focus == "source"@ {
        RunView {
            inference: if run.inference == "probe-source"@ {
                run.inference
            } else {
                "probe-source-excerpt"@
            },
            hits: HitChangeView::Unused.all_changed(front(run.hits, 1)),
            ..run
        }
    } else if focus == "outline"@ {
        RunView {
            inference: "probe"@,
            hits: HitChangeView::Outline.all_changed(front(run.hits, 1)),
            ..run
        }
    } else if begins(focus, "find:"@) {
        let term = bare(sans_prefixes(focus, "find:"@));
        RunView {
            inference: "probe"@,
            hits: HitChangeView::Find(term, run.reference).all_changed(front(run.hits, 1)),
            ..run
        }
    } else if focus == "ext"@ {
        RunView {
            note: note_or(
                run.note,
                run.hits,
                "no indexed @[ext] declaration in this name family"@,
            ),
            hits: HitChangeView::Sourceless.all_changed(run.hits),
            ..run
        }
    } else if focus == "simp"@ {
        RunView {
            note: note_or(
                run.note,
                simp_hits(run.hits),
                "no indexed @[simp] declaration in this name family"@,
            ),
            hits: HitChangeView::Sourceless.all_changed(simp_hits(run.hits)),
            ..run
        }
    } else if focus == "usages"@ {
        RunView {
            inference: "usages"@,
            hits: HitChangeView::Sourceless.all_changed(run.hits),
            ..run
        }
    } else {
        run
    }
}

fn see_through(run: &SearchRun, focus: &str) -> (r: SearchRun)
    ensures
        r@ == seen_through(run@, focus@),
{
    let mut out = run.copy();
    assert(hit_views(run.hits@).len() == run.hits.len());
    if same(focus, "constructors") {
        if run.hits.len() > 0 {
            assert(hit_views(run.hits@)[0] == run.hits@[0]@);
            if run.hits[0].signature.is_none() {
                let hint = render_obligations_hint(&run.hits[0]);
                prepend_search_note(&mut out.note, hint.as_str());
            }
        }
    } else if same(focus, "signature") || same(focus, "apply") {
        if same(focus, "signature") {
            out.inference = own("signature");
            out.hits = HitChange::Signed.change_all(&run.hits);
        } else {
            out.inference = own("exact");
            out.hits = HitChange::Sourceless.change_all(&run.hits);
        }
    } else if same(focus, "source") {
        if !same(run.inference.as_str(), "probe-source") {
            out.inference = own("probe-source-excerpt");
        }
        out.hits = HitChange::Unused.change_all(&first_hit(&run.hits));
    } else if same(focus, "outline") {
        out.inference = own("probe");
        out.hits = HitChange::Outline.change_all(&first_hit(&run.hits));
    } else if starts_with(focus, "find:") {
        proof {
            reveal_strlit("find:");
        }
        let term = trim(without_prefixes(focus, "find:"));
        out.inference = own("probe");
        out.hits =
        HitChange::Find(term, run.reference.as_str()).change_all(&first_hit(&run.hits));
    } else if same(focus, "ext") {
        if run.hits.len() == 0 && !is_warming_note(&run.note) {
            out.note = Some(own("no indexed @[ext] declaration in this name family"));
        }
        out.hits = HitChange::Sourceless.change_all(&run.hits);
    } else if same(focus, "simp") {
        let kept = keep_simp(&run.hits);
        assert(hit_views(kept@).len() == kept.len());
        if kept.len() == 0 && !is_warming_note(&run.note) {
            out.note = Some(own("no indexed @[simp] declaration in this name family"));
        }
        out.hits = HitChange::Sourceless.change_all(&kept);
    } else if same(focus, "usages") {
        out.inference = own("usages");
        out.hits = HitChange::Sourceless.change_all(&run.hits);
    }
    out
}

/// A focus that an index still being built takes nothing from.
pub open spec fn settled_focus(focus: Seq<char>) -> bool {
    focus == "signature"@ || focus == "source"@ || focus == "outline"@ || focus == "ext"@
}

/// A run without the note that an index is being built, where that takes nothing from
/// what a focus shows.
pub open spec fn settled(run: RunView, focus: Seq<char>) -> RunView {
    if settled_focus(focus) && (run.note == Some("search indexes warming"@) || run.note == Some(
        "source index warming"@,
    )) {
        RunView { note: None, ..run }
    } else {
        run
    }
}

/// A run with a hint, where its only hit has no signature to show.
pub open spec fn with_signature_hint(run: RunView, focus: Seq<char>) -> RunView {
    if focus == "signature"@ && run.hits.len() == 1 && run.hits[0].signature is None {
        RunView { note: noted(run.note, unsigned_hint(run.hits[0])), ..run }
    } else {
        run
    }
}

/// The hint on where the whole of a long signature is shown.
pub open spec fn whole_signature_hint(reference: Seq<char>) -> Seq<char> {
    "Full signature/context: mathmux show "@ + reference + " --all"@
}

/// A run with a hint, where long signatures of some hits are previews.
pub open spec fn with_preview_hint(run: RunView, focus: Seq<char>, hits: Seq<HitView>) -> RunView {
    if focus == "signature"@ && any_long(hits) {
        RunView { note: noted(run.note, whole_signature_hint(run.reference)), ..run }
    } else {
        run
    }
}

/// The run that a focus shows.
pub open spec fn focused(run: RunView, focus: Seq<char>) -> RunView {
    with_preview_hint(
        with_signature_hint(settled(seen_through(run, focus), focus), focus),
        focus,
        run.hits,
    )
}

/// The summary of a run as a focus shows it, see [`focused`].
pub fn render_static_probe_summary(run: &SearchRun, focus: &str) -> (r: String)
    ensures
        r@ == summary(focused(run@, focus@), false),
{
    let mut out = see_through(run, focus);
    if same(focus, "signature") || same(focus, "source") || same(focus, "outline") || same(
        focus,
        "ext",
    ) {
        let warming = match &out.note {
            Some(note) => same(note.as_str(), "search indexes warming") || same(
                note.as_str(),
                "source index warming",
            ),
            None => false,
        };
        if warming {
            out.note = None;
        }
    }
    assert(out@ == settled(seen_through(run@, focus@), focus@));
    assert(hit_views(out.hits@).len() == out.hits.len());
    if same(focus, "signature") && out.hits.len() == 1 {
        assert(hit_views(out.hits@)[0] == out.hits@[0]@);
        if out.hits[0].signature.is_none() {
            let hint = render_unsigned_hint(&out.hits[0]);
            prepend_search_note(&mut out.note, hint.as_str());
        }
    }
    if same(focus, "signature") && has_long(&run.hits) {
        let hint = cat3("Full signature/context: mathmux show ", out.reference.as_str(), " --all");
        prepend_search_note(&mut out.note, hint.as_str());
    }
    render_summary_without_hints(&out)
}

/// A declaration focus shows no more than one declaration, and no focus adds a hit.
pub proof fn focuses_add_no_hits(run: RunView, focus: Seq<char>)
    ensures
        focused(run, focus).hits.len() <= run.hits.len(),
        focus == "outline"@ ==> focused(run, focus).hits.len() <= 1,
{
    simp_hits_are_fewer(run.hits);
    reveal_strlit("outline");
    reveal_strlit("constructors");
    reveal_strlit("signature");
    reveal_strlit("apply");
    reveal_strlit("source");
    assert("outline"@.len() == 7);
}

proof fn simp_hits_are_fewer(hits: Seq<HitView>)
    ensures
        simp_hits(hits).len() <= hits.len(),
    decreases hits.len(),
{
    if hits.len() > 0 {
        simp_hits_are_fewer(hits.drop_last());
    }
}

proof fn lines_of_two(a: Seq<char>, b: Seq<char>)
    ensures
        line_list(a + seq!['\n'] + b) == line_list(a + seq!['\n']) + line_list(b),
    decreases a.len(),
{
    let text = a + seq!['\n'] + b;
    let head = a + seq!['\n'];
    let class = Class::Is('\n');
    first_in_bounds(text, class);
    first_in_bounds(head, class);
    let i = first_in(text, class);
    assert(text[a.len() as int] == '\n');
    assert(class.has(text[a.len() as int]));
    assert(i <= a.len());
    assert forall|j: int| 0 <= j < i implies !class.has(#[trigger] head[j]) by {
        assert(head[j] == text[j]);
    }
    assert(head[i] == text[i]);
    first_in_is(head, class, i);
    assert(text.take(i) =~= head.take(i));
    if i == a.len() {
        assert(text.skip(i + 1) =~= b);
        assert(head.skip(i + 1) =~= Seq::empty());
        assert(line_list(head.skip(i + 1)) =~= Seq::empty());
    } else {
        let rest = a.skip(i + 1);
        assert(text.skip(i + 1) =~= rest + seq!['\n'] + b);
        assert(head.skip(i + 1) =~= rest + seq!['\n']);
        lines_of_two(rest, b);
    }
    let first = chomped(text.take(i));
    assert(line_list(text) == seq![first] + line_list(text.skip(i + 1)));
    assert(line_list(head) == seq![first] + line_list(head.skip(i + 1)));
    assert(line_list(text) =~= line_list(head) + line_list(b));
}

proof fn line_of_one(line: Seq<char>)
    requires
        line.len() > 0,
        forall|i: int| 0 <= i < line.len() ==> #[trigger] line[i] != '\n',
        line.last() != '\r',
    ensures
        line_list(line) == seq![line],
        line_list(line + seq!['\n']) == seq![line],
{
    let class = Class::Is('\n');
    first_in_is(line, class, line.len() as int);
    assert(line_list(line) =~= seq![line]);
    let ended = line + seq!['\n'];
    assert forall|j: int| 0 <= j < line.len() implies !class.has(#[trigger] ended[j]) by {
        assert(ended[j] == line[j]);
    }
    assert(ended[line.len() as int] == '\n');
    first_in_is(ended, class, line.len() as int);
    assert(ended.take(line.len() as int) =~= line);
    assert(ended.skip(line.len() as int + 1) =~= Seq::empty());
    assert(line_list(ended.skip(line.len() as int + 1)) =~= Seq::empty());
    assert(line_list(ended) =~= seq![line]);
}

proof fn last_reference_of_two(a: Seq<Seq<char>>, b: Seq<Seq<char>>, n: nat)
    requires
        n <= b.len(),
        last_reference(b, n) is None,
    ensures
        last_reference(a + b, a.len() + n) == last_reference(a, a.len()),
    decreases n,
{
    if n > 0 {
        assert((a + b)[a.len() + n - 1] == b[n - 1]);
        last_reference_of_two(a, b, (n - 1) as nat);
    } else {
        last_reference_of_prefix(a, b, a.len());
    }
}

proof fn last_reference_of_prefix(a: Seq<Seq<char>>, b: Seq<Seq<char>>, n: nat)
    requires
        n <= a.len(),
    ensures
        last_reference(a + b, n) == last_reference(a, n),
    decreases n,
{
    if n > 0 {
        assert((a + b)[n - 1] == a[n - 1]);
        last_reference_of_prefix(a, b, (n - 1) as nat);
    }
}

proof fn reference_line_is_found(before: Seq<char>, reference: Seq<char>)
    requires
        refers(reference, ReferenceKind::Query),
    ensures
        summary_reference(before + seq!['\n'] + ("ref: "@ + reference)) == Some(reference),
        summary_reference(before + seq!['\n'] + (("ref: "@ + reference) + seq!['\n'])) == Some(
            reference,
        ),
{
    reveal_strlit("ref: ");
    let line = "ref: "@ + reference;
    assert forall|i: int| 0 <= i < line.len() implies #[trigger] line[i] != '\n' && line[i]
        != '\r' by {
        if i >= 5 {
            let k = i - 5;
            assert(line[i] == reference[k]);
            if k > 0 {
                assert(Class::Digit.has(reference.skip(1)[k - 1]));
            }
        }
    }
    assert(line.take(5) =~= "ref: "@);
    assert(line.skip(5) =~= reference);
    line_of_one(line);
    lines_of_two(before, line);
    lines_of_two(before, line + seq!['\n']);
    let head = line_list(before + seq!['\n']) + seq![line];
    assert(head.last() == line);
    assert(last_reference(head, head.len()) == Some(reference));
}

proof fn reference_line_before_note(before: Seq<char>, reference: Seq<char>, note: Seq<char>)
    requires
        refers(reference, ReferenceKind::Query),
        summary_reference(note) is None,
    ensures
        summary_reference(before + seq!['\n'] + ("ref: "@ + reference) + seq!['\n'] + note) == Some(
            reference,
        ),
{
    let line = "ref: "@ + reference;
    reference_line_is_found(before, reference);
    let head = before + seq!['\n'] + line;
    lines_of_two(head, note);
    assert(head + seq!['\n'] =~= before + seq!['\n'] + (line + seq!['\n']));
    let a = line_list(head + seq!['\n']);
    let b = line_list(note);
    last_reference_of_two(a, b, b.len());
}

proof fn summary_parts(a: Seq<char>, b: Seq<char>, reference: Seq<char>, last: Seq<char>)
    ensures
        a + (b + "\nref: "@ + reference + last) == a + b + seq!['\n'] + ("ref: "@ + reference) + last,
{
    reveal_strlit("\nref: ");
    reveal_strlit("ref: ");
    assert("\nref: "@ =~= seq!['\n'] + "ref: "@);
    assert(a + (b + "\nref: "@ + reference + last) =~= a + b + seq!['\n'] + ("ref: "@ + reference)
        + last);
}

/// A summary tells the reference under which its search is kept, unless it only says
/// that there are no results. The note of a range follows the reference, and must not
/// look like another one.
pub proof fn summaries_tell_their_reference(run: RunView, hints: bool)
    requires
        refers(run.reference, ReferenceKind::Query),
        !plainly_empty(run),
        range_noted(run) ==> summary_reference(run.note->0) is None,
    ensures
        summary_reference(summary(run, hints)) == Some(run.reference),
{
    let head = summary_head(run);
    let next = tail_head(run, hints);
    if range_noted(run) {
        let note = run.note->0;
        reference_line_before_note(head + next, run.reference, note);
        summary_parts(head, next, run.reference, "\n"@ + note);
        reveal_strlit("\n");
        assert("\n"@ =~= seq!['\n']);
        assert(head + next + seq!['\n'] + ("ref: "@ + run.reference) + ("\n"@ + note) =~= head
            + next + seq!['\n'] + ("ref: "@ + run.reference) + seq!['\n'] + note);
    } else {
        reference_line_is_found(head + next, run.reference);
        summary_parts(head, next, run.reference, ""@);
        reveal_strlit("");
        assert(head + next + seq!['\n'] + ("ref: "@ + run.reference) + ""@ =~= head + next
            + seq!['\n'] + ("ref: "@ + run.reference));
    }
}

} // verus!

//! What a probe makes of what a search found.
use crate::failure::{refuse, Failure};
use crate::path::{join_path, placed_under};
use crate::search::constructors::{
    constructor_views, constructors_of, inductive_constructors, ConstructorView,
    InductiveConstructor,
};
use crate::search::contract::{rootless, without_root};
use crate::search::declarations::{
    entries_of, heads_of, notations_in, parse_source_with_limit,
};
use crate::search::excerpt::unless_blank;
use crate::search::fields::line_below;
use crate::search::focus::{
    abbreviated, abbreviation_target, in_scope, invalid_declaration_focus_message, notes_warming,
    opt_hit, probe_search, static_probe_query, usage_path_matches_scope, wrong_kind,
};
use crate::search::names::{
    canonical, canonical_declaration_name, nonempty, qualified_match, qualified_name_matches,
};
use crate::search::probe::no_such_hit;
use crate::search::records::{
    hit_views, hit_views_push, usage_views, usage_views_push, HitView, ResultView, RunView,
    SearchHit, SearchResult, SearchRun, SearchUsage, UsageView,
};
use crate::search::source::{
    entry_views, mask_comments, masked, namespaces, namespaces_by_line, string_lists, EntryView,
    SourceEntry,
};
use crate::search::triage::opt_run;
use crate::text::class::{is_whitespace, whitespace, Class};
use crate::text::layout::{front, shell_argument, shell_quoted, shortened, truncate_line};
use crate::text::make::{
    cat2, cat3, cat4, cat5, copy_opt, join, join_strs, joined, own, prefix_all, prefix_step,
    push_str, same, strings, strings_push, strs, strs_push,
};
use crate::text::number::{decimal, show};
use crate::text::pieces::{
    fields, first_in, first_in_bounds, first_word, line_list, lines, next_word, position,
    split_text,
};
use crate::text::scan::{
    bare, bare_start, begins, contains, cut, first_chars, has_text, opt_str, opt_string,
    split_once, starts_with, take_chars, trim, trim_start,
};
use vstd::prelude::*;

verus! {

broadcast use {strings_push, strs_push, hit_views_push, usage_views_push};

/// The name that an attribute on a line gives to what it generates.
pub open spec fn generated_on(line: Seq<char>) -> Option<Seq<char>> {
    match cut(line, "to_additive"@) {
        None => None,
        Some((before, after)) => {
            let rest = bare_start(after);
            let length = first_in(rest, Class::Outside("_'."));
            if has_text(before, "@["@) && after.len() > 0 && whitespace(after[0]) && length > 0 {
                Some(first_chars(rest, length))
            } else {
                None
            }
        },
    }
}

fn find_generated(line: &str) -> (r: Option<String>)
    ensures
        opt_string(r) == generated_on(line@),
{
    match split_once(line, "to_additive") {
        None => None,
        Some((before, after)) => {
            let rest = trim_start(after);
            let length = position(rest, Class::Outside("_'."));
            proof {
                first_in_bounds(rest@, Class::Outside("_'."));
            }
            if contains(before, "@[") && after.unicode_len() > 0 && is_whitespace(
                after.get_char(0),
            ) && length > 0 {
                Some(own(take_chars(rest, length)))
            } else {
                None
            }
        },
    }
}

/// Whether a line generates a declaration of a name, in the namespace around it.
pub open spec fn generates(line: Seq<char>, space: Seq<Seq<char>>, name: Seq<char>) -> bool {
    generated_on(line) is Some && joined(space.push(generated_on(line)->0), "."@) == rootless(name)
}

/// The first line from `i` on that generates a declaration of a name.
pub open spec fn generating_from(
    list: Seq<Seq<char>>,
    spaces: Seq<Seq<Seq<char>>>,
    name: Seq<char>,
    i: int,
) -> Option<int>
    decreases list.len() - i,
{
    if i >= list.len() || i >= spaces.len() {
        None
    } else if generates(list[i], spaces[i], name) {
        Some(i)
    } else {
        generating_from(list, spaces, name, i + 1)
    }
}

fn find_generating(list: &Vec<&str>, spaces: &Vec<Vec<String>>, name: &str) -> (r: Option<usize>)
    ensures
        match r {
            Some(i) => i < list.len() && generating_from(
                strs(list@),
                string_lists(spaces@),
                name@,
                0,
            ) == Some(i as int),
            None => generating_from(strs(list@), string_lists(spaces@), name@, 0) is None,
        },
{
    let ghost views = strs(list@);
    let ghost around = string_lists(spaces@);
    assert(views.len() == list.len());
    assert(around.len() == spaces.len());
    let wanted = without_root(name);
    let mut i: usize = 0;
    while i < list.len() && i < spaces.len()
        invariant
            i <= list.len(),
            views == strs(list@),
            around == string_lists(spaces@),
            views.len() == list.len(),
            around.len() == spaces.len(),
            wanted@ == rootless(name@),
            generating_from(views, around, name@, 0) == generating_from(
                views,
                around,
                name@,
                i as int,
            ),
        decreases list.len() - i,
    {
        assert(views[i as int] == list@[i as int]@);
        assert(around[i as int] == strings(spaces@[i as int]@));
        if let Some(generated) = find_generated(list[i]) {
            let mut parts = crate::text::make::copy_strings(&spaces[i]);
            parts.push(generated);
            let full = join(&parts, ".");
            if same(full.as_str(), wanted) {
                return Some(i);
            }
        }
        i += 1;
    }
    None
}

/// The kinds that a declaration can have.
pub open spec fn declared_kind(t: Seq<char>) -> bool {
    ||| t == "theorem"@ || t == "lemma"@ || t == "def"@ || t == "abbrev"@
    ||| t == "opaque"@ || t == "axiom"@ || t == "structure"@ || t == "class"@
    ||| t == "inductive"@ || t == "instance"@
}

/// Decides [`declared_kind`].
pub fn is_declared_kind(t: &str) -> (r: bool)
    ensures
        r == declared_kind(t@),
{
    same(t, "theorem")
        || same(t, "lemma")
        || same(t, "def")
        || same(t, "abbrev")
        || same(t, "opaque")
        || same(t, "axiom")
        || same(t, "structure")
        || same(t, "class")
        || same(t, "inductive")
        || same(t, "instance")
}

/// The first declaration from entry `k` on that begins below a line.
pub open spec fn declared_below(entries: Seq<EntryView>, line: int, k: int) -> Option<EntryView>
    decreases entries.len() - k,
{
    if k >= entries.len() {
        None
    } else if declared_kind(entries[k].kind) && entries[k].line > line {
        Some(entries[k])
    } else {
        declared_below(entries, line, k + 1)
    }
}

/// The entry of a declaration that an attribute generates from another: the source of
/// that other one, and no signature.
pub open spec fn generator_entry(
    source: Seq<char>,
    entries: Seq<EntryView>,
    name: Seq<char>,
) -> Option<EntryView> {
    let list = line_list(masked(source));
    match generating_from(list, namespaces(masked(source)), name, 0) {
        None => None,
        Some(i) => match declared_below(entries, i, 0) {
            None => None,
            Some(e) => Some(
                EntryView {
                    line: e.line,
                    name,
                    kind: "generator"@,
                    signature: Seq::empty(),
                    docs: "Source of "@ + e.name
                        + ", which generates this declaration; not its generated proof."@,
                    body: e.body,
                },
            ),
        },
    }
}

/// The view of an optional entry.
pub open spec fn opt_entry(e: Option<SourceEntry>) -> Option<EntryView> {
    match e {
        Some(v) => Some(v@),
        None => None,
    }
}

/// Computes [`generator_entry`].
pub fn generator_from_entries(source: &str, entries: &Vec<SourceEntry>, name: &str) -> (r: Option<
    SourceEntry,
>)
    ensures
        opt_entry(r) == generator_entry(source@, entry_views(entries@), name@),
{
    let code = mask_comments(source);
    let list = lines(code.as_str());
    let spaces = namespaces_by_line(code.as_str());
    let Some(i) = find_generating(&list, &spaces, name) else {
        return None;
    };
    let ghost views = entry_views(entries@);
    assert(views.len() == entries.len());
    for k in 0..entries.len()
        invariant
            views == entry_views(entries@),
            views.len() == entries.len(),
            i < list.len(),
            generating_from(line_list(masked(source@)), namespaces(masked(source@)), name@, 0)
                == Some(i as int),
            declared_below(views, i as int, 0) == declared_below(views, i as int, k as int),
    {
        assert(views[k as int] == entries@[k as int]@);
        let e = &entries[k];
        if is_declared_kind(e.kind.as_str()) && e.line > i as u64 {
            return Some(
                SourceEntry {
                    line: e.line,
                    name: own(name),
                    kind: own("generator"),
                    signature: String::new(),
                    docs: cat3(
                        "Source of ",
                        e.name.as_str(),
                        ", which generates this declaration; not its generated proof.",
                    ),
                    body: own(e.body.as_str()),
                },
            );
        }
    }
    None
}

/// The entries of a whole source.
pub open spec fn whole_entries(source: Seq<char>, module: Seq<char>) -> Seq<EntryView> {
    entries_of(source, heads_of(source), notations_in(source), module, usize::MAX as int)
}

/// The entry of a declaration that an attribute of a source names, see
/// [`generator_entry`].
pub fn explicit_generator_source_entry(source: &str, module: &str, name: &str) -> (r: Option<
    SourceEntry,
>)
    ensures
        opt_entry(r) == generator_entry(source@, whole_entries(source@, module@), name@),
{
    let entries = parse_source_with_limit(source, module, usize::MAX);
    generator_from_entries(source, &entries, name)
}

/// The kinds of hits that say nothing of the kind of the declaration.
pub open spec fn unsettled_kind(t: Seq<char>) -> bool {
    ||| t == "declaration"@ || t == "generated"@ || t == "source-group"@
}

/// Decides [`unsettled_kind`].
pub fn is_unsettled_kind(t: &str) -> (r: bool)
    ensures
        r == unsettled_kind(t@),
{
    same(t, "declaration")
        || same(t, "generated")
        || same(t, "source-group")
}

/// Whether an entry of a file is the declaration of a hit.
pub open spec fn same_declaration(e: EntryView, hit: HitView) -> bool {
    rootless(e.name) == rootless(hit.name) && (e.kind == hit.kind || unsettled_kind(hit.kind))
}

/// The first entry from `k` on that is the declaration of a hit.
pub open spec fn entry_of_hit(entries: Seq<EntryView>, hit: HitView, k: int) -> Option<EntryView>
    decreases entries.len() - k,
{
    if k >= entries.len() {
        None
    } else if same_declaration(entries[k], hit) {
        Some(entries[k])
    } else {
        entry_of_hit(entries, hit, k + 1)
    }
}

/// A hit with what an entry of its file says.
pub open spec fn with_entry(hit: HitView, e: EntryView) -> HitView {
    HitView {
        line: e.line,
        signature: if e.kind == "generator"@ && hit.signature is Some {
            hit.signature
        } else {
            unless_blank(e.signature)
        },
        kind: e.kind,
        doc: unless_blank(e.docs),
        source: Some(e.body),
        ..hit
    }
}

/// A hit as its file has it now, unless the file does not declare it.
pub open spec fn refreshed(
    hit: HitView,
    entries: Seq<EntryView>,
    generator: Option<EntryView>,
) -> Option<HitView> {
    match entry_of_hit(entries, hit, 0) {
        Some(e) => Some(with_entry(hit, e)),
        None => match generator {
            Some(e) => Some(with_entry(hit, e)),
            None => None,
        },
    }
}

fn put_entry(hit: &SearchHit, e: &SourceEntry) -> (r: SearchHit)
    ensures
        r@ == with_entry(hit@, e@),
{
    let mut out = hit.copy();
    out.line = e.line;
    if !same(e.kind.as_str(), "generator") || hit.signature.is_none() {
        out.signature = nonempty(own(e.signature.as_str()));
    }
    out.kind = own(e.kind.as_str());
    out.doc = nonempty(own(e.docs.as_str()));
    out.source = Some(own(e.body.as_str()));
    out
}

/// Computes [`refreshed`].
pub fn refresh_from_entries(
    hit: &SearchHit,
    entries: &Vec<SourceEntry>,
    generator: Option<SourceEntry>,
) -> (r: Option<SearchHit>)
    ensures
        opt_hit(r) == refreshed(hit@, entry_views(entries@), opt_entry(generator)),
{
    let ghost views = entry_views(entries@);
    assert(views.len() == entries.len());
    let name = without_root(hit.name.as_str());
    let unsettled = is_unsettled_kind(hit.kind.as_str());
    for k in 0..entries.len()
        invariant
            views == entry_views(entries@),
            views.len() == entries.len(),
            name@ == rootless(hit@.name),
            unsettled == unsettled_kind(hit@.kind),
            entry_of_hit(views, hit@, 0) == entry_of_hit(views, hit@, k as int),
    {
        assert(views[k as int] == entries@[k as int]@);
        let e = &entries[k];
        if same(without_root(e.name.as_str()), name) && (unsettled || same(
            e.kind.as_str(),
            hit.kind.as_str(),
        )) {
            return Some(put_entry(hit, e));
        }
    }
    match generator {
        Some(e) => Some(put_entry(hit, &e)),
        None => None,
    }
}

/// A hit as the source of its file has it now, see [`refreshed`].
pub fn refresh_probe_source(source: &str, hit: &SearchHit) -> (r: Option<SearchHit>)
    ensures
        ({
            let entries = whole_entries(source@, hit@.module);
            opt_hit(r) == refreshed(hit@, entries, generator_entry(source@, entries, hit@.name))
        }),
{
    let entries = parse_source_with_limit(source, hit.module.as_str(), usize::MAX);
    let generator = generator_from_entries(source, &entries, hit.name.as_str());
    refresh_from_entries(hit, &entries, generator)
}

/// A focus on the text of a declaration.
pub open spec fn source_focus(focus: Seq<char>) -> bool {
    focus == "source"@ || focus == "outline"@ || begins(focus, "find:"@)
}

/// Decides [`source_focus`].
pub fn is_source_focus(focus: &str) -> (r: bool)
    ensures
        r == source_focus(focus@),
{
    same(focus, "source") || same(focus, "outline") || starts_with(focus, "find:")
}

/// What is noted where the source of a hit is not the current one.
pub open spec fn staleness(hit: HitView) -> Seq<char> {
    if hit.source is None {
        "Source unavailable in the current file or index; no completeness claim.\nInspect the declaration contract in an importing project file: mathmux probe FILE:LINE "@
            + shell_quoted("#inspect "@ + rootless(hit.name))
    } else {
        "Indexed source excerpt; completeness unavailable."@
    }
}

/// The run that refines a hit of an earlier one. Where the text of the declaration was
/// asked for, `fresh` tells whether the file gave it.
pub open spec fn refinement(
    new_reference: Seq<char>,
    workspace_ref: Seq<char>,
    reference: Seq<char>,
    hit: HitView,
    focus: Seq<char>,
    fresh: bool,
    now: i64,
) -> RunView {
    RunView {
        reference: new_reference,
        workspace_ref,
        query: reference + " "@ + focus,
        inference: if fresh {
            "probe-source"@
        } else {
            "probe-refinement"@
        },
        hits: seq![hit],
        note: if source_focus(focus) && !fresh {
            Some(staleness(hit))
        } else {
            None
        },
        duration_ms: 0,
        created_at: now,
    }
}

/// Computes [`refinement`].
pub fn store_query_hit_refinement(
    new_reference: &str,
    workspace_ref: &str,
    reference: &str,
    hit: SearchHit,
    focus: &str,
    fresh: bool,
    now: i64,
) -> (r: SearchRun)
    ensures
        r@ == refinement(
            new_reference@,
            workspace_ref@,
            reference@,
            hit@,
            focus@,
            fresh,
            now,
        ),
{
    let note = if is_source_focus(focus) && !fresh {
        if hit.source.is_none() {
            let inspected = cat2("#inspect ", without_root(hit.name.as_str()));
            Some(
                cat2(
                    "Source unavailable in the current file or index; no completeness claim.\nInspect the declaration contract in an importing project file: mathmux probe FILE:LINE ",
                    shell_argument(inspected.as_str()).as_str(),
                ),
            )
        } else {
            Some(own("Indexed source excerpt; completeness unavailable."))
        }
    } else {
        None
    };
    let ghost view = hit@;
    let mut hits: Vec<SearchHit> = Vec::new();
    hits.push(hit);
    assert(hit_views(hits@) =~= seq![view]);
    SearchRun {
        reference: own(new_reference),
        workspace_ref: own(workspace_ref),
        query: cat3(reference, " ", focus),
        inference: if fresh {
            own("probe-source")
        } else {
            own("probe-refinement")
        },
        hits,
        note,
        duration_ms: 0,
        created_at: now,
    }
}

/// Only the text that the current file gives is shown without a caveat.
pub proof fn only_fresh_source_is_complete(
    new_reference: Seq<char>,
    workspace_ref: Seq<char>,
    reference: Seq<char>,
    hit: HitView,
    focus: Seq<char>,
    fresh: bool,
    now: i64,
)
    requires
        source_focus(focus),
    ensures
        refinement(new_reference, workspace_ref, reference, hit, focus, fresh, now).note is None
            <==> fresh,
{
}

/// What a probe of an earlier search leads to.
#[allow(inconsistent_fields)]
#[derive(Debug, PartialEq, Eq)]
pub enum QueryStep {
    /// Tell the dossier of a warning.
    Warning,
    /// Show what was stored, in full.
    Stored { path: Option<String>, line: u64 },
    /// Look at the goal of a line.
    Position { location: String },
    /// Show the hit through a focus.
    Refine { focus: String },
    /// Collect what makes values of a declaration.
    Examples { subject: String },
    /// Read the contract of a declaration.
    Contract { subject: String, focus: String },
    /// List the constructors of a type.
    Constructors { subject: String },
    /// Search, and show what was found through a focus.
    Static { query: String, focus: String },
}

/// The contents of a [`QueryStep`].
#[allow(inconsistent_fields)]
pub enum QueryStepView {
    Warning,
    Stored { path: Option<Seq<char>>, line: u64 },
    Position { location: Seq<char> },
    Refine { focus: Seq<char> },
    Examples { subject: Seq<char> },
    Contract { subject: Seq<char>, focus: Seq<char> },
    Constructors { subject: Seq<char> },
    Static { query: Seq<char>, focus: Seq<char> },
}

impl View for QueryStep {
    type V = QueryStepView;

    open spec fn view(&self) -> QueryStepView {
        match self {
            QueryStep::Warning => QueryStepView::Warning,
            QueryStep::Stored { path, line } => QueryStepView::Stored {
                path: opt_string(*path),
                line: *line,
            },
            QueryStep::Position { location } => QueryStepView::Position { location: location@ },
            QueryStep::Refine { focus } => QueryStepView::Refine { focus: focus@ },
            QueryStep::Examples { subject } => QueryStepView::Examples { subject: subject@ },
            QueryStep::Contract { subject, focus } => QueryStepView::Contract {
                subject: subject@,
                focus: focus@,
            },
            QueryStep::Constructors { subject } => QueryStepView::Constructors {
                subject: subject@,
            },
            QueryStep::Static { query, focus } => QueryStepView::Static {
                query: query@,
                focus: focus@,
            },
        }
    }
}

/// The view of a planned step.
pub open spec fn query_step_view(r: Result<QueryStep, Failure>) -> Result<
    QueryStepView,
    Seq<char>,
> {
    match r {
        Ok(step) => Ok(step@),
        Err(e) => Err(e@),
    }
}

/// The focuses that only a failed check answers.
pub open spec fn failure_focus(t: Seq<char>) -> bool {
    ||| t == "types"@ || t == "defeq"@ || t == "rewrite"@ || t == "profile"@
}

/// Decides [`failure_focus`].
pub fn is_failure_focus(t: &str) -> (r: bool)
    ensures
        r == failure_focus(t@),
{
    same(t, "types")
        || same(t, "defeq")
        || same(t, "rewrite")
        || same(t, "profile")
}

/// The focuses that a stored hit answers by itself.
pub open spec fn shown_focus(t: Seq<char>) -> bool {
    ||| t == "signature"@ || t == "source"@ || t == "outline"@ || t == "usages"@
}

/// Decides [`shown_focus`].
pub fn is_shown_focus(t: &str) -> (r: bool)
    ensures
        r == shown_focus(t@),
{
    same(t, "signature")
        || same(t, "source")
        || same(t, "outline")
        || same(t, "usages")
}

/// What a probe of a hit leads to.
pub open spec fn hit_step(
    run: RunView,
    hit: HitView,
    subject: Option<Seq<char>>,
    focus: Option<Seq<char>>,
) -> Result<QueryStepView, Seq<char>> {
    let probed = run.inference == "probe"@;
    let name = match subject {
        Some(s) => s,
        None => canonical(hit.name),
    };
    if probed && subject is None && focus is None {
        Ok(
            QueryStepView::Stored {
                path: if hit.path.len() == 0 {
                    None
                } else {
                    Some(hit.path)
                },
                line: hit.line,
            },
        )
    } else if (probed || hit.kind == "location"@ || hit.kind == "location-expanded"@) && hit.line
        > 0 && hit.path.len() > 0 && subject is None && (focus is None || focus == Some("goal"@)) {
        Ok(QueryStepView::Position { location: hit.path + ":"@ + decimal(hit.line as nat) })
    } else if !probed && subject is None && focus is Some && failure_focus(focus->0) {
        Err(
            "focus `"@ + focus->0
                + "` is not valid for a declaration qREF; use signature, source, outline, neighborhood, dependencies, find TERM, or usages, or probe a cREF failure"@,
        )
    } else if (!probed && subject is None && (focus is None || shown_focus(focus->0))) || (focus
        is Some && begins(focus->0, "find:"@)) {
        Ok(
            QueryStepView::Refine {
                focus: match focus {
                    Some(f) => f,
                    None => "signature"@,
                },
            },
        )
    } else if focus == Some("examples"@) {
        Ok(QueryStepView::Examples { subject: name })
    } else if focus == Some("assumptions"@) || focus == Some("evidence"@) {
        Ok(QueryStepView::Contract { subject: name, focus: focus->0 })
    } else if focus == Some("constructors"@) {
        Ok(QueryStepView::Constructors { subject: name })
    } else {
        match probe_search(None, name, focus) {
            Ok(query) => Ok(
                QueryStepView::Static {
                    query,
                    focus: match focus {
                        Some(f) => f,
                        None => "signature"@,
                    },
                },
            ),
            Err(message) => Err(message),
        }
    }
}

/// What a probe of an earlier search leads to, or why it is refused. `warning` tells
/// whether its reference is that of a warning.
pub open spec fn query_step_of(
    reference: Seq<char>,
    warning: bool,
    run: Option<RunView>,
    hit: usize,
    subject: Option<Seq<char>>,
    focus: Option<Seq<char>>,
) -> Result<QueryStepView, Seq<char>> {
    if warning {
        if subject is None && focus is None {
            Ok(QueryStepView::Warning)
        } else {
            Err("warning qREFs are complete dossiers and accept no further focus"@)
        }
    } else {
        match run {
            None => Err("unknown query reference "@ + reference),
            Some(r) => if hit >= r.hits.len() {
                Err(no_such_hit(reference, r.hits.len(), hit))
            } else {
                hit_step(r, r.hits[hit as int], subject, focus)
            },
        }
    }
}

fn is_text(o: Option<&str>, name: &str) -> (r: bool)
    ensures
        r == (opt_str(o) == Some(name@)),
{
    match o {
        Some(t) => same(t, name),
        None => false,
    }
}

fn plan_hit(run: &SearchRun, hit: &SearchHit, subject: Option<&str>, focus: Option<&str>) -> (r:
    Result<QueryStep, Failure>)
    ensures
        query_step_view(r) == hit_step(run@, hit@, opt_str(subject), opt_str(focus)),
{
    let probed = same(run.inference.as_str(), "probe");
    let name = match subject {
        Some(s) => s,
        None => canonical_declaration_name(hit.name.as_str()),
    };
    if probed && subject.is_none() && focus.is_none() {
        return Ok(
            QueryStep::Stored {
                path: if hit.path.as_str().is_empty() {
                    None
                } else {
                    Some(own(hit.path.as_str()))
                },
                line: hit.line,
            },
        );
    }
    let placed = probed || same(hit.kind.as_str(), "location") || same(
        hit.kind.as_str(),
        "location-expanded",
    );
    if placed && hit.line > 0 && !hit.path.as_str().is_empty() && subject.is_none() && (
    focus.is_none() || is_text(focus, "goal")) {
        return Ok(
            QueryStep::Position {
                location: cat3(hit.path.as_str(), ":", show(hit.line).as_str()),
            },
        );
    }
    if let Some(f) = focus {
        if !probed && subject.is_none() && is_failure_focus(f) {
            return refuse(
                cat3(
                    "focus `",
                    f,
                    "` is not valid for a declaration qREF; use signature, source, outline, neighborhood, dependencies, find TERM, or usages, or probe a cREF failure",
                ).as_str(),
            );
        }
    }
    let shown = match focus {
        Some(f) => is_shown_focus(f),
        None => true,
    };
    let searched = match focus {
        Some(f) => starts_with(f, "find:"),
        None => false,
    };
    let effective = match focus {
        Some(f) => f,
        None => "signature",
    };
    if (!probed && subject.is_none() && shown) || searched {
        return Ok(QueryStep::Refine { focus: own(effective) });
    }
    if is_text(focus, "examples") {
        return Ok(QueryStep::Examples { subject: own(name) });
    }
    if is_text(focus, "assumptions") || is_text(focus, "evidence") {
        return Ok(QueryStep::Contract { subject: own(name), focus: own(effective) });
    }
    if is_text(focus, "constructors") {
        return Ok(QueryStep::Constructors { subject: own(name) });
    }
    match static_probe_query(None, name, focus) {
        Ok(query) => Ok(QueryStep::Static { query, focus: own(effective) }),
        Err(e) => Err(e),
    }
}

/// Computes [`query_step_of`].
pub fn probe_query_reference(
    reference: &str,
    warning: bool,
    run: Option<&SearchRun>,
    hit: usize,
    subject: Option<&str>,
    focus: Option<&str>,
) -> (r: Result<QueryStep, Failure>)
    ensures
        query_step_view(r) == query_step_of(
            reference@,
            warning,
            opt_run(run),
            hit,
            opt_str(subject),
            opt_str(focus),
        ),
{
    if warning {
        return if subject.is_none() && focus.is_none() {
            Ok(QueryStep::Warning)
        } else {
            refuse("warning qREFs are complete dossiers and accept no further focus")
        };
    }
    let Some(run) = run else {
        return refuse(cat2("unknown query reference ", reference).as_str());
    };
    assert(hit_views(run.hits@).len() == run.hits.len());
    if hit >= run.hits.len() {
        return refuse(
            crate::search::probe::render_no_such_hit(reference, run.hits.len(), hit).as_str(),
        );
    }
    assert(hit_views(run.hits@)[hit as int] == run.hits@[hit as int]@);
    plan_hit(run, &run.hits[hit], subject, focus)
}

/// What the outcome of a search leads to.
#[allow(inconsistent_fields)]
#[derive(Debug, PartialEq, Eq)]
pub enum StaticStep {
    /// Show the summary of the search as it is.
    Rendered,
    /// Search for what an abbreviation stands for.
    Follow { query: String },
    /// Add what is known of the usages, and show the run.
    Usages,
    /// Show the first hit through the focus.
    Refine,
    /// Show the run through the focus.
    Summary,
}

/// The contents of a [`StaticStep`].
#[allow(inconsistent_fields)]
pub enum StaticStepView {
    Rendered,
    Follow { query: Seq<char> },
    Usages,
    Refine,
    Summary,
}

impl View for StaticStep {
    type V = StaticStepView;

    open spec fn view(&self) -> StaticStepView {
        match self {
            StaticStep::Rendered => StaticStepView::Rendered,
            StaticStep::Follow { query } => StaticStepView::Follow { query: query@ },
            StaticStep::Usages => StaticStepView::Usages,
            StaticStep::Refine => StaticStepView::Refine,
            StaticStep::Summary => StaticStepView::Summary,
        }
    }
}

/// The view of a planned step.
pub open spec fn static_step_view(r: Result<StaticStep, Failure>) -> Result<
    StaticStepView,
    Seq<char>,
> {
    match r {
        Ok(step) => Ok(step@),
        Err(e) => Err(e@),
    }
}

/// The kind that a note says a declaration has.
pub open spec fn noted_kind(note: Seq<char>) -> Seq<char> {
    let parts = fields(note, " is "@);
    if parts.len() > 1 {
        fields(parts[1], ","@)[0]
    } else {
        "a declaration"@
    }
}

fn read_noted_kind(note: &str) -> (r: String)
    ensures
        r@ == noted_kind(note@),
{
    proof {
        reveal_strlit(" is ");
        reveal_strlit(",");
    }
    let parts = split_text(note, " is ");
    assert(strs(parts@).len() == parts.len());
    if parts.len() > 1 {
        assert(strs(parts@)[1] == parts@[1]@);
        let pieces = split_text(parts[1], ",");
        assert(strs(pieces@).len() == pieces.len());
        assert(strs(pieces@)[0] == pieces@[0]@);
        own(pieces[0])
    } else {
        own("a declaration")
    }
}

/// What a search for the fields of a declaration without any leads to.
pub open spec fn fieldless_step(run: RunView, query: Seq<char>) -> Result<
    StaticStepView,
    Seq<char>,
> {
    let subject = match first_word(query) {
        Some(w) => w,
        None => "the subject"@,
    };
    if run.hits.len() > 0 && run.hits[0].kind == "abbrev"@ && abbreviated(run.hits[0]) is Some
        && abbreviated(run.hits[0])->0 != subject {
        Ok(StaticStepView::Follow { query: abbreviated(run.hits[0])->0 + " fields"@ })
    } else {
        Err(wrong_kind(subject, noted_kind(run.note->0), "a class or structure"@))
    }
}

/// What the outcome of a search leads to, or why the focus does not fit it.
pub open spec fn static_step_of(run: Option<RunView>, query: Seq<char>, focus: Seq<char>) -> Result<
    StaticStepView,
    Seq<char>,
> {
    match run {
        None => Ok(StaticStepView::Rendered),
        Some(r) => if focus == "fields"@ && r.note is Some && has_text(
            r.note->0,
            "not a class or structure"@,
        ) {
            fieldless_step(r, query)
        } else if focus == "usages"@ {
            Ok(StaticStepView::Usages)
        } else if source_focus(focus) && r.hits.len() > 0 {
            Ok(StaticStepView::Refine)
        } else {
            Ok(StaticStepView::Summary)
        },
    }
}

fn plan_fieldless(run: &SearchRun, note: &str, query: &str) -> (r: Result<StaticStep, Failure>)
    requires
        run@.note == Some(note@),
    ensures
        static_step_view(r) == fieldless_step(run@, query@),
{
    let subject = match next_word(query) {
        Some(w) => w,
        None => "the subject",
    };
    assert(hit_views(run.hits@).len() == run.hits.len());
    if run.hits.len() > 0 {
        assert(hit_views(run.hits@)[0] == run.hits@[0]@);
        if same(run.hits[0].kind.as_str(), "abbrev") {
            if let Some(target) = abbreviation_target(&run.hits[0]) {
                if !same(target.as_str(), subject) {
                    return Ok(StaticStep::Follow { query: cat2(target.as_str(), " fields") });
                }
            }
        }
    }
    let kind = read_noted_kind(note);
    refuse(
        invalid_declaration_focus_message(subject, kind.as_str(), "a class or structure").as_str(),
    )
}

/// Computes [`static_step_of`]. `run` is the kept search, if it was kept.
pub fn run_static_probe_query(run: Option<&SearchRun>, query: &str, focus: &str) -> (r: Result<
    StaticStep,
    Failure,
>)
    ensures
        static_step_view(r) == static_step_of(opt_run(run), query@, focus@),
{
    let Some(run) = run else {
        return Ok(StaticStep::Rendered);
    };
    if same(focus, "fields") {
        if let Some(note) = &run.note {
            if contains(note.as_str(), "not a class or structure") {
                return plan_fieldless(run, note.as_str(), query);
            }
        }
    }
    assert(hit_views(run.hits@).len() == run.hits.len());
    if same(focus, "usages") {
        Ok(StaticStep::Usages)
    } else if is_source_focus(focus) && run.hits.len() > 0 {
        Ok(StaticStep::Refine)
    } else {
        Ok(StaticStep::Summary)
    }
}

/// The search for laws of a declaration.
pub open spec fn law_search(name: Seq<char>) -> Seq<char> {
    let s = canonical(name);
    "declaration "@ + s + ".apply*|"@ + s + "_apply*|"@ + s + ".comp*|"@ + s + "_comp*|"@ + s
        + ".trans*|"@ + s + "_trans*"@
}

/// Computes [`law_search`].
pub fn usage_law_query(name: &str) -> (r: String)
    ensures
        r@ == law_search(name@),
{
    let s = canonical_declaration_name(name);
    let mut out = cat5("declaration ", s, ".apply*|", s, "_apply*|");
    push_str(&mut out, s);
    push_str(&mut out, ".comp*|");
    push_str(&mut out, s);
    push_str(&mut out, "_comp*|");
    push_str(&mut out, s);
    push_str(&mut out, ".trans*|");
    push_str(&mut out, s);
    push_str(&mut out, "_trans*");
    out
}

/// The first hit from `i` on that is a law.
pub open spec fn law_from(hits: Seq<HitView>, i: int) -> Option<HitView>
    decreases hits.len() - i,
{
    if i >= hits.len() {
        None
    } else if hits[i].kind == "lemma"@ || hits[i].kind == "theorem"@ {
        Some(hits[i])
    } else {
        law_from(hits, i + 1)
    }
}

/// Computes [`law_from`].
pub fn first_law(hits: &Vec<SearchHit>) -> (r: Option<SearchHit>)
    ensures
        opt_hit(r) == law_from(hit_views(hits@), 0),
{
    let ghost views = hit_views(hits@);
    assert(views.len() == hits.len());
    for i in 0..hits.len()
        invariant
            views == hit_views(hits@),
            views.len() == hits.len(),
            law_from(views, 0) == law_from(views, i as int),
    {
        assert(views[i as int] == hits@[i as int]@);
        if same(hits[i].kind.as_str(), "lemma") || same(hits[i].kind.as_str(), "theorem") {
            return Some(hits[i].copy());
        }
    }
    None
}

/// Whether a list has an item but for the mark of the root namespace.
pub open spec fn lists_rootless(list: Seq<Seq<char>>, name: Seq<char>) -> bool {
    exists|i: int| 0 <= i < list.len() && rootless(#[trigger] list[i]) == rootless(name)
}

/// The declarations that use another, each once, in the order of its usages.
pub open spec fn consumers_of(usages: Seq<UsageView>, subject: Seq<char>) -> Seq<Seq<char>>
    decreases usages.len(),
{
    if usages.len() == 0 {
        Seq::empty()
    } else {
        let earlier = consumers_of(usages.drop_last(), subject);
        match usages.last().context {
            Some(context) => if rootless(context) != subject && !lists_rootless(
                earlier,
                context,
            ) {
                earlier.push(context)
            } else {
                earlier
            },
            None => earlier,
        }
    }
}

fn has_rootless(list: &Vec<String>, name: &str) -> (r: bool)
    ensures
        r == lists_rootless(strings(list@), name@),
{
    let ghost views = strings(list@);
    assert(views.len() == list.len());
    let wanted = without_root(name);
    for i in 0..list.len()
        invariant
            views == strings(list@),
            views.len() == list.len(),
            wanted@ == rootless(name@),
            forall|k: int| 0 <= k < i ==> rootless(#[trigger] views[k]) != rootless(name@),
    {
        assert(views[i as int] == list@[i as int]@);
        if same(without_root(list[i].as_str()), wanted) {
            return true;
        }
    }
    false
}

fn find_consumers(usages: &Vec<SearchUsage>, subject: &str) -> (r: Vec<String>)
    ensures
        strings(r@) == consumers_of(usage_views(usages@), subject@),
{
    let ghost views = usage_views(usages@);
    assert(views.len() == usages.len());
    let mut out: Vec<String> = Vec::new();
    assert(strings(out@) =~= Seq::<Seq<char>>::empty());
    assert(views.take(0) =~= Seq::<UsageView>::empty());
    for i in 0..usages.len()
        invariant
            views == usage_views(usages@),
            views.len() == usages.len(),
            strings(out@) == consumers_of(views.take(i as int), subject@),
    {
        proof {
            prefix_step(views, i as int);
        }
        assert(views[i as int] == usages@[i as int]@);
        if let Some(context) = &usages[i].context {
            if !same(without_root(context.as_str()), subject) && !has_rootless(
                &out,
                context.as_str(),
            ) {
                out.push(own(context.as_str()));
            }
        }
    }
    proof {
        prefix_all(views);
    }
    out
}

/// The file that a usage stands in.
pub open spec fn usage_file(root: Seq<char>, usage: UsageView) -> Seq<char> {
    placed_under(root, usage.path)
}

/// Computes [`usage_file`].
pub fn file_of_usage(root: &str, usage: &SearchUsage) -> (r: String)
    ensures
        r@ == usage_file(root@, usage@),
{
    join_path(root, usage.path.as_str())
}

/// The line of a usage in the text of its file.
pub open spec fn usage_excerpt(source: Option<Seq<char>>, usage: UsageView) -> Option<Seq<char>> {
    match source {
        None => None,
        Some(text) => {
            let list = line_list(text);
            let i = if usage.line > 0 {
                usage.line - 1
            } else {
                0
            };
            if i < list.len() {
                Some(shortened(bare(list[i]), 180))
            } else {
                None
            }
        },
    }
}

fn excerpt_of_usage(source: Option<&str>, usage: &SearchUsage) -> (r: Option<String>)
    ensures
        opt_string(r) == usage_excerpt(opt_str(source), usage@),
{
    let Some(text) = source else {
        return None;
    };
    let list = lines(text);
    assert(strs(list@).len() == list.len());
    let i: u64 = if usage.line > 0 {
        usage.line - 1
    } else {
        0
    };
    if i < list.len() as u64 {
        assert(strs(list@)[i as int] == list@[i as int]@);
        Some(truncate_line(trim(list[i as usize]), 180))
    } else {
        None
    }
}

/// A list with an item where there is one.
pub open spec fn with_optional(list: Seq<Seq<char>>, item: Option<Seq<char>>) -> Seq<Seq<char>> {
    match item {
        Some(t) => list.push(t),
        None => list,
    }
}

/// How a law is told.
pub open spec fn law_line(law: HitView) -> Seq<char> {
    "law: "@ + law.name + (match law.signature {
        Some(signature) => " : "@ + shortened(signature, 180),
        None => Seq::empty(),
    })
}

fn render_law(law: &SearchHit) -> (r: String)
    ensures
        r@ == law_line(law@),
{
    let typed = match &law.signature {
        Some(signature) => cat2(" : ", truncate_line(signature.as_str(), 180).as_str()),
        None => String::new(),
    };
    cat3("law: ", law.name.as_str(), typed.as_str())
}

/// What is told of the usages of a declaration: a law, who uses it, and one usage.
pub open spec fn usage_dossier(hit: HitView, law: Option<HitView>, source: Option<Seq<char>>) -> Seq<
    Seq<char>,
> {
    let consumers = front(consumers_of(hit.usages, canonical(hit.name)), 2);
    let first = with_optional(
        Seq::empty(),
        match law {
            Some(l) => Some(law_line(l)),
            None => None,
        },
    );
    let second = if consumers.len() > 0 {
        first.push("indexed consumers: "@ + joined(consumers, ", "@))
    } else {
        first
    };
    if hit.usages.len() == 0 {
        second.push("no indexed usages"@)
    } else {
        with_optional(
            second,
            match usage_excerpt(source, hit.usages[0]) {
                Some(excerpt) => Some("usage excerpt: "@ + excerpt),
                None => None,
            },
        )
    }
}

fn collect_usage_dossier(hit: &SearchHit, law: Option<&SearchHit>, source: Option<&str>) -> (r: Vec<
    String,
>)
    ensures
        strings(r@) == usage_dossier(
            hit@,
            match law {
                Some(l) => Some(l@),
                None => None,
            },
            opt_str(source),
        ),
{
    let mut out: Vec<String> = Vec::new();
    assert(strings(out@) =~= Seq::<Seq<char>>::empty());
    if let Some(l) = law {
        out.push(render_law(l));
    }
    let found = find_consumers(&hit.usages, canonical_declaration_name(hit.name.as_str()));
    let ghost all = strings(found@);
    assert(all.len() == found.len());
    let mut consumers: Vec<&str> = Vec::new();
    assert(strs(consumers@) =~= all.take(0));
    let stop: usize = if found.len() <= 2 {
        found.len()
    } else {
        2
    };
    for i in 0..stop
        invariant
            stop <= found.len(),
            all == strings(found@),
            strs(consumers@) == all.take(i as int),
    {
        proof {
            prefix_step(all, i as int);
        }
        consumers.push(found[i].as_str());
    }
    proof {
        prefix_all(all);
    }
    assert(strs(consumers@) == front(all, 2));
    assert(strs(consumers@).len() == consumers.len());
    if consumers.len() > 0 {
        out.push(cat2("indexed consumers: ", join_strs(&consumers, ", ").as_str()));
    }
    assert(usage_views(hit.usages@).len() == hit.usages.len());
    if hit.usages.len() == 0 {
        out.push(own("no indexed usages"));
    } else {
        assert(usage_views(hit.usages@)[0] == hit.usages@[0]@);
        if let Some(excerpt) = excerpt_of_usage(source, &hit.usages[0]) {
            out.push(cat2("usage excerpt: ", excerpt.as_str()));
        }
    }
    out
}

/// A run with what is told of the usages of its first hit.
pub open spec fn with_usages(run: RunView, law: Option<HitView>, source: Option<Seq<char>>) -> RunView {
    if run.hits.len() == 0 {
        run
    } else {
        let told = usage_dossier(run.hits[0], law, source);
        if told.len() == 0 {
            run
        } else {
            RunView {
                note: Some(
                    match run.note {
                        Some(note) => joined(told, "\n"@) + "\n"@ + note,
                        None => joined(told, "\n"@),
                    },
                ),
                ..run
            }
        }
    }
}

/// Adds what is told of the usages, see [`with_usages`]. `source` is the text of the
/// file that the first usage stands in, if it could be read.
pub fn enrich_usage_dossier(run: &mut SearchRun, law: Option<&SearchHit>, source: Option<&str>)
    ensures
        final(run)@ == with_usages(
            old(run)@,
            match law {
                Some(l) => Some(l@),
                None => None,
            },
            opt_str(source),
        ),
{
    assert(hit_views(run.hits@).len() == run.hits.len());
    if run.hits.len() == 0 {
        return;
    }
    assert(hit_views(run.hits@)[0] == run.hits@[0]@);
    let told = collect_usage_dossier(&run.hits[0], law, source);
    assert(strings(told@).len() == told.len());
    if told.len() > 0 {
        let text = join(&told, "\n");
        let next = match &run.note {
            Some(note) => cat3(text.as_str(), "\n", note.as_str()),
            None => text,
        };
        run.note = Some(next);
    }
}

/// What a probe of constructors leads to.
#[allow(inconsistent_fields)]
#[derive(Debug)]
pub enum ConstructorStep {
    /// Show the summary of the search as it is.
    Rendered,
    /// Search for the constructor of a structure.
    Search { query: String },
    /// Show the constructors of an inductive type.
    List { query: String, hits: Vec<SearchHit> },
}

/// The contents of a [`ConstructorStep`].
#[allow(inconsistent_fields)]
pub enum ConstructorStepView {
    Rendered,
    Search { query: Seq<char> },
    List { query: Seq<char>, hits: Seq<HitView> },
}

impl View for ConstructorStep {
    type V = ConstructorStepView;

    open spec fn view(&self) -> ConstructorStepView {
        match self {
            ConstructorStep::Rendered => ConstructorStepView::Rendered,
            ConstructorStep::Search { query } => ConstructorStepView::Search { query: query@ },
            ConstructorStep::List { query, hits } => ConstructorStepView::List {
                query: query@,
                hits: hit_views(hits@),
            },
        }
    }
}

/// The view of a planned step.
pub open spec fn constructor_step_view(r: Result<ConstructorStep, Failure>) -> Result<
    ConstructorStepView,
    Seq<char>,
> {
    match r {
        Ok(step) => Ok(step@),
        Err(e) => Err(e@),
    }
}

/// The first hit from `i` on that is meant by a name.
pub open spec fn meant_hit(hits: Seq<HitView>, subject: Seq<char>, i: int) -> Option<int>
    decreases hits.len() - i,
{
    if i >= hits.len() {
        None
    } else if qualified_match(hits[i].name, subject) {
        Some(i)
    } else {
        meant_hit(hits, subject, i + 1)
    }
}

fn find_meant(hits: &Vec<SearchHit>, subject: &str) -> (r: Option<usize>)
    ensures
        match r {
            Some(i) => i < hits.len() && meant_hit(hit_views(hits@), subject@, 0) == Some(i as int),
            None => meant_hit(hit_views(hits@), subject@, 0) is None,
        },
{
    let ghost views = hit_views(hits@);
    assert(views.len() == hits.len());
    for i in 0..hits.len()
        invariant
            views == hit_views(hits@),
            views.len() == hits.len(),
            meant_hit(views, subject@, 0) == meant_hit(views, subject@, i as int),
    {
        assert(views[i as int] == hits@[i as int]@);
        if qualified_name_matches(hits[i].name.as_str(), subject) {
            return Some(i);
        }
    }
    None
}

/// The hit of a constructor.
pub open spec fn constructor_hit(hit: HitView, c: ConstructorView) -> HitView {
    HitView {
        name: c.name,
        kind: "constructor"@,
        signature: unless_blank(c.signature),
        line: line_below(hit.line, c.line_offset as nat),
        doc: None,
        source: None,
        usages: Seq::empty(),
        applicable: false,
        ..hit
    }
}

/// The constructors of the type of a hit.
pub open spec fn hit_constructors(hit: HitView) -> Seq<ConstructorView> {
    constructors_of(
        canonical(hit.name),
        match hit.source {
            Some(source) => source,
            None => Seq::empty(),
        },
    )
}

/// What a probe of constructors leads to, or why the subject has none.
pub open spec fn constructor_step_of(run: Option<RunView>, subject: Seq<char>) -> Result<
    ConstructorStepView,
    Seq<char>,
> {
    match run {
        None => Ok(ConstructorStepView::Rendered),
        Some(r) => match meant_hit(r.hits, subject, 0) {
            None => Ok(ConstructorStepView::Rendered),
            Some(i) => {
                let hit = r.hits[i];
                let name = canonical(hit.name);
                if hit.kind == "class"@ || hit.kind == "structure"@ {
                    Ok(ConstructorStepView::Search { query: name + ".mk"@ })
                } else if hit.kind == "inductive"@ {
                    if hit_constructors(hit).len() == 0 {
                        Err("no indexed constructors found for "@ + name)
                    } else {
                        Ok(
                            ConstructorStepView::List {
                                query: name + " constructors"@,
                                hits: hit_constructors(hit).map_values(
                                    |c: ConstructorView| constructor_hit(hit, c),
                                ),
                            },
                        )
                    }
                } else {
                    Err(
                        wrong_kind(
                            name,
                            hit.kind,
                            "a structure, class, or inductive declaration"@,
                        ),
                    )
                }
            },
        },
    }
}

fn make_constructor_hit(hit: &SearchHit, c: &InductiveConstructor) -> (r: SearchHit)
    ensures
        r@ == constructor_hit(hit@, c@),
{
    let usages: Vec<SearchUsage> = Vec::new();
    assert(usage_views(usages@) =~= Seq::empty());
    let line = if c.line_offset <= u64::MAX - hit.line {
        hit.line + c.line_offset
    } else {
        u64::MAX
    };
    SearchHit {
        name: own(c.name.as_str()),
        kind: own("constructor"),
        signature: nonempty(own(c.signature.as_str())),
        module: own(hit.module.as_str()),
        path: own(hit.path.as_str()),
        line,
        doc: None,
        source: None,
        usages,
        applicable: false,
        required_import: copy_opt(&hit.required_import),
    }
}

fn constructor_hits(hit: &SearchHit, list: &Vec<InductiveConstructor>) -> (r: Vec<SearchHit>)
    ensures
        hit_views(r@) == constructor_views(list@).map_values(
            |c: ConstructorView| constructor_hit(hit@, c),
        ),
{
    let ghost wanted = constructor_views(list@).map_values(
        |c: ConstructorView| constructor_hit(hit@, c),
    );
    let mut out: Vec<SearchHit> = Vec::new();
    assert(hit_views(out@) =~= wanted.take(0));
    for i in 0..list.len()
        invariant
            wanted == constructor_views(list@).map_values(
                |c: ConstructorView| constructor_hit(hit@, c),
            ),
            hit_views(out@) == wanted.take(i as int),
    {
        proof {
            prefix_step(wanted, i as int);
        }
        assert(constructor_views(list@)[i as int] == list@[i as int]@);
        out.push(make_constructor_hit(hit, &list[i]));
    }
    proof {
        prefix_all(wanted);
    }
    out
}

/// Computes [`constructor_step_of`]. `run` is the search for the source of the subject,
/// if it was kept.
pub fn run_constructors_probe(run: Option<&SearchRun>, subject: &str) -> (r: Result<
    ConstructorStep,
    Failure,
>)
    ensures
        constructor_step_view(r) == constructor_step_of(opt_run(run), subject@),
{
    let Some(run) = run else {
        return Ok(ConstructorStep::Rendered);
    };
    let Some(i) = find_meant(&run.hits, subject) else {
        return Ok(ConstructorStep::Rendered);
    };
    assert(hit_views(run.hits@)[i as int] == run.hits@[i as int]@);
    let hit = &run.hits[i];
    let name = canonical_declaration_name(hit.name.as_str());
    if same(hit.kind.as_str(), "class") || same(hit.kind.as_str(), "structure") {
        return Ok(ConstructorStep::Search { query: cat2(name, ".mk") });
    }
    if same(hit.kind.as_str(), "inductive") {
        let source = match &hit.source {
            Some(text) => own(text.as_str()),
            None => String::new(),
        };
        let list = inductive_constructors(name, source.as_str());
        assert(constructor_views(list@).len() == list.len());
        return if list.len() == 0 {
            refuse(cat2("no indexed constructors found for ", name).as_str())
        } else {
            Ok(
                ConstructorStep::List {
                    query: cat2(name, " constructors"),
                    hits: constructor_hits(hit, &list),
                },
            )
        };
    }
    refuse(
        invalid_declaration_focus_message(
            name,
            hit.kind.as_str(),
            "a structure, class, or inductive declaration",
        ).as_str(),
    )
}

/// The usages that stand in a scope.
pub open spec fn usages_in(list: Seq<UsageView>, scope: Seq<char>) -> Seq<UsageView>
    decreases list.len(),
{
    if list.len() == 0 {
        Seq::empty()
    } else if in_scope(list.last().path, scope) {
        usages_in(list.drop_last(), scope).push(list.last())
    } else {
        usages_in(list.drop_last(), scope)
    }
}

fn keep_usages(list: &Vec<SearchUsage>, scope: &str) -> (r: Vec<SearchUsage>)
    ensures
        usage_views(r@) == usages_in(usage_views(list@), scope@),
{
    let ghost views = usage_views(list@);
    assert(views.len() == list.len());
    let mut out: Vec<SearchUsage> = Vec::new();
    assert(usage_views(out@) =~= Seq::<UsageView>::empty());
    assert(views.take(0) =~= Seq::<UsageView>::empty());
    for i in 0..list.len()
        invariant
            views == usage_views(list@),
            views.len() == list.len(),
            usage_views(out@) == usages_in(views.take(i as int), scope@),
    {
        proof {
            prefix_step(views, i as int);
        }
        assert(views[i as int] == list@[i as int]@);
        if usage_path_matches_scope(list[i].path.as_str(), scope) {
            out.push(list[i].copy());
        }
    }
    proof {
        prefix_all(views);
    }
    out
}

/// The outcome of a search for a subject, narrowed to its usages in a scope.
pub open spec fn scoped(result: ResultView, scope: Seq<char>, subject: Seq<char>) -> ResultView {
    match meant_hit(result.hits, subject, 0) {
        None => ResultView {
            hits: Seq::empty(),
            note: Some("declaration not found: "@ + subject + "; try search "@ + subject),
            ok: false,
            ..result
        },
        Some(i) => {
            let hit = result.hits[i];
            let usages = usages_in(hit.usages, scope);
            ResultView {
                hits: seq![HitView { source: None, usages, ..hit }],
                note: if usages.len() == 0 && !notes_warming(result.note) {
                    Some("no indexed usages under "@ + scope)
                } else {
                    result.note
                },
                ..result
            }
        },
    }
}

/// Narrows the outcome of a search, see [`scoped`].
pub fn probe_scoped_usages(result: &SearchResult, scope: &str, subject: &str) -> (r: SearchResult)
    ensures
        r@ == scoped(result@, scope@, subject@),
{
    let mut hits: Vec<SearchHit> = Vec::new();
    match find_meant(&result.hits, subject) {
        None => {
            assert(hit_views(hits@) =~= Seq::empty());
            SearchResult {
                hits,
                inference: own(result.inference.as_str()),
                note: Some(cat4("declaration not found: ", subject, "; try search ", subject)),
                ok: false,
            }
        },
        Some(i) => {
            assert(hit_views(result.hits@)[i as int] == result.hits@[i as int]@);
            let usages = keep_usages(&result.hits[i].usages, scope);
            assert(usage_views(usages@).len() == usages.len());
            let none = usages.len() == 0;
            let mut hit = result.hits[i].copy();
            hit.source = None;
            hit.usages = usages;
            hits.push(hit);
            assert(hit_views(hits@) =~= seq![hit@]);
            let warming = match &result.note {
                Some(note) => contains(note.as_str(), "warming"),
                None => false,
            };
            SearchResult {
                hits,
                inference: own(result.inference.as_str()),
                note: if none && !warming {
                    Some(cat2("no indexed usages under ", scope))
                } else {
                    copy_opt(&result.note)
                },
                ok: result.ok,
            }
        },
    }
}

/// Every usage that is listed for a scope stands in it.
pub proof fn listed_usages_stand_in_scope(list: Seq<UsageView>, scope: Seq<char>, i: int)
    requires
        0 <= i < usages_in(list, scope).len(),
    ensures
        in_scope(usages_in(list, scope)[i].path, scope),
        list.contains(usages_in(list, scope)[i]),
    decreases list.len(),
{
    let shorter = list.drop_last();
    if in_scope(list.last().path, scope) && i == usages_in(shorter, scope).len() {
        assert(list[list.len() - 1] == list.last());
    } else {
        listed_usages_stand_in_scope(shorter, scope, i);
        let k = choose|k: int| 0 <= k < shorter.len() && shorter[k] == usages_in(shorter, scope)[i];
        assert(list[k] == shorter[k]);
    }
}

} // verus!

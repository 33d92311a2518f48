//! Probes: what a request leads to, where it looks, and what Lean is asked.
use crate::failure::{
    refuse, refuse_as, text_view, unit_view, DiscoveryFailure, Failure,
};
use crate::path::{absolute, is_absolute, is_under, join_path, lies_under, placed_under};
use crate::search::diagnostics::{
    apply_detail, defeq_detail, diagnostic_apply_detail, diagnostic_context,
    diagnostic_defeq_detail, diagnostic_position, diagnostic_rewrite_detail,
    diagnostic_type_detail, message_context, message_position, rewrite_detail, type_detail,
};
use crate::search::focus::{
    decisive, decisive_directive_result, found_type, heading_line, indexed_check_hit,
    is_declaration_header, opt_hit, probe_search, running_check_probe_hint, static_probe_query,
    still_running, stored_goal, stored_goal_detail,
};
use crate::search::locations::{
    location_in_source, location_request, location_view, parse_source_location, LocationRequest,
    LocationRequestView,
};
use crate::search::names::{qualified_match, qualified_name_matches};
use crate::search::records::{
    diagnostic_views, hit_views, hit_views_push, Diagnostic, DiagnosticView, HitView, RunView,
    SearchHit, SearchRun,
};
use crate::search::request::{
    opt_context, probe_request, ContextView, DirectiveView, LeanDirective, ProbeContext,
    ProbeRequest,
};
use crate::search::tree::{SourceTree, TreeView};
use crate::search::triage::{bare_hit, make_bare_hit, opt_run, path_in_workspace, workspace_target};
use crate::state::profile::{CheckRun, CheckRunView};
use crate::text::make::{cat2, cat3, cat4, cat5, own, same, strs};
use crate::text::number::{decimal, show, show_size};
use crate::text::pieces::{line_list, lines};
use crate::text::scan::{begins, blank, is_blank, opt_str, opt_string, starts_with};
use vstd::prelude::*;

verus! {

broadcast use hit_views_push;

/// What a probe leads to.
#[allow(inconsistent_fields)]
#[derive(Debug, PartialEq, Eq)]
pub enum ProbeStep {
    /// Ask Lean. Where `indexed` holds, an indexed type answers first.
    Lean { context: ProbeContext, directive: LeanDirective, indexed: bool },
    /// Look into a stored check.
    Check { reference: String, focus: Option<String> },
    /// Look at a line of a file: at its goal, or at a term there.
    Position { location: String, subject: Option<String> },
    /// List the warnings of a file.
    FileWarnings { file: String },
    /// Collect what makes values of a declaration.
    Examples { subject: String, location: Option<String> },
    /// Let Lean confirm what is known of a declaration.
    Evidence { subject: String, location: String },
    /// Look into an earlier search.
    Query { reference: String, hit: usize, subject: Option<String>, focus: Option<String> },
    /// List usages below a path.
    ScopedUsages { scope: String, subject: String },
    /// Read the contract of a declaration.
    Contract { subject: String, focus: String },
    /// List the constructors of a type.
    Constructors { subject: String },
    /// Search, and show what was found through a focus.
    Static { query: String, focus: String },
}

/// The contents of a [`ProbeStep`].
#[allow(inconsistent_fields)]
pub enum StepView {
    Lean { context: ContextView, directive: DirectiveView, indexed: bool },
    Check { reference: Seq<char>, focus: Option<Seq<char>> },
    Position { location: Seq<char>, subject: Option<Seq<char>> },
    FileWarnings { file: Seq<char> },
    Examples { subject: Seq<char>, location: Option<Seq<char>> },
    Evidence { subject: Seq<char>, location: Seq<char> },
    Query {
        reference: Seq<char>,
        hit: usize,
        subject: Option<Seq<char>>,
        focus: Option<Seq<char>>,
    },
    ScopedUsages { scope: Seq<char>, subject: Seq<char> },
    Contract { subject: Seq<char>, focus: Seq<char> },
    Constructors { subject: Seq<char> },
    Static { query: Seq<char>, focus: Seq<char> },
}

impl View for ProbeStep {
    type V = StepView;

    open spec fn view(&self) -> StepView {
        match self {
            ProbeStep::Lean { context, directive, indexed } => StepView::Lean {
                context: context@,
                directive: directive@,
                indexed: *indexed,
            },
            ProbeStep::Check { reference, focus } => StepView::Check {
                reference: reference@,
                focus: opt_string(*focus),
            },
            ProbeStep::Position { location, subject } => StepView::Position {
                location: location@,
                subject: opt_string(*subject),
            },
            ProbeStep::FileWarnings { file } => StepView::FileWarnings { file: file@ },
            ProbeStep::Examples { subject, location } => StepView::Examples {
                subject: subject@,
                location: opt_string(*location),
            },
            ProbeStep::Evidence { subject, location } => StepView::Evidence {
                subject: subject@,
                location: location@,
            },
            ProbeStep::Query { reference, hit, subject, focus } => StepView::Query {
                reference: reference@,
                hit: *hit,
                subject: opt_string(*subject),
                focus: opt_string(*focus),
            },
            ProbeStep::ScopedUsages { scope, subject } => StepView::ScopedUsages {
                scope: scope@,
                subject: subject@,
            },
            ProbeStep::Contract { subject, focus } => StepView::Contract {
                subject: subject@,
                focus: focus@,
            },
            ProbeStep::Constructors { subject } => StepView::Constructors { subject: subject@ },
            ProbeStep::Static { query, focus } => StepView::Static { query: query@, focus: focus@ },
        }
    }
}

/// The view of a planned step.
pub open spec fn step_view(r: Result<ProbeStep, Failure>) -> Result<StepView, Seq<char>> {
    match r {
        Ok(step) => Ok(step@),
        Err(e) => Err(e@),
    }
}

/// What a directive leads to.
pub open spec fn lean_step(context: ContextView, directive: DirectiveView) -> StepView {
    StepView::Lean { context, directive, indexed: directive is Check }
}

/// What a probe at a line of a file leads to.
pub open spec fn position_step(
    location: Seq<char>,
    subject: Option<Seq<char>>,
    focus: Option<Seq<char>>,
) -> Result<StepView, Seq<char>> {
    if subject is None && (focus is None || focus == Some("goal"@)) {
        Ok(StepView::Position { location, subject: None })
    } else if subject is Some && (focus is None || focus == Some("signature"@)) {
        Ok(StepView::Position { location, subject })
    } else if subject is Some && focus == Some("examples"@) {
        Ok(StepView::Examples { subject: subject->0, location: Some(location) })
    } else if subject is Some && focus == Some("evidence"@) {
        Ok(StepView::Evidence { subject: subject->0, location })
    } else {
        Err(
            "focus `"@ + focus->0
                + "` is not valid at FILE:LINE; use goal, TERM, or a Lean directive"@,
        )
    }
}

/// What a probe of a subject leads to where only a search can answer.
pub open spec fn search_step(
    context: Option<ContextView>,
    subject: Seq<char>,
    focus: Option<Seq<char>>,
) -> Result<StepView, Seq<char>> {
    match probe_search(context, subject, focus) {
        Ok(query) => Ok(
            StepView::Static {
                query,
                focus: match focus {
                    Some(f) => f,
                    None => if begins(subject, "type:"@) {
                        "types"@
                    } else {
                        "signature"@
                    },
                },
            },
        ),
        Err(message) => Err(message),
    }
}

/// What a probe of a file leads to.
pub open spec fn file_step(
    file: Seq<char>,
    subject: Option<Seq<char>>,
    focus: Option<Seq<char>>,
) -> Result<StepView, Seq<char>> {
    match subject {
        None => if focus == Some("warnings"@) {
            Ok(StepView::FileWarnings { file })
        } else if focus == Some("goal"@) {
            Err("goal requires an exact FILE:LINE context, not "@ + file)
        } else {
            Err("probe form is incomplete"@)
        },
        Some(s) => if focus == Some("usages"@) {
            Ok(StepView::ScopedUsages { scope: file, subject: s })
        } else if focus is None || focus == Some("signature"@) {
            Ok(
                StepView::Lean {
                    context: ContextView::File(file),
                    directive: DirectiveView::Check(s),
                    indexed: false,
                },
            )
        } else {
            search_step(Some(ContextView::File(file)), s, focus)
        },
    }
}

/// What a probe without a context leads to.
pub open spec fn name_step(subject: Option<Seq<char>>, focus: Option<Seq<char>>) -> Result<
    StepView,
    Seq<char>,
> {
    match subject {
        None => Err("probe form is incomplete"@),
        Some(s) => if focus == Some("examples"@) {
            Ok(StepView::Examples { subject: s, location: None })
        } else if focus == Some("assumptions"@) || focus == Some("evidence"@) {
            Ok(StepView::Contract { subject: s, focus: focus->0 })
        } else if focus == Some("constructors"@) {
            Ok(StepView::Constructors { subject: s })
        } else {
            search_step(None, s, focus)
        },
    }
}

/// What a probe that is not a directive leads to.
pub open spec fn subject_step(
    context: Option<ContextView>,
    subject: Option<Seq<char>>,
    focus: Option<Seq<char>>,
) -> Result<StepView, Seq<char>> {
    match context {
        Some(ContextView::Check(reference)) => if subject is None {
            Ok(StepView::Check { reference, focus })
        } else {
            Err("cREF accepts only goal, types, defeq, rewrite, or profile focus"@)
        },
        Some(ContextView::Position(location)) => position_step(location, subject, focus),
        Some(ContextView::Query(reference, hit)) => Ok(
            StepView::Query { reference, hit, subject, focus },
        ),
        Some(ContextView::File(file)) => file_step(file, subject, focus),
        Some(ContextView::Scope(scope)) => match subject {
            None => Err("probe form is incomplete"@),
            Some(s) => if focus == Some("usages"@) {
                Ok(StepView::ScopedUsages { scope, subject: s })
            } else {
                search_step(context, s, focus)
            },
        },
        None => name_step(subject, focus),
    }
}

/// What a probe leads to, or why it is refused.
pub open spec fn planned(query: Seq<char>) -> Result<StepView, Seq<char>> {
    match probe_request(query) {
        Err(message) => Err(message),
        Ok(q) => match q.directive {
            Some(directive) => Ok(lean_step(q.context->0, directive)),
            None => subject_step(q.context, q.subject, q.focus),
        },
    }
}

/// A directive is only ever put to Lean in a context that the request names.
pub proof fn directives_name_their_context(query: Seq<char>)
    ensures
        match probe_request(query) {
            Ok(q) => q.directive is Some ==> q.context is Some && q.subject is None && q.focus
                is None,
            Err(_) => true,
        },
{
}

fn is_focus(focus: &Option<String>, name: &str) -> (r: bool)
    ensures
        r == (opt_string(*focus) == Some(name@)),
{
    match focus {
        Some(f) => same(f.as_str(), name),
        None => false,
    }
}

fn as_text(o: &Option<String>) -> (r: Option<&str>)
    ensures
        opt_str(r) == opt_string(*o),
{
    match o {
        Some(t) => Some(t.as_str()),
        None => None,
    }
}

fn plan_position(location: String, subject: Option<String>, focus: Option<String>) -> (r: Result<
    ProbeStep,
    Failure,
>)
    ensures
        step_view(r) == position_step(location@, opt_string(subject), opt_string(focus)),
        r matches Err(e) ==> e.class is None,
{
    match subject {
        None => if focus.is_none() || is_focus(&focus, "goal") {
            return Ok(ProbeStep::Position { location, subject: None });
        },
        Some(s) => {
            if focus.is_none() || is_focus(&focus, "signature") {
                return Ok(ProbeStep::Position { location, subject: Some(s) });
            }
            if is_focus(&focus, "examples") {
                return Ok(ProbeStep::Examples { subject: s, location: Some(location) });
            }
            if is_focus(&focus, "evidence") {
                return Ok(ProbeStep::Evidence { subject: s, location });
            }
        },
    }
    let named = match &focus {
        Some(f) => f.as_str(),
        None => "",
    };
    refuse(
        cat3(
            "focus `",
            named,
            "` is not valid at FILE:LINE; use goal, TERM, or a Lean directive",
        ).as_str(),
    )
}

fn plan_search(context: Option<&ProbeContext>, subject: &str, focus: &Option<String>) -> (r: Result<
    ProbeStep,
    Failure,
>)
    ensures
        step_view(r) == search_step(
            match context {
                Some(c) => Some(c@),
                None => None,
            },
            subject@,
            opt_string(*focus),
        ),
        r matches Err(e) ==> e.class is None,
{
    match static_probe_query(context, subject, as_text(focus)) {
        Ok(query) => Ok(
            ProbeStep::Static {
                query,
                focus: match focus {
                    Some(f) => own(f.as_str()),
                    None => if starts_with(subject, "type:") {
                        own("types")
                    } else {
                        own("signature")
                    },
                },
            },
        ),
        Err(e) => Err(e),
    }
}

fn plan_file(file: String, subject: Option<String>, focus: Option<String>) -> (r: Result<
    ProbeStep,
    Failure,
>)
    ensures
        step_view(r) == file_step(file@, opt_string(subject), opt_string(focus)),
        r matches Err(e) ==> e.class is None,
{
    match subject {
        None => if is_focus(&focus, "warnings") {
            Ok(ProbeStep::FileWarnings { file })
        } else if is_focus(&focus, "goal") {
            refuse(
                cat2("goal requires an exact FILE:LINE context, not ", file.as_str()).as_str(),
            )
        } else {
            refuse("probe form is incomplete")
        },
        Some(s) => if is_focus(&focus, "usages") {
            Ok(ProbeStep::ScopedUsages { scope: file, subject: s })
        } else if focus.is_none() || is_focus(&focus, "signature") {
            Ok(
                ProbeStep::Lean {
                    context: ProbeContext::File(file),
                    directive: LeanDirective::Check(s),
                    indexed: false,
                },
            )
        } else {
            plan_search(Some(&ProbeContext::File(file)), s.as_str(), &focus)
        },
    }
}

fn plan_name(subject: Option<String>, focus: Option<String>) -> (r: Result<ProbeStep, Failure>)
    ensures
        step_view(r) == name_step(opt_string(subject), opt_string(focus)),
        r matches Err(e) ==> e.class is None,
{
    match subject {
        None => refuse("probe form is incomplete"),
        Some(s) => if is_focus(&focus, "examples") {
            Ok(ProbeStep::Examples { subject: s, location: None })
        } else if is_focus(&focus, "assumptions") || is_focus(&focus, "evidence") {
            match focus {
                Some(f) => Ok(ProbeStep::Contract { subject: s, focus: f }),
                None => refuse("probe form is incomplete"),
            }
        } else if is_focus(&focus, "constructors") {
            Ok(ProbeStep::Constructors { subject: s })
        } else {
            plan_search(None, s.as_str(), &focus)
        },
    }
}

fn plan_subject(
    context: Option<ProbeContext>,
    subject: Option<String>,
    focus: Option<String>,
) -> (r: Result<ProbeStep, Failure>)
    ensures
        step_view(r) == subject_step(
            opt_context(context),
            opt_string(subject),
            opt_string(focus),
        ),
        r matches Err(e) ==> e.class is None,
{
    match context {
        Some(ProbeContext::Check(reference)) => if subject.is_none() {
            Ok(ProbeStep::Check { reference, focus })
        } else {
            refuse("cREF accepts only goal, types, defeq, rewrite, or profile focus")
        },
        Some(ProbeContext::Position(location)) => plan_position(location, subject, focus),
        Some(ProbeContext::Query(reference, hit)) => Ok(
            ProbeStep::Query { reference, hit, subject, focus },
        ),
        Some(ProbeContext::File(file)) => plan_file(file, subject, focus),
        Some(ProbeContext::Scope(scope)) => match subject {
            None => refuse("probe form is incomplete"),
            Some(s) => if is_focus(&focus, "usages") {
                Ok(ProbeStep::ScopedUsages { scope, subject: s })
            } else {
                plan_search(Some(&ProbeContext::Scope(scope)), s.as_str(), &focus)
            },
        },
        None => plan_name(subject, focus),
    }
}

/// Whoever searches a workspace: its reference, its files and those of the main
/// directory.
#[derive(Debug)]
pub struct Searcher {
    pub workspace_ref: String,
    pub tree: SourceTree,
    pub main: Option<SourceTree>,
}

/// The contents of a [`Searcher`].
pub struct SearcherView {
    pub workspace_ref: Seq<char>,
    pub tree: TreeView,
    pub main: Option<TreeView>,
}

/// A file and a line of it that Lean is to look at; line zero stands for the end of the
/// file.
pub type LeanPlace = (String, u64);

/// The view of a resolved context.
pub open spec fn place_view(r: Result<LeanPlace, Failure>) -> Result<(Seq<char>, u64), Seq<char>> {
    match r {
        Ok((path, line)) => Ok((path@, line)),
        Err(e) => Err(e@),
    }
}

/// What is said where Lean would have to work outside the project.
pub open spec fn needs_project() -> Seq<char> {
    "Lean experiments need a project file in this workspace. Use a project FILE:LINE that imports the declaration, then retry the directive. Dependency source remains readable with search or probe NAME source."@
}

/// Whether Lean can work with a file, both paths with every link followed.
pub open spec fn project_context(real_root: Seq<char>, path: Seq<char>) -> Result<(), Seq<char>> {
    if lies_under(path, real_root) {
        Ok(())
    } else {
        Err(needs_project())
    }
}

/// Decides [`project_context`].
pub fn ensure_lean_project_context(real_root: &str, path: &str) -> (r: Result<(), Failure>)
    ensures
        unit_view(r) == project_context(real_root@, path@),
        r matches Err(e) ==> e.class == Some(DiscoveryFailure::UnavailableContext),
{
    if is_under(path, real_root) {
        Ok(())
    } else {
        refuse_as(
            "Lean experiments need a project file in this workspace. Use a project FILE:LINE that imports the declaration, then retry the directive. Dependency source remains readable with search or probe NAME source.",
            DiscoveryFailure::UnavailableContext,
        )
    }
}

/// The place that a stored hit gives a probe: a line where it was found at one, else
/// the end of its file.
pub open spec fn hit_place(run: RunView, hit: HitView) -> (Seq<char>, bool) {
    let positioned = (run.inference == "probe"@ && hit.line > 0) || hit.kind == "location"@
        || hit.kind == "location-expanded"@;
    (
        if positioned {
            hit.path + ":"@ + decimal(hit.line as nat)
        } else {
            hit.path + ":tail"@
        },
        positioned,
    )
}

/// Takes a place that was parsed, or says why there is none. Line zero is given where
/// the line does not matter.
pub open spec fn taken_place(
    found: Result<Option<LocationRequestView>, Seq<char>>,
    missing: Seq<char>,
    with_line: bool,
) -> Result<(Seq<char>, u64), Seq<char>> {
    match found {
        Err(message) => Err(message),
        Ok(None) => Err(missing),
        Ok(Some(at)) => Ok(
            (
                at.path,
                if with_line && at.line is Some {
                    at.line->0
                } else {
                    0
                },
            ),
        ),
    }
}

fn take_place(found: Result<Option<LocationRequest>, Failure>, missing: &str, with_line: bool) -> (r:
    Result<LeanPlace, Failure>)
    ensures
        place_view(r) == taken_place(location_view(found), missing@, with_line),
{
    match found {
        Err(e) => Err(e),
        Ok(None) => refuse(missing),
        Ok(Some(at)) => {
            let line = match at.line {
                Some(n) => if with_line {
                    n
                } else {
                    0
                },
                None => 0,
            };
            Ok((at.path, line))
        },
    }
}

/// The message of a check that a probe looks at: its first diagnostic, or else its first
/// warning.
pub open spec fn first_message(check: CheckRunView) -> Option<DiagnosticView> {
    if check.diagnostics.len() > 0 {
        Some(check.diagnostics[0])
    } else if check.warnings.len() > 0 {
        Some(check.warnings[0])
    } else {
        None
    }
}

/// The view of an optional diagnostic.
pub open spec fn opt_diagnostic(d: Option<&Diagnostic>) -> Option<DiagnosticView> {
    match d {
        Some(v) => Some(v@),
        None => None,
    }
}

fn message_of(check: &CheckRun) -> (r: Option<&Diagnostic>)
    ensures
        opt_diagnostic(r) == first_message(check@),
{
    assert(diagnostic_views(check.diagnostics@).len() == check.diagnostics.len());
    assert(diagnostic_views(check.warnings@).len() == check.warnings.len());
    if check.diagnostics.len() > 0 {
        assert(diagnostic_views(check.diagnostics@)[0] == check.diagnostics@[0]@);
        Some(&check.diagnostics[0])
    } else if check.warnings.len() > 0 {
        assert(diagnostic_views(check.warnings@)[0] == check.warnings@[0]@);
        Some(&check.warnings[0])
    } else {
        None
    }
}

/// The text of an optional diagnostic.
pub open spec fn message_text(d: Option<DiagnosticView>, absent: Seq<char>) -> Seq<char> {
    match d {
        Some(v) => v.text,
        None => absent,
    }
}

/// What is said of something stored that another workspace owns.
pub open spec fn owned_elsewhere(reference: Seq<char>, owner: Seq<char>) -> Seq<char> {
    reference + " belongs to "@ + owner + "; run the Lean probe from that workspace"@
}

/// What is said of a hit that a search does not have. Hits are counted from one there.
pub open spec fn no_such_hit(reference: Seq<char>, count: nat, hit: usize) -> Seq<char> {
    reference + " has "@ + decimal(count) + " result(s), not result #"@ + decimal(
        if hit < usize::MAX {
            (hit + 1) as nat
        } else {
            hit as nat
        },
    )
}

pub(crate) fn render_no_such_hit(reference: &str, count: usize, hit: usize) -> (r: String)
    ensures
        r@ == no_such_hit(reference@, count as nat, hit),
{
    let number = show_size(
        if hit < usize::MAX {
            hit + 1
        } else {
            hit
        },
    );
    cat5(reference, " has ", show_size(count).as_str(), " result(s), not result #", number.as_str())
}

impl View for Searcher {
    type V = SearcherView;

    open spec fn view(&self) -> SearcherView {
        SearcherView {
            workspace_ref: self.workspace_ref@,
            tree: self.tree@,
            main: match self.main {
                Some(t) => Some(t@),
                None => None,
            },
        }
    }
}

/// Where a check failed.
pub open spec fn check_place(s: SearcherView, reference: Seq<char>, check: Option<CheckRunView>) -> Result<
    (Seq<char>, u64),
    Seq<char>,
> {
    match check {
        None => Err("unknown check reference "@ + reference),
        Some(run) => if run.workspace_ref != s.workspace_ref {
            Err(owned_elsewhere(reference, run.workspace_ref))
        } else {
            let (path, line) = message_position(
                message_text(first_message(run), Seq::empty()),
                run.failed,
            );
            match path {
                None => Err(reference + " has no source context"@),
                Some(p) => taken_place(
                    location_request(
                        s.tree,
                        s.main,
                        (if absolute(p) {
                            p
                        } else {
                            placed_under(s.tree.root, p)
                        }) + ":"@ + decimal(line as nat),
                    ),
                    "stored context for "@ + reference + " is unavailable"@,
                    true,
                ),
            }
        },
    }
}

/// Where a hit of an earlier search stands.
pub open spec fn stored_place(
    s: SearcherView,
    reference: Seq<char>,
    hit: usize,
    run: Option<RunView>,
) -> Result<(Seq<char>, u64), Seq<char>> {
    match run {
        None => Err("unknown query reference "@ + reference),
        Some(r) => if r.workspace_ref != s.workspace_ref {
            Err(owned_elsewhere(reference, r.workspace_ref))
        } else if hit >= r.hits.len() {
            Err(no_such_hit(reference, r.hits.len(), hit))
        } else if r.hits[hit as int].path.len() == 0 {
            Err(reference + " has no source path"@)
        } else {
            let (place, positioned) = hit_place(r, r.hits[hit as int]);
            taken_place(
                location_request(s.tree, s.main, place),
                "stored context for "@ + reference + " is unavailable"@,
                positioned,
            )
        },
    }
}

/// The place that a context names. `check` and `run` are what its reference was stored
/// with.
pub open spec fn named_place(
    s: SearcherView,
    context: ContextView,
    check: Option<CheckRunView>,
    run: Option<RunView>,
) -> Result<(Seq<char>, u64), Seq<char>> {
    match context {
        ContextView::Position(location) => taken_place(
            location_request(s.tree, s.main, location),
            "invalid probe location "@ + location,
            true,
        ),
        ContextView::File(file) => taken_place(
            location_request(s.tree, s.main, file + ":tail"@),
            "invalid probe file "@ + file,
            false,
        ),
        ContextView::Scope(path) => Err(
            path + " is a search scope, not a Lean elaboration context"@,
        ),
        ContextView::Check(reference) => check_place(s, reference, check),
        ContextView::Query(reference, hit) => stored_place(s, reference, hit, run),
    }
}

/// The place that a context names, in a file that Lean can work with.
pub open spec fn lean_place(
    s: SearcherView,
    context: ContextView,
    check: Option<CheckRunView>,
    run: Option<RunView>,
) -> Result<(Seq<char>, u64), Seq<char>> {
    match named_place(s, context, check, run) {
        Err(message) => Err(message),
        Ok(place) => match project_context(s.tree.real_root, place.0) {
            Ok(_) => Ok(place),
            Err(message) => Err(message),
        },
    }
}

/// The view of an optional check.
pub open spec fn opt_check(check: Option<&CheckRun>) -> Option<CheckRunView> {
    match check {
        Some(c) => Some(c@),
        None => None,
    }
}

/// What Lean is asked at a line of a file.
#[derive(Debug)]
pub struct PositionProbe {
    pub path: String,
    pub stored_path: String,
    pub line: u64,
    pub operation: String,
    pub input: String,
}

/// The contents of a [`PositionProbe`].
pub struct PositionView {
    pub path: Seq<char>,
    pub stored_path: Seq<char>,
    pub line: u64,
    pub operation: Seq<char>,
    pub input: Seq<char>,
}

impl View for PositionProbe {
    type V = PositionView;

    open spec fn view(&self) -> PositionView {
        PositionView {
            path: self.path@,
            stored_path: self.stored_path@,
            line: self.line,
            operation: self.operation@,
            input: self.input@,
        }
    }
}

/// The view of a prepared position.
pub open spec fn position_view(r: Result<PositionProbe, Failure>) -> Result<
    PositionView,
    Seq<char>,
> {
    match r {
        Ok(p) => Ok(p@),
        Err(e) => Err(e@),
    }
}

/// The path under which something is stored: in the workspace, where it stands there.
pub open spec fn stored_path_of(path: Seq<char>, root: Seq<char>) -> Seq<char> {
    match path_in_workspace(path, root) {
        Ok(p) => p,
        Err(_) => path,
    }
}

fn storable_path(path: &str, root: &str) -> (r: String)
    ensures
        r@ == stored_path_of(path@, root@),
{
    match workspace_target(path, root) {
        Ok(p) => p,
        Err(_) => own(path),
    }
}

/// A line at which there can be a goal: one of a proof.
pub open spec fn goal_line(source: Seq<char>, line: u64) -> bool {
    let list = line_list(source);
    let i = if line > 0 {
        line - 1
    } else {
        0
    };
    i < list.len() && !blank(list[i]) && !heading_line(list[i])
}

fn is_goal_line(source: &str, line: u64) -> (r: bool)
    ensures
        r == goal_line(source@, line),
{
    let list = lines(source);
    assert(strs(list@).len() == list.len());
    let i: u64 = if line > 0 {
        line - 1
    } else {
        0
    };
    if i < list.len() as u64 {
        assert(strs(list@)[i as int] == list@[i as int]@);
        let text = list[i as usize];
        !is_blank(text) && !is_declaration_header(text)
    } else {
        false
    }
}

/// What Lean is asked at a place, or why there is nothing to ask.
pub open spec fn prepared(
    root: Seq<char>,
    at: LocationRequestView,
    source: Seq<char>,
    subject: Option<Seq<char>>,
) -> Result<PositionView, Seq<char>> {
    let place = location_in_source(at, source, false);
    let stored_path = match at.display_path {
        Some(shown) => shown,
        None => stored_path_of(at.path, root),
    };
    let goal = subject is None || subject == Some("goal"@);
    if goal && !goal_line(source, place.line) {
        Err(
            "goal needs an exact proof line, not a declaration header or blank line; use search "@
                + stored_path + ":"@ + decimal(place.line as nat) + " to read source"@,
        )
    } else {
        Ok(
            PositionView {
                path: at.path,
                stored_path,
                line: place.line,
                operation: if goal {
                    "goal"@
                } else {
                    "term"@
                },
                input: if goal {
                    Seq::empty()
                } else {
                    subject->0
                },
            },
        )
    }
}

impl Searcher {
    /// Plans a probe, see [`planned`].
    pub fn probe(&self, query: &str) -> (r: Result<ProbeStep, Failure>)
        ensures
            step_view(r) == planned(query@),
            r matches Err(e) ==> e.class == (if probe_request(query@) is Err {
                Some(DiscoveryFailure::InvalidRequest)
            } else {
                None
            }),
    {
        match ProbeRequest::parse(query) {
            Err(e) => Err(e.classed(DiscoveryFailure::InvalidRequest)),
            Ok(request) => {
                proof {
                    directives_name_their_context(query@);
                }
                match request.directive {
                    Some(directive) => match request.context {
                        Some(context) => {
                            let indexed = match &directive {
                                LeanDirective::Check(_) => true,
                                _ => false,
                            };
                            Ok(ProbeStep::Lean { context, directive, indexed })
                        },
                        None => refuse("probe form is incomplete"),
                    },
                    None => plan_subject(request.context, request.subject, request.focus),
                }
            },
        }
    }

    fn parse(&self, query: &str) -> (r: Result<Option<LocationRequest>, Failure>)
        ensures
            location_view(r) == location_request(self@.tree, self@.main, query@),
    {
        parse_source_location(&self.tree, self.main.as_ref(), query)
    }

    fn place_of_check(&self, reference: &str, check: Option<&CheckRun>) -> (r: Result<
        LeanPlace,
        Failure,
    >)
        ensures
            place_view(r) == check_place(self@, reference@, opt_check(check)),
    {
        let Some(run) = check else {
            return refuse(cat2("unknown check reference ", reference).as_str());
        };
        if !same(run.workspace_ref.as_str(), self.workspace_ref.as_str()) {
            return refuse(
                cat4(
                    reference,
                    " belongs to ",
                    run.workspace_ref.as_str(),
                    "; run the Lean probe from that workspace",
                ).as_str(),
            );
        }
        let text = match message_of(run) {
            Some(d) => own(d.text.as_str()),
            None => String::new(),
        };
        let (path, line) = diagnostic_position(text.as_str(), as_text(&run.failed));
        let Some(path) = path else {
            return refuse(cat2(reference, " has no source context").as_str());
        };
        let requested = if is_absolute(path.as_str()) {
            path
        } else {
            join_path(self.tree.root.as_str(), path.as_str())
        };
        take_place(
            self.parse(cat3(requested.as_str(), ":", show(line).as_str()).as_str()),
            cat3("stored context for ", reference, " is unavailable").as_str(),
            true,
        )
    }

    fn place_of_hit(&self, reference: &str, hit: usize, run: Option<&SearchRun>) -> (r: Result<
        LeanPlace,
        Failure,
    >)
        ensures
            place_view(r) == stored_place(self@, reference@, hit, opt_run(run)),
    {
        let Some(run) = run else {
            return refuse(cat2("unknown query reference ", reference).as_str());
        };
        if !same(run.workspace_ref.as_str(), self.workspace_ref.as_str()) {
            return refuse(
                cat4(
                    reference,
                    " belongs to ",
                    run.workspace_ref.as_str(),
                    "; run the Lean probe from that workspace",
                ).as_str(),
            );
        }
        assert(hit_views(run.hits@).len() == run.hits.len());
        if hit >= run.hits.len() {
            return refuse(render_no_such_hit(reference, run.hits.len(), hit).as_str());
        }
        assert(hit_views(run.hits@)[hit as int] == run.hits@[hit as int]@);
        let found = &run.hits[hit];
        if found.path.as_str().is_empty() {
            return refuse(cat2(reference, " has no source path").as_str());
        }
        let positioned = (same(run.inference.as_str(), "probe") && found.line > 0) || same(
            found.kind.as_str(),
            "location",
        ) || same(found.kind.as_str(), "location-expanded");
        let place = if positioned {
            cat3(found.path.as_str(), ":", show(found.line).as_str())
        } else {
            cat2(found.path.as_str(), ":tail")
        };
        take_place(
            self.parse(place.as_str()),
            cat3("stored context for ", reference, " is unavailable").as_str(),
            positioned,
        )
    }

    /// Where Lean is to work for a directive, see [`lean_place`]. Whatever the reason, a
    /// context that is not found is an unavailable one.
    pub fn lean_context(
        &self,
        context: &ProbeContext,
        check: Option<&CheckRun>,
        run: Option<&SearchRun>,
    ) -> (r: Result<LeanPlace, Failure>)
        ensures
            place_view(r) == lean_place(self@, context@, opt_check(check), opt_run(run)),
            r matches Err(e) ==> e.class == Some(DiscoveryFailure::UnavailableContext),
    {
        match self.resolve_probe_context(context, check, run) {
            Ok(place) => Ok(place),
            Err(e) => Err(e.classed(DiscoveryFailure::UnavailableContext)),
        }
    }

    /// Computes [`lean_place`].
    pub fn resolve_probe_context(
        &self,
        context: &ProbeContext,
        check: Option<&CheckRun>,
        run: Option<&SearchRun>,
    ) -> (r: Result<LeanPlace, Failure>)
        ensures
            place_view(r) == lean_place(self@, context@, opt_check(check), opt_run(run)),
    {
        let found = match context {
            ProbeContext::Position(location) => take_place(
                self.parse(location.as_str()),
                cat2("invalid probe location ", location.as_str()).as_str(),
                true,
            ),
            ProbeContext::File(file) => take_place(
                self.parse(cat2(file.as_str(), ":tail").as_str()),
                cat2("invalid probe file ", file.as_str()).as_str(),
                false,
            ),
            ProbeContext::Scope(path) => refuse(
                cat2(
                    path.as_str(),
                    " is a search scope, not a Lean elaboration context",
                ).as_str(),
            ),
            ProbeContext::Check(reference) => self.place_of_check(reference.as_str(), check),
            ProbeContext::Query(reference, hit) => self.place_of_hit(
                reference.as_str(),
                *hit,
                run,
            ),
        };
        match found {
            Err(e) => Err(e),
            Ok((path, line)) => match ensure_lean_project_context(
                self.tree.real_root.as_str(),
                path.as_str(),
            ) {
                Ok(_) => Ok((path, line)),
                Err(e) => Err(e),
            },
        }
    }

    /// The file that a position names, in a project that Lean can work with.
    pub fn locate_position(&self, location: &str) -> (r: Result<LocationRequest, Failure>)
        ensures
            match location_request(self@.tree, self@.main, location@) {
                Err(message) => r is Err && r->Err_0@ == message,
                Ok(None) => r is Err && r->Err_0@ == "invalid probe location "@ + location@,
                Ok(Some(at)) => if lies_under(at.path, self@.tree.real_root) {
                    r is Ok && r->Ok_0@ == at
                } else {
                    r is Err && r->Err_0@ == needs_project() && r->Err_0.class == Some(
                        DiscoveryFailure::UnavailableContext,
                    )
                },
            },
    {
        match self.parse(location) {
            Err(e) => Err(e),
            Ok(None) => refuse(cat2("invalid probe location ", location).as_str()),
            Ok(Some(at)) => match ensure_lean_project_context(
                self.tree.real_root.as_str(),
                at.path.as_str(),
            ) {
                Ok(_) => Ok(at),
                Err(e) => Err(e),
            },
        }
    }

    /// Computes [`prepared`]. `source` is the text of the file.
    pub fn run_position_probe(&self, at: &LocationRequest, source: &str, subject: Option<&str>) -> (r:
        Result<PositionProbe, Failure>)
        ensures
            position_view(r) == prepared(self@.tree.root, at@, source@, opt_str(subject)),
    {
        let place = at.in_source(source, false);
        let stored_path = match &at.display_path {
            Some(shown) => own(shown.as_str()),
            None => storable_path(at.path.as_str(), self.tree.root.as_str()),
        };
        let term = match subject {
            None => None,
            Some(s) => if same(s, "goal") {
                None
            } else {
                Some(s)
            },
        };
        match term {
            None => {
                if !is_goal_line(source, place.line) {
                    let mut out = cat5(
                        "goal needs an exact proof line, not a declaration header or blank line; use search ",
                        stored_path.as_str(),
                        ":",
                        show(place.line).as_str(),
                        " to read source",
                    );
                    return refuse(out.as_str());
                }
                Ok(
                    PositionProbe {
                        path: own(at.path.as_str()),
                        stored_path,
                        line: place.line,
                        operation: own("goal"),
                        input: String::new(),
                    },
                )
            },
            Some(input) => Ok(
                PositionProbe {
                    path: own(at.path.as_str()),
                    stored_path,
                    line: place.line,
                    operation: own("term"),
                    input: own(input),
                },
            ),
        }
    }
}

/// What Lean is asked for a directive, or why it cannot be asked. Some directives need a
/// line to work at.
pub open spec fn lean_operation_of(directive: DirectiveView, line: u64) -> Result<
    (Seq<char>, Seq<char>),
    Seq<char>,
> {
    match directive {
        DirectiveView::Check(input) => Ok(("term"@, input)),
        DirectiveView::Synth(input) => Ok(("synth"@, input)),
        DirectiveView::Reduce(input) => Ok(("reduce"@, input)),
        DirectiveView::Inspect(input) => if line > 0 {
            Ok(("inspect"@, input))
        } else {
            Err("#inspect requires FILE:LINE, cREF, or positioned qREF context"@)
        },
        DirectiveView::Apply(input) => if line > 0 {
            Ok(("tactic"@, "apply ("@ + input + ")"@))
        } else {
            Err("#apply requires FILE:LINE, cREF, or positioned qREF context"@)
        },
        DirectiveView::Tactic(input) => if line > 0 {
            Ok(("tactic"@, input))
        } else {
            Err("by TACTIC requires FILE:LINE, cREF, or positioned qREF context"@)
        },
    }
}

/// The view of an operation.
pub open spec fn operation_view(r: Result<(String, String), Failure>) -> Result<
    (Seq<char>, Seq<char>),
    Seq<char>,
> {
    match r {
        Ok((operation, input)) => Ok((operation@, input@)),
        Err(e) => Err(e@),
    }
}

/// What Lean answered; where it could not be asked, the fault is not the request's.
pub fn lean_answer(answer: Result<(bool, String), String>) -> (r: Result<(bool, String), Failure>)
    ensures
        match answer {
            Ok(told) => r == Ok::<(bool, String), Failure>(told),
            Err(message) => r matches Err(e) && e@ == message@ && e.class == Some(
                DiscoveryFailure::Infrastructure,
            ),
        },
{
    match answer {
        Ok(told) => Ok(told),
        Err(message) => refuse_as(message.as_str(), DiscoveryFailure::Infrastructure),
    }
}

/// Computes [`lean_operation_of`].
pub fn lean_operation(directive: &LeanDirective, line: u64) -> (r: Result<
    (String, String),
    Failure,
>)
    ensures
        operation_view(r) == lean_operation_of(directive@, line),
{
    match directive {
        LeanDirective::Check(input) => Ok((own("term"), own(input.as_str()))),
        LeanDirective::Synth(input) => Ok((own("synth"), own(input.as_str()))),
        LeanDirective::Reduce(input) => Ok((own("reduce"), own(input.as_str()))),
        LeanDirective::Inspect(input) => if line > 0 {
            Ok((own("inspect"), own(input.as_str())))
        } else {
            refuse("#inspect requires FILE:LINE, cREF, or positioned qREF context")
        },
        LeanDirective::Apply(input) => if line > 0 {
            Ok((own("tactic"), cat3("apply (", input.as_str(), ")")))
        } else {
            refuse("#apply requires FILE:LINE, cREF, or positioned qREF context")
        },
        LeanDirective::Tactic(input) => if line > 0 {
            Ok((own("tactic"), own(input.as_str())))
        } else {
            refuse("by TACTIC requires FILE:LINE, cREF, or positioned qREF context")
        },
    }
}

/// Whether a directive succeeded, and what is told of it. An application is told as the
/// experiment it is.
pub open spec fn lean_outcome_of(
    operation: Seq<char>,
    input: Seq<char>,
    worker_ok: bool,
    output: Seq<char>,
) -> (bool, Seq<char>) {
    let (ok, detail) = decisive(operation, input, worker_ok, output);
    if operation == "tactic"@ && begins(input, "apply ("@) {
        (
            ok,
            if !ok && apply_detail(detail) is Some {
                "application experiment failed (not a check certificate)\n"@ + apply_detail(
                    detail,
                )->0 + "\nFull Lean diagnostic:\n"@ + detail
            } else {
                "application experiment (not a check certificate)\n"@ + detail
                    + "\nRemaining goals are obligations, not established facts."@
            },
        )
    } else {
        (ok, detail)
    }
}

/// Computes [`lean_outcome_of`] from what Lean answered.
pub fn run_lean_probe(operation: &str, input: &str, worker_ok: bool, output: String) -> (r: (
    bool,
    String,
))
    ensures
        (r.0, r.1@) == lean_outcome_of(operation@, input@, worker_ok, output@),
{
    let (ok, detail) = decisive_directive_result(operation, input, worker_ok, output);
    if same(operation, "tactic") && starts_with(input, "apply (") {
        if !ok {
            if let Some(focused) = diagnostic_apply_detail(detail.as_str()) {
                return (
                    ok,
                    cat4(
                        "application experiment failed (not a check certificate)\n",
                        focused.as_str(),
                        "\nFull Lean diagnostic:\n",
                        detail.as_str(),
                    ),
                );
            }
        }
        (
            ok,
            cat3(
                "application experiment (not a check certificate)\n",
                detail.as_str(),
                "\nRemaining goals are obligations, not established facts.",
            ),
        )
    } else {
        (ok, detail)
    }
}

/// The run under which the outcome of a probe is kept.
pub open spec fn kept_probe(
    reference: Seq<char>,
    workspace_ref: Seq<char>,
    query: Seq<char>,
    kind: Seq<char>,
    detail: Seq<char>,
    place: (Option<Seq<char>>, u64),
    now: i64,
) -> RunView {
    RunView {
        reference,
        workspace_ref,
        query,
        inference: "probe"@,
        hits: seq![
            bare_hit(
                kind,
                kind,
                match place.0 {
                    Some(path) => path,
                    None => Seq::empty(),
                },
                place.1,
                Some(detail),
            ),
        ],
        note: None,
        duration_ms: 0,
        created_at: now,
    }
}

/// Computes [`kept_probe`].
pub fn store_probe_result(
    reference: &str,
    workspace_ref: &str,
    query: &str,
    kind: &str,
    detail: String,
    place: (Option<&str>, u64),
    now: i64,
) -> (r: SearchRun)
    ensures
        r@ == kept_probe(
            reference@,
            workspace_ref@,
            query@,
            kind@,
            detail@,
            (opt_str(place.0), place.1),
            now,
        ),
{
    let path = match place.0 {
        Some(p) => own(p),
        None => String::new(),
    };
    let mut hits: Vec<SearchHit> = Vec::new();
    hits.push(make_bare_hit(own(kind), kind, path.as_str(), place.1, Some(detail)));
    assert(hit_views(hits@) =~= seq![bare_hit(kind@, kind@, path@, place.1, Some(detail@))]);
    SearchRun {
        reference: own(reference),
        workspace_ref: own(workspace_ref),
        query: own(query),
        inference: own("probe"),
        hits,
        note: None,
        duration_ms: 0,
        created_at: now,
    }
}

/// What a stored check tells under a focus, or why it tells nothing. `failure` is what
/// the index adds to the context of a failure, `profile` what is shown of the check in
/// full.
pub open spec fn check_answer(
    reference: Seq<char>,
    check: Option<CheckRunView>,
    focus: Option<Seq<char>>,
    failure: Seq<char>,
    profile: Seq<char>,
) -> Result<Seq<char>, Seq<char>> {
    match check {
        None => Err("unknown check reference "@ + reference),
        Some(run) => {
            let message = first_message(run);
            let text = message_text(message, "check has no diagnostic"@);
            let context = match message {
                Some(d) => d.context,
                None => None,
            };
            if run.status == "running"@ && message is None {
                Err(still_running(reference))
            } else {
                match focus {
                    None => if message is None {
                        Err(reference + " has no failure to probe"@)
                    } else {
                        Ok(message_context(text, context))
                    },
                    Some(f) => if f == "context"@ {
                        Ok(message_context(text, context) + failure)
                    } else if f == "types"@ {
                        or_refused(
                            type_detail(text),
                            reference + " has no type or instance failure"@,
                        )
                    } else if f == "defeq"@ {
                        or_refused(
                            defeq_detail(text),
                            reference + " has no definitional-equality failure"@,
                        )
                    } else if f == "rewrite"@ {
                        or_refused(
                            rewrite_detail(text, context),
                            reference + " has no rewrite failure"@,
                        )
                    } else if f == "profile"@ {
                        if run.profile is Some {
                            Ok(profile)
                        } else {
                            Err(reference + " has no stored profile"@)
                        }
                    } else if f == "goal"@ {
                        if message is None {
                            Err(reference + " has no stored failure goal"@)
                        } else {
                            Ok(stored_goal(text, context))
                        }
                    } else {
                        Err(
                            "focus `"@ + f
                                + "` is not valid for a stored check; valid analyses: goal, types, defeq, rewrite, profile"@,
                        )
                    },
                }
            }
        },
    }
}

/// A text, or a refusal where there is none.
pub open spec fn or_refused(text: Option<Seq<char>>, message: Seq<char>) -> Result<
    Seq<char>,
    Seq<char>,
> {
    match text {
        Some(t) => Ok(t),
        None => Err(message),
    }
}

fn require_text(text: Option<String>, reference: &str, message: &str) -> (r: Result<
    String,
    Failure,
>)
    ensures
        text_view(r) == or_refused(opt_string(text), reference@ + message@),
{
    match text {
        Some(t) => Ok(t),
        None => refuse(cat2(reference, message).as_str()),
    }
}

/// Computes [`check_answer`].
pub fn probe_check_reference(
    reference: &str,
    check: Option<&CheckRun>,
    focus: Option<&str>,
    failure: &str,
    profile: &str,
) -> (r: Result<String, Failure>)
    ensures
        text_view(r) == check_answer(
            reference@,
            opt_check(check),
            opt_str(focus),
            failure@,
            profile@,
        ),
{
    let Some(run) = check else {
        return refuse(cat2("unknown check reference ", reference).as_str());
    };
    let message = message_of(run);
    if same(run.status.as_str(), "running") && message.is_none() {
        return refuse(running_check_probe_hint(reference).as_str());
    }
    let (text, context) = match message {
        Some(d) => (d.text.as_str(), as_text(&d.context)),
        None => ("check has no diagnostic", None),
    };
    let Some(f) = focus else {
        return if message.is_none() {
            refuse(cat2(reference, " has no failure to probe").as_str())
        } else {
            Ok(diagnostic_context(text, context))
        };
    };
    if same(f, "context") {
        Ok(cat2(diagnostic_context(text, context).as_str(), failure))
    } else if same(f, "types") {
        require_text(diagnostic_type_detail(text), reference, " has no type or instance failure")
    } else if same(f, "defeq") {
        require_text(
            diagnostic_defeq_detail(text),
            reference,
            " has no definitional-equality failure",
        )
    } else if same(f, "rewrite") {
        require_text(
            diagnostic_rewrite_detail(text, context),
            reference,
            " has no rewrite failure",
        )
    } else if same(f, "profile") {
        if run.profile.is_some() {
            Ok(own(profile))
        } else {
            refuse(cat2(reference, " has no stored profile").as_str())
        }
    } else if same(f, "goal") {
        if message.is_none() {
            refuse(cat2(reference, " has no stored failure goal").as_str())
        } else {
            Ok(stored_goal_detail(text, context))
        }
    } else {
        refuse(
            cat3(
                "focus `",
                f,
                "` is not valid for a stored check; valid analyses: goal, types, defeq, rewrite, profile",
            ).as_str(),
        )
    }
}

/// The indexed type that answers a request for one in the context of an earlier search:
/// that of the selected hit, or of any hit that is meant.
pub open spec fn indexed_in_run(run: RunView, hit: usize, subject: Seq<char>) -> Option<HitView> {
    if hit < run.hits.len() && qualified_match(run.hits[hit as int].name, subject) {
        Some(run.hits[hit as int])
    } else {
        found_type(run, subject)
    }
}

/// Computes [`indexed_in_run`].
pub fn indexed_hit_of_run(run: &SearchRun, hit: usize, subject: &str) -> (r: Option<SearchHit>)
    ensures
        opt_hit(r) == indexed_in_run(run@, hit, subject@),
{
    assert(hit_views(run.hits@).len() == run.hits.len());
    if hit < run.hits.len() {
        assert(hit_views(run.hits@)[hit as int] == run.hits@[hit as int]@);
        if qualified_name_matches(run.hits[hit].name.as_str(), subject) {
            return Some(run.hits[hit].copy());
        }
    }
    indexed_check_hit(run, subject)
}

/// The query under which an indexed type is kept, in the contexts that have one.
pub open spec fn indexed_query(context: ContextView, subject: Seq<char>) -> Option<Seq<char>> {
    match context {
        ContextView::Query(reference, _) => Some(reference + " #check "@ + subject),
        ContextView::File(file) => Some(file + " #check "@ + subject),
        _ => None,
    }
}

/// The run that an indexed type is told with.
pub open spec fn indexed_answer(
    reference: Seq<char>,
    workspace_ref: Seq<char>,
    context: ContextView,
    subject: Seq<char>,
    hit: Option<HitView>,
    now: i64,
) -> Option<RunView> {
    match (indexed_query(context, subject), hit) {
        (Some(query), Some(h)) => Some(
            kept_probe(
                reference,
                workspace_ref,
                query,
                "check"@,
                h.name + " : "@ + h.signature->0,
                (
                    if h.path.len() == 0 {
                        None
                    } else {
                        Some(h.path)
                    },
                    h.line,
                ),
                now,
            ),
        ),
        _ => None,
    }
}

/// The view of an optional owned run.
pub open spec fn opt_owned_run(run: Option<SearchRun>) -> Option<RunView> {
    match run {
        Some(r) => Some(r@),
        None => None,
    }
}

/// Answers a request for a type from what is indexed, see [`indexed_answer`]. A hit that
/// answers has a signature.
pub fn probe_indexed_check(
    reference: &str,
    workspace_ref: &str,
    context: &ProbeContext,
    subject: &str,
    hit: Option<&SearchHit>,
    now: i64,
) -> (r: Option<SearchRun>)
    requires
        hit is Some ==> hit->0@.signature is Some,
    ensures
        opt_owned_run(r) == indexed_answer(
            reference@,
            workspace_ref@,
            context@,
            subject@,
            match hit {
                Some(h) => Some(h@),
                None => None,
            },
            now,
        ),
{
    let query = match context {
        ProbeContext::Query(stored, _) => cat3(stored.as_str(), " #check ", subject),
        ProbeContext::File(file) => cat3(file.as_str(), " #check ", subject),
        _ => {
            return None;
        },
    };
    let Some(h) = hit else {
        return None;
    };
    let Some(signature) = &h.signature else {
        return None;
    };
    let detail = cat3(h.name.as_str(), " : ", signature.as_str());
    let path = if h.path.as_str().is_empty() {
        None
    } else {
        Some(h.path.as_str())
    };
    Some(
        store_probe_result(
            reference,
            workspace_ref,
            query.as_str(),
            "check",
            detail,
            (path, h.line),
            now,
        ),
    )
}

} // verus!

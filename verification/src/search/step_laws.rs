//! What a probe leads to and what it is answered, on every input.
use crate::path::lies_under;
use crate::search::contract::rootless;
use crate::search::diagnostics::{apply_detail, defeq_detail, message_context, type_detail};
use crate::search::focus::{decisive, in_scope, notes_warming, stored_goal};
use crate::search::locations::{location_in_source, LocationRequestView};
use crate::search::names::{canonical, qualified_match};
use crate::search::probe::{
    check_answer, check_place, file_step, first_message, goal_line, hit_place, indexed_in_run,
    kept_probe, lean_operation_of, lean_outcome_of, lean_place, name_step, position_step, prepared,
    stored_place, subject_step, SearcherView, StepView,
};
use crate::search::records::{HitView, ResultView, RunView, UsageView};
use crate::search::refine::{
    constructor_step_of, consumers_of, declared_below, declared_kind, entry_of_hit, generating_from,
    generates, hit_step, law_from, lists_rootless, meant_hit, query_step_of, refreshed,
    same_declaration, scoped, static_step_of, usages_in, ConstructorStepView, QueryStepView,
    StaticStepView,
};
use crate::search::request::{ContextView, DirectiveView};
use crate::search::source::EntryView;
use crate::state::profile::CheckRunView;
use crate::text::chain::{part_ends, pushed_holds};
use crate::text::number::decimal;
use crate::text::scan::{begins, ends};
use vstd::prelude::*;

verus! {

proof fn focuses_differ()
    ensures
        "goal"@ != "types"@ && "goal"@ != "defeq"@ && "goal"@ != "rewrite"@ && "goal"@ != "profile"@
            && "goal"@ != "context"@,
        "types"@ != "defeq"@ && "types"@ != "rewrite"@ && "types"@ != "profile"@ && "types"@
            != "context"@,
        "defeq"@ != "rewrite"@ && "defeq"@ != "profile"@ && "defeq"@ != "context"@,
        "rewrite"@ != "profile"@ && "rewrite"@ != "context"@ && "profile"@ != "context"@,
        forall|t: Seq<char>|
            (t == "examples"@ || t == "evidence"@ || t == "assumptions"@ || t == "constructors"@)
                ==> t != "goal"@ && t != "types"@ && t != "defeq"@ && t != "rewrite"@ && t
                != "profile"@ && t != "signature"@ && t != "source"@ && t != "outline"@ && t
                != "usages"@ && !#[trigger] begins(t, "find:"@),
        forall|t: Seq<char>|
            (t == "signature"@ || t == "source"@ || t == "outline"@ || t == "usages"@ || t
                == "goal"@) ==> t != "types"@ && t != "defeq"@ && t != "rewrite"@ && t != "profile"@
                && !#[trigger] begins(t, "find:"@),
        "examples"@ != "evidence"@ && "examples"@ != "assumptions"@ && "examples"@
            != "constructors"@,
        "evidence"@ != "assumptions"@ && "evidence"@ != "constructors"@ && "assumptions"@
            != "constructors"@,
        "warnings"@ != "goal"@ && "usages"@ != "signature"@ && "signature"@ != "goal"@,
        "fields"@ != "usages"@,
{
    reveal_strlit("goal");
    reveal_strlit("types");
    reveal_strlit("defeq");
    reveal_strlit("rewrite");
    reveal_strlit("profile");
    reveal_strlit("context");
    reveal_strlit("examples");
    reveal_strlit("evidence");
    reveal_strlit("assumptions");
    reveal_strlit("constructors");
    reveal_strlit("signature");
    reveal_strlit("source");
    reveal_strlit("outline");
    reveal_strlit("usages");
    reveal_strlit("warnings");
    reveal_strlit("fields");
    reveal_strlit("find:");
    assert("types"@[0] != "defeq"@[0]);
    assert("rewrite"@[0] != "profile"@[0]);
    assert("rewrite"@[0] != "context"@[0]);
    assert("profile"@[0] != "context"@[0]);
    assert("outline"@[0] == 'o');
    assert("warnings"@.len() != "goal"@.len() && "usages"@.len() != "signature"@.len()
        && "signature"@.len() != "goal"@.len());
    assert("signature"@.len() == 9 && "source"@.len() == 6 && "usages"@.len() == 6 && "goal"@.len()
        == 4 && "types"@.len() == 5 && "defeq"@.len() == 5);
    assert("outline"@[0] != "rewrite"@[0] && "outline"@[0] != "profile"@[0]);
    assert("examples"@[1] != "evidence"@[1]);
    assert("source"@[0] != "usages"@[0]);
    assert("fields"@[0] != "usages"@[0]);
    assert forall|t: Seq<char>|
        t.len() >= 5 && t[0] != 'f' implies !#[trigger] begins(t, "find:"@) by {
        if begins(t, "find:"@) {
            assert(t.take(5)[0] == 'f');
        }
    }
    assert("examples"@[0] == 'e' && "evidence"@[0] == 'e' && "assumptions"@[0] == 'a'
        && "constructors"@[0] == 'c' && "signature"@[0] == 's' && "source"@[0] == 's'
        && "usages"@[0] == 'u');
}

/// A declaration that a search found is shown by its signature, or under the focus that is
/// asked for: its text and its usages are shown from the search, examples, a contract and
/// constructors are looked up, and what only a failed check has is refused.
pub proof fn found_declarations_are_shown(run: RunView, hit: HitView, focus: Seq<char>)
    requires
        run.inference != "probe"@,
        hit.kind != "location"@,
        hit.kind != "location-expanded"@,
    ensures
        hit_step(run, hit, None, None) == Ok::<QueryStepView, Seq<char>>(
            QueryStepView::Refine { focus: "signature"@ },
        ),
        focus == "signature"@ || focus == "source"@ || focus == "outline"@ || focus == "usages"@
            || begins(focus, "find:"@) && focus != "types"@ && focus != "defeq"@ && focus
            != "rewrite"@ && focus != "profile"@ ==> hit_step(run, hit, None, Some(focus)) == Ok::<
            QueryStepView,
            Seq<char>,
        >(QueryStepView::Refine { focus }),
        focus == "types"@ || focus == "defeq"@ || focus == "rewrite"@ || focus == "profile"@
            ==> hit_step(run, hit, None, Some(focus)) is Err,
        hit_step(run, hit, None, Some("examples"@)) == Ok::<QueryStepView, Seq<char>>(
            QueryStepView::Examples { subject: canonical(hit.name) },
        ),
        hit_step(run, hit, None, Some("assumptions"@)) == Ok::<QueryStepView, Seq<char>>(
            QueryStepView::Contract { subject: canonical(hit.name), focus: "assumptions"@ },
        ),
        hit_step(run, hit, None, Some("evidence"@)) == Ok::<QueryStepView, Seq<char>>(
            QueryStepView::Contract { subject: canonical(hit.name), focus: "evidence"@ },
        ),
        hit_step(run, hit, None, Some("constructors"@)) == Ok::<QueryStepView, Seq<char>>(
            QueryStepView::Constructors { subject: canonical(hit.name) },
        ),
{
    focuses_differ();
    assert(begins("examples"@, "find:"@) == false);
    assert(begins("assumptions"@, "find:"@) == false);
    assert(begins("evidence"@, "find:"@) == false);
    assert(begins("constructors"@, "find:"@) == false);
    if focus == "signature"@ || focus == "source"@ || focus == "outline"@ || focus == "usages"@ {
        assert(begins(focus, "find:"@) == false);
        assert(focus != "types"@ && focus != "defeq"@ && focus != "rewrite"@ && focus
            != "profile"@);
    }
}

/// What an earlier probe kept is shown again from its place; asked for its goal it leads
/// back to that line.
pub proof fn earlier_probes_lead_back(run: RunView, hit: HitView)
    requires
        run.inference == "probe"@,
    ensures
        hit.path.len() > 0 ==> hit_step(run, hit, None, None) == Ok::<QueryStepView, Seq<char>>(
            QueryStepView::Stored { path: Some(hit.path), line: hit.line },
        ),
        hit.path.len() == 0 ==> hit_step(run, hit, None, None) == Ok::<QueryStepView, Seq<char>>(
            QueryStepView::Stored { path: None, line: hit.line },
        ),
        hit.path.len() > 0 && hit.line > 0 ==> hit_step(run, hit, None, Some("goal"@)) == Ok::<
            QueryStepView,
            Seq<char>,
        >(QueryStepView::Position { location: hit.path + ":"@ + decimal(hit.line as nat) }),
{
}

/// A subject in the context of an earlier search is looked up by itself, not by the result
/// that the context names.
pub proof fn subjects_are_looked_up_by_themselves(run: RunView, hit: HitView, subject: Seq<char>)
    ensures
        hit_step(run, hit, Some(subject), Some("examples"@)) == Ok::<QueryStepView, Seq<char>>(
            QueryStepView::Examples { subject },
        ),
        hit_step(run, hit, Some(subject), Some("evidence"@)) == Ok::<QueryStepView, Seq<char>>(
            QueryStepView::Contract { subject, focus: "evidence"@ },
        ),
        hit_step(run, hit, Some(subject), Some("constructors"@)) == Ok::<QueryStepView, Seq<char>>(
            QueryStepView::Constructors { subject },
        ),
{
    focuses_differ();
    assert(begins("examples"@, "find:"@) == false);
    assert(begins("evidence"@, "find:"@) == false);
    assert(begins("constructors"@, "find:"@) == false);
}

/// A warning is a dossier without further focus; an unknown search, and a result that a
/// search does not have, are refused by name.
pub proof fn unknown_results_are_refused(
    reference: Seq<char>,
    warning: bool,
    run: Option<RunView>,
    hit: usize,
    subject: Option<Seq<char>>,
    focus: Option<Seq<char>>,
)
    ensures
        ({
            let step = query_step_of(reference, warning, run, hit, subject, focus);
            &&& warning && subject is None && focus is None ==> step == Ok::<
                QueryStepView,
                Seq<char>,
            >(QueryStepView::Warning)
            &&& warning && (subject is Some || focus is Some) ==> step is Err
            &&& !warning && run is None ==> step == Err::<QueryStepView, Seq<char>>(
                "unknown query reference "@ + reference,
            )
            &&& !warning && run is Some && hit >= run->0.hits.len() && hit < usize::MAX ==> step
                == Err::<QueryStepView, Seq<char>>(
                reference + " has "@ + decimal(run->0.hits.len()) + " result(s), not result #"@
                    + decimal((hit + 1) as nat),
            )
            &&& !warning && run is Some && hit < run->0.hits.len() ==> step == hit_step(
                run->0,
                run->0.hits[hit as int],
                subject,
                focus,
            )
        }),
{
}

/// A search under a focus is told as it was rendered where it was not kept; usages are
/// told with their dossier; the text of a result is refined; anything else is summarised.
pub proof fn searches_lead_on_by_focus(run: RunView, query: Seq<char>, focus: Seq<char>)
    ensures
        static_step_of(None, query, focus) == Ok::<StaticStepView, Seq<char>>(
            StaticStepView::Rendered,
        ),
        static_step_of(Some(run), query, "usages"@) == Ok::<StaticStepView, Seq<char>>(
            StaticStepView::Usages,
        ),
        focus != "usages"@ && focus != "fields"@ && run.hits.len() > 0 && (focus == "source"@
            || focus == "outline"@ || begins(focus, "find:"@)) ==> static_step_of(
            Some(run),
            query,
            focus,
        ) == Ok::<StaticStepView, Seq<char>>(StaticStepView::Refine),
        focus != "usages"@ && focus != "fields"@ && (run.hits.len() == 0 || !(focus == "source"@
            || focus == "outline"@ || begins(focus, "find:"@))) ==> static_step_of(
            Some(run),
            query,
            focus,
        ) == Ok::<StaticStepView, Seq<char>>(StaticStepView::Summary),
{
    focuses_differ();
}

/// The constructor of a structure or a class is looked up, those of an inductive type are
/// listed, and any other declaration has none.
pub proof fn constructors_follow_the_kind(run: RunView, subject: Seq<char>)
    ensures
        match meant_hit(run.hits, subject, 0) {
            None => constructor_step_of(Some(run), subject) == Ok::<
                ConstructorStepView,
                Seq<char>,
            >(ConstructorStepView::Rendered),
            Some(i) => {
                let hit = run.hits[i];
                let step = constructor_step_of(Some(run), subject);
                &&& hit.kind == "class"@ || hit.kind == "structure"@ ==> step == Ok::<
                    ConstructorStepView,
                    Seq<char>,
                >(ConstructorStepView::Search { query: canonical(hit.name) + ".mk"@ })
                &&& hit.kind != "class"@ && hit.kind != "structure"@ && hit.kind != "inductive"@
                    ==> step is Err
                &&& step matches Ok(ConstructorStepView::List { query, hits }) ==> hit.kind
                    == "inductive"@ && hits.len() > 0 && forall|k: int|
                    0 <= k < hits.len() ==> (#[trigger] hits[k]).kind == "constructor"@
                        && hits[k].path == hit.path
            },
        },
{
}

/// The result that a name means is the first that has it.
pub proof fn the_first_result_is_meant(hits: Seq<HitView>, subject: Seq<char>, i: int)
    requires
        0 <= i <= hits.len(),
    ensures
        match meant_hit(hits, subject, i) {
            Some(k) => i <= k < hits.len() && qualified_match(hits[k].name, subject) && forall|
                j: int,
            | i <= j < k ==> !qualified_match((#[trigger] hits[j]).name, subject),
            None => forall|j: int|
                i <= j < hits.len() ==> !qualified_match((#[trigger] hits[j]).name, subject),
        },
    decreases hits.len() - i,
{
    if i < hits.len() && !qualified_match(hits[i].name, subject) {
        the_first_result_is_meant(hits, subject, i + 1);
    }
}

/// The law that is told is the first theorem or lemma.
pub proof fn the_first_law_is_told(hits: Seq<HitView>, i: int)
    requires
        0 <= i <= hits.len(),
    ensures
        match law_from(hits, i) {
            Some(law) => exists|k: int|
                i <= k < hits.len() && #[trigger] hits[k] == law && (law.kind == "lemma"@
                    || law.kind == "theorem"@) && forall|j: int|
                    i <= j < k ==> (#[trigger] hits[j]).kind != "lemma"@ && hits[j].kind
                        != "theorem"@,
            None => forall|j: int|
                i <= j < hits.len() ==> (#[trigger] hits[j]).kind != "lemma"@ && hits[j].kind
                    != "theorem"@,
        },
    decreases hits.len() - i,
{
    if i < hits.len() {
        if hits[i].kind == "lemma"@ || hits[i].kind == "theorem"@ {
            assert(hits[i] == law_from(hits, i)->0);
        } else {
            the_first_law_is_told(hits, i + 1);
            if let Some(law) = law_from(hits, i) {
                let k = choose|k: int|
                    i + 1 <= k < hits.len() && #[trigger] hits[k] == law && (law.kind == "lemma"@
                        || law.kind == "theorem"@) && forall|j: int|
                        i + 1 <= j < k ==> (#[trigger] hits[j]).kind != "lemma"@ && hits[j].kind
                            != "theorem"@;
                assert(hits[k] == law);
            }
        }
    }
}

/// Just the usages in a scope are listed.
pub proof fn usages_in_scope_are_listed(list: Seq<UsageView>, scope: Seq<char>, u: UsageView)
    ensures
        usages_in(list, scope).contains(u) <==> list.contains(u) && in_scope(u.path, scope),
    decreases list.len(),
{
    if list.len() > 0 {
        let shorter = list.drop_last();
        usages_in_scope_are_listed(shorter, scope, u);
        assert(list =~= shorter.push(list.last()));
        pushed_holds(shorter, list.last(), u);
        pushed_holds(usages_in(shorter, scope), list.last(), u);
    }
}

/// A search that is narrowed to a scope keeps the result that is meant with its usages
/// there; one that found nothing of the name says so and is no success.
pub proof fn narrowed_searches_keep_one_result(
    result: ResultView,
    scope: Seq<char>,
    subject: Seq<char>,
)
    ensures
        match meant_hit(result.hits, subject, 0) {
            None => {
                let r = scoped(result, scope, subject);
                &&& r.hits.len() == 0 && !r.ok
                &&& r.note == Some("declaration not found: "@ + subject + "; try search "@ + subject)
            },
            Some(i) => {
                let r = scoped(result, scope, subject);
                let used = usages_in(result.hits[i].usages, scope);
                &&& r.hits.len() == 1 && r.ok == result.ok
                &&& r.hits[0].name == result.hits[i].name && r.hits[0].usages == used
                    && r.hits[0].source is None
                &&& used.len() > 0 ==> r.note == result.note
                &&& used.len() == 0 && !notes_warming(result.note) ==> r.note == Some(
                    "no indexed usages under "@ + scope,
                )
            },
        },
{
}

/// Each declaration that uses another is told once, and never the declaration itself.
pub proof fn consumers_are_told_once(usages: Seq<UsageView>, subject: Seq<char>)
    ensures
        forall|i: int, j: int|
            0 <= i < j < consumers_of(usages, subject).len() ==> rootless(
                #[trigger] consumers_of(usages, subject)[i],
            ) != rootless(#[trigger] consumers_of(usages, subject)[j]),
        forall|i: int|
            0 <= i < consumers_of(usages, subject).len() ==> rootless(
                #[trigger] consumers_of(usages, subject)[i],
            ) != subject,
        forall|k: int|
            0 <= k < usages.len() && (#[trigger] usages[k]).context is Some && rootless(
                usages[k].context->0,
            ) != subject ==> lists_rootless(consumers_of(usages, subject), usages[k].context->0),
    decreases usages.len(),
{
    if usages.len() > 0 {
        let shorter = usages.drop_last();
        consumers_are_told_once(shorter, subject);
        let before = consumers_of(shorter, subject);
        let after = consumers_of(usages, subject);
        assert forall|k: int|
            0 <= k < usages.len() && (#[trigger] usages[k]).context is Some && rootless(
                usages[k].context->0,
            ) != subject implies lists_rootless(after, usages[k].context->0) by {
            let name = usages[k].context->0;
            if k < shorter.len() {
                assert(shorter[k] == usages[k]);
                let i = choose|i: int|
                    0 <= i < before.len() && rootless(#[trigger] before[i]) == rootless(name);
                assert(after[i] == before[i]);
            } else if lists_rootless(before, name) {
                let i = choose|i: int|
                    0 <= i < before.len() && rootless(#[trigger] before[i]) == rootless(name);
                assert(after[i] == before[i]);
            } else {
                assert(after[before.len() as int] == name);
            }
        }
        assert forall|i: int, j: int| 0 <= i < j < after.len() implies rootless(
            #[trigger] after[i],
        ) != rootless(#[trigger] after[j]) by {
            assert(after[i] == before[i]);
            if j < before.len() {
                assert(after[j] == before[j]);
            }
        }
        assert forall|i: int| 0 <= i < after.len() implies rootless(#[trigger] after[i])
            != subject by {
            if i < before.len() {
                assert(after[i] == before[i]);
            }
        }
    }
}

/// A result is refreshed from the first entry of its file that declares it: the same name,
/// and the same kind unless the result leaves its kind open. Its line and its text are then
/// those of the file.
pub proof fn results_are_refreshed_from_their_file(
    hit: HitView,
    entries: Seq<EntryView>,
    k: int,
)
    requires
        0 <= k < entries.len(),
        rootless(entries[k].name) == rootless(hit.name),
        entries[k].kind == hit.kind,
        forall|j: int| 0 <= j < k ==> rootless((#[trigger] entries[j]).name) != rootless(hit.name),
    ensures
        ({
            let fresh = refreshed(hit, entries, None);
            &&& fresh matches Some(h) && h.line == entries[k].line && h.source == Some(
                entries[k].body,
            ) && h.kind == entries[k].kind && h.name == hit.name && h.path == hit.path
        }),
        (forall|j: int|
            0 <= j < entries.len() ==> rootless((#[trigger] entries[j]).name) != rootless(hit.name))
            ==> refreshed(hit, entries, None) is None,
{
    entry_is_first(hit, entries, 0, k);
}

proof fn entry_is_first(hit: HitView, entries: Seq<EntryView>, i: int, k: int)
    requires
        0 <= i <= k < entries.len(),
        same_declaration(entries[k], hit),
        forall|j: int| i <= j < k ==> !same_declaration(#[trigger] entries[j], hit),
    ensures
        entry_of_hit(entries, hit, i) == Some(entries[k]),
    decreases k - i,
{
    if i < k {
        entry_is_first(hit, entries, i + 1, k);
    }
}

/// The line that generates a declaration is the first that does, and what it generates from
/// is the first declaration below it.
pub proof fn generators_stand_above_their_source(
    list: Seq<Seq<char>>,
    spaces: Seq<Seq<Seq<char>>>,
    entries: Seq<EntryView>,
    name: Seq<char>,
    i: int,
    line: int,
    k: int,
)
    requires
        0 <= i <= list.len(),
        list.len() == spaces.len(),
        0 <= k <= entries.len(),
    ensures
        generating_from(list, spaces, name, i) matches Some(n) ==> i <= n < list.len() && generates(
            list[n],
            spaces[n],
            name,
        ) && forall|j: int| i <= j < n ==> !generates(#[trigger] list[j], spaces[j], name),
        declared_below(entries, line, k) matches Some(e) ==> e.line > line && declared_kind(e.kind)
            && entries.contains(e),
        declared_below(entries, line, k) is None ==> forall|j: int|
            k <= j < entries.len() ==> !(declared_kind((#[trigger] entries[j]).kind)
                && entries[j].line > line),
    decreases list.len() - i, entries.len() - k,
{
    if k < entries.len() && !(declared_kind(entries[k].kind) && entries[k].line > line) {
        generators_stand_above_their_source(list, spaces, entries, name, i, line, k + 1);
    }
    if i < list.len() && !generates(list[i], spaces[i], name) {
        generators_stand_above_their_source(
            list,
            spaces,
            entries,
            name,
            i + 1,
            line,
            entries.len() as int,
        );
    }
}

/// At a line of a file the goal is told, or the type of a term there; examples and evidence
/// are looked up from there, and no other focus is known.
pub proof fn lines_answer_goals_and_terms(location: Seq<char>, subject: Seq<char>, focus: Seq<char>)
    ensures
        position_step(location, None, None) == Ok::<StepView, Seq<char>>(
            StepView::Position { location, subject: None },
        ),
        position_step(location, None, Some("goal"@)) == Ok::<StepView, Seq<char>>(
            StepView::Position { location, subject: None },
        ),
        position_step(location, Some(subject), None) == Ok::<StepView, Seq<char>>(
            StepView::Position { location, subject: Some(subject) },
        ),
        position_step(location, Some(subject), Some("examples"@)) == Ok::<StepView, Seq<char>>(
            StepView::Examples { subject, location: Some(location) },
        ),
        position_step(location, Some(subject), Some("evidence"@)) == Ok::<StepView, Seq<char>>(
            StepView::Evidence { subject, location },
        ),
        focus != "goal"@ ==> position_step(location, None, Some(focus)) is Err,
        focus != "signature"@ && focus != "examples"@ && focus != "evidence"@ ==> position_step(
            location,
            Some(subject),
            Some(focus),
        ) is Err,
{
    focuses_differ();
    assert(begins("examples"@, "find:"@) == false);
    assert(begins("evidence"@, "find:"@) == false);
}

/// A file tells its warnings, the usages of a declaration in it and the type of a term; a
/// goal needs a line.
pub proof fn files_answer_warnings_usages_and_types(file: Seq<char>, subject: Seq<char>)
    ensures
        file_step(file, None, Some("warnings"@)) == Ok::<StepView, Seq<char>>(
            StepView::FileWarnings { file },
        ),
        file_step(file, None, Some("goal"@)) == Err::<StepView, Seq<char>>(
            "goal requires an exact FILE:LINE context, not "@ + file,
        ),
        file_step(file, None, None) is Err,
        file_step(file, Some(subject), Some("usages"@)) == Ok::<StepView, Seq<char>>(
            StepView::ScopedUsages { scope: file, subject },
        ),
        file_step(file, Some(subject), None) == Ok::<StepView, Seq<char>>(
            StepView::Lean {
                context: ContextView::File(file),
                directive: DirectiveView::Check(subject),
                indexed: false,
            },
        ),
        file_step(file, Some(subject), Some("source"@)) is Err,
{
    focuses_differ();
    assert(begins("signature"@, "find:"@) == false);
    assert(begins("source"@, "find:"@) == false);
    reveal_strlit("source");
    reveal_strlit("signature");
    reveal_strlit("usages");
    assert("source"@[0] != "usages"@[0]);
}

/// A name alone is looked up; a check takes no subject; and a directory answers only for
/// the usages in it.
pub proof fn contexts_decide_what_is_answered(
    subject: Seq<char>,
    reference: Seq<char>,
    scope: Seq<char>,
    focus: Option<Seq<char>>,
)
    ensures
        name_step(None, focus) is Err,
        name_step(Some(subject), Some("examples"@)) == Ok::<StepView, Seq<char>>(
            StepView::Examples { subject, location: None },
        ),
        name_step(Some(subject), Some("assumptions"@)) == Ok::<StepView, Seq<char>>(
            StepView::Contract { subject, focus: "assumptions"@ },
        ),
        name_step(Some(subject), Some("evidence"@)) == Ok::<StepView, Seq<char>>(
            StepView::Contract { subject, focus: "evidence"@ },
        ),
        name_step(Some(subject), Some("constructors"@)) == Ok::<StepView, Seq<char>>(
            StepView::Constructors { subject },
        ),
        subject_step(Some(ContextView::Check(reference)), None, focus) == Ok::<
            StepView,
            Seq<char>,
        >(StepView::Check { reference, focus }),
        subject_step(Some(ContextView::Check(reference)), Some(subject), focus) is Err,
        subject_step(Some(ContextView::Scope(scope)), Some(subject), Some("usages"@)) == Ok::<
            StepView,
            Seq<char>,
        >(StepView::ScopedUsages { scope, subject }),
        focus != Some("usages"@) ==> subject_step(
            Some(ContextView::Scope(scope)),
            Some(subject),
            focus,
        ) is Err,
        subject_step(Some(ContextView::Scope(scope)), None, focus) is Err,
{
    focuses_differ();
    assert(begins("examples"@, "find:"@) == false);
    assert(begins("assumptions"@, "find:"@) == false);
    assert(begins("evidence"@, "find:"@) == false);
    assert(begins("constructors"@, "find:"@) == false);
}

/// Lean works only in files of the project, and for what is stored only in the workspace
/// that stored it.
pub proof fn lean_works_in_the_project(
    s: SearcherView,
    context: ContextView,
    check: Option<CheckRunView>,
    run: Option<RunView>,
)
    ensures
        lean_place(s, context, check, run) matches Ok(place) ==> lies_under(
            place.0,
            s.tree.real_root,
        ),
        context is Scope ==> lean_place(s, context, check, run) is Err,
        context is Check ==> lean_place(s, context, check, run) is Ok ==> check is Some
            && check->0.workspace_ref == s.workspace_ref,
        context is Query ==> lean_place(s, context, check, run) is Ok ==> run is Some
            && run->0.workspace_ref == s.workspace_ref && context->Query_1 < run->0.hits.len(),
{
}

/// What is stored elsewhere is refused with the workspace that has it.
pub proof fn foreign_contexts_are_refused(
    s: SearcherView,
    reference: Seq<char>,
    hit: usize,
    check: Option<CheckRunView>,
    run: Option<RunView>,
)
    ensures
        check is None ==> check_place(s, reference, check) == Err::<(Seq<char>, u64), Seq<char>>(
            "unknown check reference "@ + reference,
        ),
        check matches Some(c) ==> c.workspace_ref != s.workspace_ref ==> check_place(
            s,
            reference,
            check,
        ) == Err::<(Seq<char>, u64), Seq<char>>(
            reference + " belongs to "@ + c.workspace_ref
                + "; run the Lean probe from that workspace"@,
        ),
        run is None ==> stored_place(s, reference, hit, run) == Err::<(Seq<char>, u64), Seq<char>>(
            "unknown query reference "@ + reference,
        ),
        run matches Some(r) ==> r.workspace_ref != s.workspace_ref ==> stored_place(
            s,
            reference,
            hit,
            run,
        ) == Err::<(Seq<char>, u64), Seq<char>>(
            reference + " belongs to "@ + r.workspace_ref
                + "; run the Lean probe from that workspace"@,
        ),
{
}

/// A result that was found at a line gives that line, and any other the end of its file.
pub proof fn results_give_their_place(run: RunView, hit: HitView)
    ensures
        ({
            let at_line = (run.inference == "probe"@ && hit.line > 0) || hit.kind == "location"@
                || hit.kind == "location-expanded"@;
            &&& at_line ==> hit_place(run, hit) == (
                hit.path + ":"@ + decimal(hit.line as nat),
                true,
            )
            &&& !at_line ==> hit_place(run, hit) == (hit.path + ":tail"@, false)
        }),
{
}

/// Every directive has its own operation; an application is a tactic; and what works at a
/// goal needs a line.
pub proof fn directives_are_carried_out(input: Seq<char>, line: u64)
    ensures
        lean_operation_of(DirectiveView::Check(input), line) == Ok::<
            (Seq<char>, Seq<char>),
            Seq<char>,
        >(("term"@, input)),
        lean_operation_of(DirectiveView::Synth(input), line) == Ok::<
            (Seq<char>, Seq<char>),
            Seq<char>,
        >(("synth"@, input)),
        lean_operation_of(DirectiveView::Reduce(input), line) == Ok::<
            (Seq<char>, Seq<char>),
            Seq<char>,
        >(("reduce"@, input)),
        line > 0 ==> lean_operation_of(DirectiveView::Inspect(input), line) == Ok::<
            (Seq<char>, Seq<char>),
            Seq<char>,
        >(("inspect"@, input)),
        line > 0 ==> lean_operation_of(DirectiveView::Apply(input), line) == Ok::<
            (Seq<char>, Seq<char>),
            Seq<char>,
        >(("tactic"@, "apply ("@ + input + ")"@)),
        line > 0 ==> lean_operation_of(DirectiveView::Tactic(input), line) == Ok::<
            (Seq<char>, Seq<char>),
            Seq<char>,
        >(("tactic"@, input)),
        line == 0 ==> lean_operation_of(DirectiveView::Inspect(input), line) is Err,
        line == 0 ==> lean_operation_of(DirectiveView::Apply(input), line) is Err,
        line == 0 ==> lean_operation_of(DirectiveView::Tactic(input), line) is Err,
{
}

/// An application is always told as an experiment and never as a certificate; any other
/// directive is told as it came out.
pub proof fn applications_are_experiments(
    operation: Seq<char>,
    input: Seq<char>,
    worker_ok: bool,
    output: Seq<char>,
)
    ensures
        ({
            let r = lean_outcome_of(operation, input, worker_ok, output);
            let plain = decisive(operation, input, worker_ok, output);
            let applied = operation == "tactic"@ && begins(input, "apply ("@);
            &&& r.0 == plain.0
            &&& !applied ==> r.1 == plain.1
            &&& applied && plain.0 ==> begins(
                r.1,
                "application experiment (not a check certificate)\n"@,
            ) && ends(r.1, "\nRemaining goals are obligations, not established facts."@)
            &&& applied && !plain.0 ==> (begins(
                r.1,
                "application experiment (not a check certificate)\n"@,
            ) || begins(r.1, "application experiment failed (not a check certificate)\n"@))
        }),
{
    let r = lean_outcome_of(operation, input, worker_ok, output);
    let plain = decisive(operation, input, worker_ok, output);
    let good = "application experiment (not a check certificate)\n"@;
    let bad = "application experiment failed (not a check certificate)\n"@;
    let tail = "\nRemaining goals are obligations, not established facts."@;
    if operation == "tactic"@ && begins(input, "apply ("@) {
        if !plain.0 && apply_detail(plain.1) is Some {
            assert(r.1.take(bad.len() as int) =~= bad);
        } else {
            assert(r.1.take(good.len() as int) =~= good);
            part_ends(good + plain.1, tail);
        }
    }
}

/// A stored check answers each focus from its first message, and refuses a focus for which
/// it has nothing; one that still runs without a message is refused.
pub proof fn checks_answer_by_focus(
    reference: Seq<char>,
    run: CheckRunView,
    failure: Seq<char>,
    profile: Seq<char>,
)
    ensures
        ({
            let message = first_message(run);
            let stopped = !(run.status == "running"@ && message is None);
            let ask = |focus: Option<Seq<char>>|
                check_answer(reference, Some(run), focus, failure, profile);
            &&& !stopped ==> ask(None) is Err && ask(Some("goal"@)) is Err && ask(
                Some("profile"@),
            ) is Err
            &&& stopped && message is None ==> ask(None) is Err && ask(Some("goal"@)) is Err
            &&& message matches Some(d) ==> {
                &&& ask(None) == Ok::<Seq<char>, Seq<char>>(message_context(d.text, d.context))
                &&& ask(Some("context"@)) == Ok::<Seq<char>, Seq<char>>(
                    message_context(d.text, d.context) + failure,
                )
                &&& ask(Some("goal"@)) == Ok::<Seq<char>, Seq<char>>(stored_goal(d.text, d.context))
                &&& ask(Some("types"@)) is Ok <==> type_detail(d.text) is Some
                &&& ask(Some("defeq"@)) is Ok <==> defeq_detail(d.text) is Some
                &&& ask(Some("defeq"@)) is Ok ==> ask(Some("defeq"@))->Ok_0 == defeq_detail(
                    d.text,
                )->0
            }
            &&& stopped && run.profile is Some ==> ask(Some("profile"@)) == Ok::<
                Seq<char>,
                Seq<char>,
            >(profile)
            &&& run.profile is None ==> ask(Some("profile"@)) is Err
            &&& check_answer(reference, None, None, failure, profile) == Err::<
                Seq<char>,
                Seq<char>,
            >("unknown check reference "@ + reference)
        }),
{
    focuses_differ();
}

/// The message that a check is probed by is its first error, and its first warning only
/// where it has no error.
pub proof fn errors_are_probed_before_warnings(run: CheckRunView)
    ensures
        run.diagnostics.len() > 0 ==> first_message(run) == Some(run.diagnostics[0]),
        run.diagnostics.len() == 0 && run.warnings.len() > 0 ==> first_message(run) == Some(
            run.warnings[0],
        ),
        run.diagnostics.len() == 0 && run.warnings.len() == 0 ==> first_message(run) is None,
{
}

/// A goal is only asked for at a line of a proof; a term is asked for at any line, as it
/// was given.
pub proof fn goals_need_a_proof_line(
    root: Seq<char>,
    at: LocationRequestView,
    source: Seq<char>,
    subject: Seq<char>,
)
    requires
        subject != "goal"@,
    ensures
        ({
            let line = location_in_source(at, source, false).line;
            let goal = prepared(root, at, source, None);
            let term = prepared(root, at, source, Some(subject));
            &&& goal is Ok <==> goal_line(source, line)
            &&& goal matches Ok(p) ==> p.operation == "goal"@ && p.input.len() == 0 && p.line
                == line && p.path == at.path
            &&& term matches Ok(p) && p.operation == "term"@ && p.input == subject && p.line == line
                && p.path == at.path
            &&& prepared(root, at, source, Some("goal"@)) == goal
        }),
{
}

/// What a probe found is kept under its reference, at its place, with what it told.
pub proof fn probes_are_kept(
    reference: Seq<char>,
    workspace_ref: Seq<char>,
    query: Seq<char>,
    kind: Seq<char>,
    detail: Seq<char>,
    path: Seq<char>,
    line: u64,
    now: i64,
)
    ensures
        ({
            let run = kept_probe(
                reference,
                workspace_ref,
                query,
                kind,
                detail,
                (Some(path), line),
                now,
            );
            &&& run.reference == reference && run.workspace_ref == workspace_ref && run.query
                == query && run.inference == "probe"@ && run.created_at == now
            &&& run.hits.len() == 1 && run.hits[0].kind == kind && run.hits[0].path == path
                && run.hits[0].line == line && run.hits[0].source == Some(detail)
        }),
{
}

/// The type that is asked for in the context of a search is that of the selected result
/// where that is meant.
pub proof fn the_selected_result_answers(run: RunView, hit: usize, subject: Seq<char>)
    ensures
        hit < run.hits.len() && qualified_match(run.hits[hit as int].name, subject)
            ==> indexed_in_run(run, hit, subject) == Some(run.hits[hit as int]),
{
}

} // verus!

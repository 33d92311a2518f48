//! What is told of checks, builds, submissions and kept searches, on every input.
use crate::order::{lex_less_at, ranking, ranking_is_permutation, ranking_is_sorted};
use crate::search::records::{DiagnosticView, HitView, RunView};
use crate::search::tokens::{distinct, distinct_keeps_each_once, wants_body};
use crate::state::display::{
    audit_part, bounded, build_part, condensed, diagnostic_section, diagnostics_within,
    duration_text, expired_part, files_part, fresh_source, kept_count, kept_heading,
    kept_line_limit, output_section, relevant_lines, relevant_output, search_display, status_part,
    submission_display, telling_build_line, telling_build_lines, warning_count,
};
use crate::state::profile::{
    check_display, component_spots, file_line, file_lines, hotspot_part, named_spots, profile_text,
    sorted_spots, source_spots, spot_keys, same_line_in, CheckProfileView, CheckRunView,
    FileProfileView, Hotspot,
};
use crate::state::records::SubmissionView;
use crate::text::chain::{
    chain, chain_holds, chain_one, chain_push, label_begins, listed_holds, part_ends, pushed_holds,
};
use crate::text::layout::{brief_hash, front, listed};
use crate::text::make::joined;
use crate::text::number::decimal;
use crate::text::pieces::line_list;
use crate::text::scan::{
    bare, bare_start, begins, blank, cut, ends, found_between, found_in_part, has_text,
};
use vstd::prelude::*;

verus! {

/// Durations are told in milliseconds within a second, in seconds and tenths within a
/// minute, and in minutes and seconds, rounded down.
pub proof fn durations_are_told_in_their_unit(n: u64, part: u64, rest: u64)
    ensures
        n < 1000 ==> duration_text(n) == decimal(n as nat) + "ms"@,
        1 <= n < 60 && part < 10 && rest < 100 ==> duration_text(
            (1000 * n + 100 * part + rest) as u64,
        ) == decimal(n as nat) + "."@ + decimal(part as nat) + "s"@,
        1 <= n < 1_000_000 && part < 60 && rest < 1000 ==> duration_text(
            (60_000 * n + 1000 * part + rest) as u64,
        ) == decimal(n as nat) + "m"@ + decimal(part as nat) + "s"@,
{
    if 1 <= n < 60 && part < 10 && rest < 100 {
        let ms = 1000 * n + 100 * part + rest;
        assert(ms / 1000 == n);
        assert(ms % 1000 / 100 == part);
    }
    if 1 <= n < 1_000_000 && part < 60 && rest < 1000 {
        let ms = 60_000 * n + 1000 * part + rest;
        assert(ms / 60_000 == n);
        assert(ms % 60_000 / 1000 == part);
    }
}

/// Of a build output just the lines are kept, without white space around them, that neither
/// trace nor tell what was built.
pub proof fn telling_lines_are_kept(list: Seq<Seq<char>>, line: Seq<char>)
    ensures
        telling_build_lines(list).contains(line) <==> exists|i: int|
            0 <= i < list.len() && line == bare(#[trigger] list[i]) && line.len() > 0 && !begins(
                line,
                "trace:"@,
            ) && !begins(line, "info:"@) && !has_text(line, "Building "@) && !has_text(
                line,
                "Built "@,
            ) && !has_text(line, "Replayed "@) && !has_text(line, "Build completed successfully"@)
                && !has_text(line, "declaration uses `sorry`"@),
    decreases list.len(),
{
    if list.len() > 0 {
        let shorter = list.drop_last();
        telling_lines_are_kept(shorter, line);
        pushed_holds(telling_build_lines(shorter), bare(list.last()), line);
        if telling_build_lines(list).contains(line) {
            if telling_build_lines(shorter).contains(line) {
                let i = choose|i: int|
                    0 <= i < shorter.len() && line == bare(#[trigger] shorter[i]);
                assert(list[i] == shorter[i]);
            } else {
                assert(list[list.len() - 1] == list.last());
            }
        }
        if telling_build_line(line) && exists|i: int|
            0 <= i < list.len() && line == bare(#[trigger] list[i]) {
            let i = choose|i: int| 0 <= i < list.len() && line == bare(#[trigger] list[i]);
            if i < shorter.len() {
                assert(shorter[i] == list[i]);
            }
        }
    }
}

/// A condensed build output has at most twenty lines, no two of them the same, and each of
/// them tells something; where there are fewer than twenty, none that tells is left out.
pub proof fn condensed_output_is_short(output: Seq<char>)
    ensures
        ({
            let shown = front(distinct(telling_build_lines(line_list(output))), 20);
            &&& condensed(output) == joined(shown, "\n"@)
            &&& shown.len() <= 20
            &&& shown.no_duplicates()
            &&& forall|i: int|
                0 <= i < shown.len() ==> telling_build_lines(line_list(output)).contains(
                    #[trigger] shown[i],
                )
            &&& shown.len() < 20 ==> forall|t: Seq<char>| #[trigger]
                telling_build_lines(line_list(output)).contains(t) ==> shown.contains(t)
        }),
{
    let telling = telling_build_lines(line_list(output));
    let all = distinct(telling);
    let shown = front(all, 20);
    distinct_keeps_each_once(telling);
    assert forall|i: int| 0 <= i < shown.len() implies telling.contains(#[trigger] shown[i]) by {
        assert(all[i] == shown[i]);
        assert(all.contains(shown[i]));
    }
    assert forall|i: int, j: int| 0 <= i < j < shown.len() implies shown[i] != shown[j] by {
        assert(all[i] == shown[i] && all[j] == shown[j]);
    }
    if shown.len() < 20 {
        assert(shown == all);
        assert forall|t: Seq<char>| #[trigger] telling.contains(t) implies shown.contains(t) by {
            assert(all.contains(t));
        }
    }
}

/// A message on one of the files is kept and one on no other; lines behind a message belong
/// to it, until the build tells of its progress.
pub proof fn messages_are_kept_with_their_file(
    list: Seq<Seq<char>>,
    files: Seq<Seq<char>>,
    line: Seq<char>,
)
    ensures
        ({
            let before = relevant_lines(list, files);
            let after = relevant_lines(list.push(line), files);
            let start = bare_start(line);
            let message = begins(start, "warning:"@) || begins(start, "info:"@) || begins(
                start,
                "error:"@,
            );
            let named = exists|i: int|
                0 <= i < files.len() && has_text(start, #[trigger] files[i]);
            let progress = begins(start, "Build completed"@) || begins(start, "⚠"@) || begins(
                start,
                "Building "@,
            ) || begins(start, "Built "@) || begins(start, "Replayed "@);
            &&& message && named ==> after == (before.0.push(line), true)
            &&& message && !named ==> after == (before.0, false)
            &&& !message && progress ==> after == (before.0, false)
            &&& !message && !progress && before.1 ==> after == (before.0.push(line), true)
            &&& !message && !before.1 ==> after == (before.0, false)
            &&& relevant_lines(Seq::empty(), files) == (Seq::<Seq<char>>::empty(), false)
        }),
{
    assert(list.push(line).drop_last() =~= list);
}

/// Just the lines that begin with a warning count as one.
pub proof fn warnings_are_counted_by_line(list: Seq<Seq<char>>, line: Seq<char>)
    ensures
        warning_count(list.push(line)) == warning_count(list) + (if begins(
            bare_start(line),
            "warning:"@,
        ) {
            1nat
        } else {
            0nat
        }),
        warning_count(Seq::empty()) == 0,
{
    assert(list.push(line).drop_last() =~= list);
}

/// A section of diagnostics stands under its label, and says where it leaves out some; no
/// diagnostics have no section.
pub proof fn omitted_diagnostics_are_told(
    label: Seq<char>,
    list: Seq<DiagnosticView>,
    limit: usize,
    budget: int,
)
    requires
        budget >= 0,
    ensures
        list.len() == 0 ==> diagnostic_section(label, list, Some(limit), budget).len() == 0,
        list.len() > 0 ==> begins(
            diagnostic_section(label, list, Some(limit), budget),
            "\n"@ + label + ":"@,
        ),
        list.len() > limit ==> ends(
            diagnostic_section(label, list, Some(limit), budget),
            " "@ + label + " omitted"@,
        ),
{
    reveal_strlit("");
    if list.len() > 0 {
        let shown = list.take(
            crate::state::display::diagnostic_limit(list.len(), Some(limit)) as int,
        );
        let within = diagnostics_within(shown, budget);
        let text = diagnostic_section(label, list, Some(limit), budget);
        let head = "\n"@ + label + ":"@;
        assert(text.take(head.len() as int) =~= head);
        crate::state::display::diagnostics_stay_within_budget(shown, budget);
        if list.len() > limit {
            let tail = " "@ + label + " omitted"@;
            let before = "\n"@ + label + ":"@ + listed(within.0, "\n  "@) + ("\n  +"@ + decimal(
                (list.len() - within.2) as nat,
            ));
            assert(text =~= before + tail);
            part_ends(before, tail);
        }
    }
}

/// A passed build shows only its warnings, by number, unless everything is asked for; a
/// failed one shows its condensed output, or all of it within bounds; and output that is no
/// longer kept is told by its size.
pub proof fn builds_show_what_matters(s: SubmissionView, files: Seq<Seq<char>>, all: bool)
    ensures
        s.build_output matches Some(output) ==> !blank(output) ==> {
            let warnings = warning_count(line_list(output));
            let shown = build_part(s, files, all);
            &&& s.validation_status == "passed"@ && !all && warnings == 0 ==> shown.len() == 0
            &&& s.validation_status == "passed"@ && !all && warnings > 0 ==> shown
                == "\nbuild warnings: "@ + decimal(warnings) + "; show "@ + s.reference + " --all"@
            &&& s.validation_status == "passed"@ && all ==> ends(
                shown,
                output_section(relevant_output(output, files)),
            )
            &&& s.validation_status != "passed"@ && !all ==> shown == output_section(
                condensed(output),
            )
            &&& s.validation_status != "passed"@ && all ==> shown == output_section(bounded(output))
        },
        s.build_output is None && s.build_summary is None ==> build_part(s, files, all).len() == 0,
        s.build_output is None && s.build_summary is Some ==> begins(
            build_part(s, files, all),
            "\nraw build output expired ("@ + decimal(s.build_summary->0.original_bytes as nat)
                + " bytes)"@,
        ),
{
    reveal_strlit("");
    if let Some(output) = s.build_output {
        let warnings = warning_count(line_list(output));
        let section = output_section(relevant_output(output, files));
        let head = if warnings == 0 {
            ""@
        } else {
            "\nbuild warnings: "@ + decimal(warnings) + " total; unrelated output omitted"@
        };
        part_ends(head, section);
        if s.validation_status == "passed"@ && !all && warnings > 0 && !blank(output) {
            assert(build_part(s, files, all) =~= "\nbuild warnings: "@ + decimal(warnings)
                + "; show "@ + s.reference + " --all"@);
        }
    } else if let Some(summary) = s.build_summary {
        let head = "\nraw build output expired ("@ + decimal(summary.original_bytes as nat)
            + " bytes)"@;
        assert(expired_part(summary).take(head.len() as int) =~= head);
    }
}

/// Axioms are told where there are any, whatever came of the validation; a clean result
/// only where it passed without one; and nothing is told before a validation has finished.
pub proof fn axioms_are_told(s: SubmissionView, all: bool)
    ensures
        ({
            let told = audit_part(s, all);
            let finished = s.validation_status == "passed"@ || s.validation_status == "failed"@;
            &&& !finished ==> told.len() == 0
            &&& finished && s.axioms.len() > 0 ==> begins(told, "\naxioms: failed"@)
            &&& s.validation_status == "passed"@ && s.axioms.len() == 0 ==> begins(
                told,
                "\naxioms: clean"@ + "\nsorries: "@,
            )
            &&& s.validation_status == "failed"@ && s.axioms.len() == 0 && s.validation_detail
                is Some && begins(s.validation_detail->0, "build failed"@) ==> begins(
                told,
                "\naxioms: not run"@ + "\nsorries: "@,
            )
            &&& s.validation_status == "failed"@ && s.axioms.len() == 0 && !(s.validation_detail
                is Some && begins(s.validation_detail->0, "build failed"@)) ==> begins(
                told,
                "\naxioms: error"@ + "\nsorries: "@,
            )
            &&& finished ==> has_text(told, "\nsorries: "@ + decimal(s.sorries.len()))
            &&& finished && !all ==> ends(told, "\nsorries: "@ + decimal(s.sorries.len()))
        }),
{
    reveal_strlit("");
    reveal_strlit("passed");
    reveal_strlit("failed");
    assert("passed"@[0] != "failed"@[0]);
    let head = if s.axioms.len() > 0 {
        "\naxioms: failed"@ + listed(s.axioms, "\n  "@)
    } else if s.validation_status == "passed"@ {
        "\naxioms: clean"@
    } else if s.validation_detail is Some && begins(s.validation_detail->0, "build failed"@) {
        "\naxioms: not run"@
    } else {
        "\naxioms: error"@
    };
    let count = "\nsorries: "@ + decimal(s.sorries.len());
    let tail = if all {
        listed(s.sorries, "\n  "@)
    } else {
        ""@
    };
    let told = audit_part(s, all);
    if s.validation_status == "passed"@ || s.validation_status == "failed"@ {
        assert(told =~= head + count + tail);
        found_between(head, count, tail);
        if !all {
            assert(told =~= head + count);
            part_ends(head, count);
        }
        if s.axioms.len() > 0 {
            let first = "\naxioms: failed"@;
            assert(told.take(first.len() as int) =~= first);
        } else {
            let first = head + "\nsorries: "@;
            assert(told.take(first.len() as int) =~= first);
        }
    }
}

/// Twelve files are named, or all where all are asked for, and the others are counted.
pub proof fn files_are_named(s: SubmissionView, files: Seq<Seq<char>>, all: bool, i: int)
    requires
        0 <= i < files.len(),
        all || i < 12,
    ensures
        has_text(files_part(s, files, all), "\n  "@ + files[i]),
        !all && files.len() > 12 ==> ends(
            files_part(s, files, all),
            "\n  +"@ + decimal((files.len() - 12) as nat) + " files; show "@ + s.reference
                + " --all"@,
        ),
{
    let shown = if all || files.len() <= 12 {
        files
    } else {
        files.take(12)
    };
    listed_holds(shown, "\n  "@, i);
    let body = listed(shown, "\n  "@);
    let told = files_part(s, files, all);
    let front_part = "\nfiles:"@;
    let tail = told.skip((front_part + body).len() as int);
    assert(told =~= front_part + body + tail);
    found_in_part(front_part, body, tail, "\n  "@ + files[i]);
    if !all && files.len() > 12 {
        let last = "\n  +"@ + decimal((files.len() - 12) as nat) + " files; show "@ + s.reference
            + " --all"@;
        assert(told =~= front_part + body + last);
        part_ends(front_part + body, last);
    }
}

/// A submission begins with its reference and its state; a failure that a later validation
/// made good says so, and no other does.
pub proof fn mended_failures_are_historical(s: SubmissionView, later: Option<Seq<char>>)
    ensures
        begins(status_part(s, later), s.reference + " "@ + s.validation_status),
        s.validation_status == "failed"@ && later is Some ==> begins(
            status_part(s, later),
            s.reference + " "@ + s.validation_status + ("\nhistorical: later validation "@
                + later->0 + " passed"@),
        ),
        s.validation_status != "failed"@ && s.checks.len() == 0 ==> status_part(s, later)
            == s.reference + " "@ + s.validation_status,
{
    reveal_strlit("");
    let head = s.reference + " "@ + s.validation_status;
    let told = status_part(s, later);
    assert(told.take(head.len() as int) =~= head);
    if s.validation_status == "failed"@ && later is Some {
        let more = head + ("\nhistorical: later validation "@ + later->0 + " passed"@);
        assert(told.take(more.len() as int) =~= more);
    }
    if s.validation_status != "failed"@ && s.checks.len() == 0 {
        assert(told =~= head);
    }
}

/// A submission that another covers names it; any other begins with its state; and its
/// workspace and its commit end it where everything is asked for.
pub proof fn covered_submissions_name_their_cover(
    s: SubmissionView,
    files: Seq<Seq<char>>,
    later: Option<Seq<char>>,
    all: bool,
)
    ensures
        ({
            let told = submission_display(s, files, later, all);
            let skipped = s.validation_status == "skipped"@;
            &&& skipped && s.validated_by is Some ==> told == s.reference + " covered-by:"@
                + s.validated_by->0
            &&& skipped && s.validated_by is None ==> told == s.reference + " covered-by:"@
                + "pending"@
            &&& !skipped ==> begins(told, status_part(s, later))
            &&& !skipped && all ==> ends(
                told,
                "\nworkspace: "@ + s.workspace_ref + "\nmain: "@ + brief_hash(s.main_commit),
            )
        }),
{
    let told = submission_display(s, files, later, all);
    if s.validation_status != "skipped"@ {
        let head = status_part(s, later);
        assert(told.take(head.len() as int) =~= head);
        if all {
            let tail = "\nworkspace: "@ + s.workspace_ref + "\nmain: "@ + brief_hash(s.main_commit);
            assert(told.skip(told.len() - tail.len()) =~= tail);
        }
    }
}

/// A context is shown once: with the first declaration that stands in it, and without it
/// from then on.
pub proof fn contexts_are_shown_once(
    first: Seq<char>,
    second: Seq<char>,
    ambient: Seq<char>,
    a: Seq<char>,
    b: Seq<char>,
    seen: Seq<Seq<char>>,
)
    requires
        cut(first, "\n\n"@) == Some((ambient, a)),
        cut(second, "\n\n"@) == Some((ambient, b)),
    ensures
        ({
            let shown = fresh_source(first, seen);
            let again = fresh_source(second, shown.1);
            let marked = begins(ambient, "-- ambient context"@);
            &&& marked && !seen.contains(ambient) ==> shown.0 == first && again.0 == b
            &&& marked && seen.contains(ambient) ==> shown.0 == a && again.0 == b
            &&& !marked ==> shown.0 == first && again.0 == second && shown.1 == seen
            &&& again.1 == shown.1
        }),
{
    let shown = fresh_source(first, seen);
    pushed_holds(seen, ambient, ambient);
}

/// Inventories are shown whole, declarations of types and a body that was asked for by
/// forty-eight lines, and any other source by sixteen.
pub proof fn sources_are_shown_by_kind(hit: HitView, index: int, query: Seq<char>)
    ensures
        ({
            let whole = hit.kind == "fields"@ || hit.kind == "outline"@ || hit.kind
                == "source-range"@ || hit.kind == "source-occurrences"@;
            let long = hit.kind == "class"@ || hit.kind == "inductive"@ || hit.kind
                == "structure"@ || (index == 0 && wants_body(query));
            let limit = kept_line_limit(hit, index, query);
            &&& whole ==> limit == usize::MAX
            &&& !whole && long ==> limit == 48
            &&& !whole && !long ==> limit == 16
        }),
{
}

/// A kept result is told with its number, counted from one, its name, its place and how
/// often it is used; as many uses as are kept at most may be more.
pub proof fn kept_results_are_numbered(run: RunView, hit: HitView, index: nat, all: bool)
    ensures
        begins(
            kept_heading(run, hit, index as int, all),
            "\n"@ + decimal(index + 1) + ". "@ + hit.name,
        ),
        hit.path.len() > 0 && hit.line > 0 ==> has_text(
            kept_heading(run, hit, index as int, all),
            "\n   "@ + hit.path + (":"@ + decimal(hit.line as nat)),
        ),
        hit.usages.len() > 0 && hit.usages.len() != 20 ==> has_text(
            kept_heading(run, hit, index as int, all),
            "  refs:"@ + decimal(hit.usages.len()) + ""@,
        ),
        hit.usages.len() == 20 ==> has_text(
            kept_heading(run, hit, index as int, all),
            "  refs:"@ + decimal(20) + "+"@,
        ),
        hit.required_import matches Some(module) ==> ends(
            kept_heading(run, hit, index as int, all),
            "\n   import "@ + module,
        ),
{
    let told = kept_heading(run, hit, index as int, all);
    let head = "\n"@ + decimal(index + 1) + ". "@ + hit.name;
    let signature = match hit.signature {
        Some(signature) => " : "@ + if all || crate::search::display::exact_inference(
            run.inference,
        ) {
            crate::text::layout::one_line(signature)
        } else {
            crate::text::layout::shortened(crate::text::layout::one_line(signature), 300)
        },
        None => ""@,
    };
    let place = if hit.path.len() > 0 {
        "\n   "@ + hit.path + if hit.line > 0 {
            ":"@ + decimal(hit.line as nat)
        } else {
            ""@
        }
    } else {
        ""@
    };
    let applies = if hit.applicable {
        "  applicable"@
    } else {
        ""@
    };
    let refs = if hit.usages.len() > 0 {
        "  refs:"@ + decimal(hit.usages.len()) + if hit.usages.len()
            == crate::search::limits::SEARCH_USAGE_LIMIT {
            "+"@
        } else {
            ""@
        }
    } else {
        ""@
    };
    let needs = match hit.required_import {
        Some(module) => "\n   import "@ + module,
        None => ""@,
    };
    chain_one(head);
    let p1 = seq![head].push(signature);
    chain_push(seq![head], signature);
    let p2 = p1.push(place);
    chain_push(p1, place);
    let p3 = p2.push(applies);
    chain_push(p2, applies);
    let p4 = p3.push(refs);
    chain_push(p3, refs);
    let p5 = p4.push(needs);
    chain_push(p4, needs);
    assert(told == chain(p5));
    chain_holds(p5, 2);
    chain_holds(p5, 4);
    part_ends(chain(p4), needs);
    assert(told.take(head.len() as int) =~= head);
}

/// Five results of a kept search are shown, or all where all are asked for, and the others
/// are counted; a search without results says so.
pub proof fn kept_searches_are_shown(run: RunView, all: bool)
    ensures
        begins(search_display(run, all), run.reference + "\nquery: "@ + run.query),
        run.hits.len() == 0 ==> ends(search_display(run, all), "\nno results"@),
        all ==> kept_count(run, all) == run.hits.len(),
        !all ==> kept_count(run, all) <= 5,
        !all && run.hits.len() > 5 ==> ends(
            search_display(run, all),
            "\n+"@ + decimal((run.hits.len() - 5) as nat) + " results omitted; refine the query"@,
        ),
{
    let told = search_display(run, all);
    let head = run.reference + "\nquery: "@ + run.query;
    assert(told.take(head.len() as int) =~= head);
    if run.hits.len() == 0 {
        let tail = "\nno results"@;
        assert(told.skip(told.len() - tail.len()) =~= tail);
    } else if !all && run.hits.len() > 5 {
        let tail = "\n+"@ + decimal((run.hits.len() - 5) as nat)
            + " results omitted; refine the query"@;
        assert(told.skip(told.len() - tail.len()) =~= tail);
    }
}

/// The parts of a check are listed with those first that took longest, all of them, and
/// those that took the same time in their own order.
pub proof fn the_longest_parts_come_first(list: Seq<Hotspot>, i: int, j: int)
    requires
        0 <= i < j < list.len(),
    ensures
        sorted_spots(list).len() == list.len(),
        sorted_spots(list)[i].entry.weight >= sorted_spots(list)[j].entry.weight,
        forall|s: Hotspot| list.contains(s) ==> #[trigger] sorted_spots(list).contains(s),
{
    let keys = spot_keys(list);
    ranking_is_permutation(keys);
    ranking_is_sorted(keys, i, j);
    let order = ranking(keys);
    let a = order[i];
    let b = order[j];
    if keys[a] != keys[b] {
        if keys[a][0] == keys[b][0] {
            assert(keys[a] =~= keys[b]);
        }
        lex_less_at(keys[a], keys[b], 0);
    } else {
        assert(keys[a][0] == keys[b][0]);
    }
    assert forall|s: Hotspot| list.contains(s) implies #[trigger] sorted_spots(list).contains(
        s,
    ) by {
        let k = list.index_of(s);
        assert(order.contains(k));
        assert(sorted_spots(list)[order.index_of(k)] == s);
    }
}

/// Every measured part is shown in the section that it belongs to: one on a line of a
/// source by that line, one that says what it is about by that, and any other by its kind.
pub proof fn every_part_has_its_section(list: Seq<Hotspot>, s: Hotspot)
    ensures
        source_spots(list).contains(s) ==> list.contains(s) && s.entry.line > 0,
        list.contains(s) && s.entry.line > 0 ==> same_line_in(source_spots(list), s),
        named_spots(list).contains(s) <==> list.contains(s) && s.entry.line == 0
            && s.entry.detail.len() > 0,
        component_spots(list).contains(s) <==> list.contains(s) && s.entry.line == 0
            && s.entry.detail.len() == 0,
    decreases list.len(),
{
    if list.len() > 0 {
        let shorter = list.drop_last();
        let last = list.last();
        every_part_has_its_section(shorter, s);
        assert(list =~= shorter.push(last));
        pushed_holds(shorter, last, s);
        pushed_holds(source_spots(shorter), last, s);
        pushed_holds(named_spots(shorter), last, s);
        pushed_holds(component_spots(shorter), last, s);
        let before = source_spots(shorter);
        let after = source_spots(list);
        if same_line_in(before, s) {
            let i = choose|i: int|
                0 <= i < before.len() && (#[trigger] before[i]).target == s.target
                    && before[i].entry.line == s.entry.line;
            assert(after[i] == before[i]);
        }
        if after != before {
            assert(after[after.len() - 1] == last);
        }
    }
}

/// The times of a file are told by part, with its lines that were used again and the time
/// that it waited where there are any.
pub proof fn times_are_told_by_part(f: FileProfileView)
    ensures
        begins(
            file_line(f, false),
            "\n  "@ + f.target + " "@ + f.mode + " "@ + decimal(f.total_ms as nat) + "ms (deps "@
                + decimal(f.dependencies_ms as nat) + "ms, cache "@ + decimal(f.cache_ms as nat)
                + "ms, setup "@ + decimal(f.setup_ms as nat) + "ms, Lean "@ + decimal(
                f.elaborate_ms as nat,
            ) + "ms"@,
        ),
        f.reused_prefix_lines matches Some(lines) ==> has_text(
            file_line(f, false),
            ", reused "@ + decimal(lines as nat) + " lines"@,
        ),
        f.queue_ms > 0 ==> ends(
            file_line(f, false),
            ", queue "@ + decimal(f.queue_ms as nat) + "ms"@ + ")"@,
        ),
        f.reused_prefix_lines is None && f.queue_ms == 0 ==> ends(file_line(f, false), "ms"@ + ")"@),
{
    reveal_strlit("");
    let head = "\n  "@ + f.target + " "@ + f.mode + " "@ + decimal(f.total_ms as nat)
        + "ms (deps "@ + decimal(f.dependencies_ms as nat) + "ms, cache "@ + decimal(
        f.cache_ms as nat,
    ) + "ms, setup "@ + decimal(f.setup_ms as nat) + "ms, Lean "@ + decimal(f.elaborate_ms as nat)
        + "ms"@;
    let reused = match f.reused_prefix_lines {
        Some(lines) => ", reused "@ + decimal(lines as nat) + " lines"@,
        None => ""@,
    };
    let queue = if f.queue_ms > 0 {
        ", queue "@ + decimal(f.queue_ms as nat) + "ms"@
    } else {
        ""@
    };
    let told = file_line(f, false);
    assert(told == head + reused + queue + ")"@);
    label_begins(head, reused + queue + ")"@);
    assert(told =~= head + (reused + queue + ")"@));
    found_between(head, reused, queue + ")"@);
    assert(told =~= head + reused + (queue + ")"@));
    part_ends(head + reused, queue + ")"@);
    if f.reused_prefix_lines is None && f.queue_ms == 0 {
        assert(told.skip(told.len() - ("ms"@ + ")"@).len()) =~= "ms"@ + ")"@);
    }
}

/// The times of a check begin with its planning; at most thirty-two files are listed, and
/// the others are counted.
pub proof fn profiles_begin_with_planning(p: CheckProfileView, all: bool)
    ensures
        begins(profile_text(p, all), "profile:\n  planning "@ + decimal(p.planning_ms as nat) + "ms"@),
        p.files.len() > 32 ==> has_text(
            profile_text(p, all),
            "\n  +"@ + decimal((p.files.len() - 32) as nat) + " files"@,
        ),
        ends(profile_text(p, all), hotspot_part(p, all)),
{
    let head = "profile:\n  planning "@ + decimal(p.planning_ms as nat) + "ms"@;
    let told = profile_text(p, all);
    assert(told.take(head.len() as int) =~= head);
    if p.files.len() > 32 {
        let own = "\n  +"@ + decimal((p.files.len() - 32) as nat) + " files"@;
        let before = head + file_lines(p.files, 32);
        assert(told =~= before + own + hotspot_part(p, all));
        found_between(before, own, hotspot_part(p, all));
    }
    let last = hotspot_part(p, all);
    assert(told.skip(told.len() - last.len()) =~= last);
}

proof fn check_parts(run: CheckRunView, all: bool) -> (parts: Seq<Seq<char>>)
    ensures
        parts.len() == 9,
        chain(parts) == check_display(run, all),
        parts[0] == run.reference + " "@ + run.status + " "@ + decimal(run.duration_ms as nat)
            + "ms"@ + "\nworkspace: "@ + run.workspace_ref,
        parts[2] == (match run.failed {
            Some(failed) => "\nfailed: "@ + failed,
            None => ""@,
        }),
        parts[3] == (if all {
            crate::state::profile::list_part("\nnot checked:"@, run.not_checked)
        } else {
            ""@
        }),
        parts[4] == diagnostic_section("diagnostics"@, run.diagnostics, None, 120),
        parts[5] == diagnostic_section("warnings"@, run.warnings, Some(8), 30),
        parts[6] == diagnostic_section("suggestions"@, run.suggestions, Some(8), 30),
        parts[7] == (if all {
            diagnostic_section("linters"@, run.linters, Some(8), 30)
        } else if run.linters.len() > 0 {
            "\nlinters: "@ + decimal(run.linters.len())
        } else {
            ""@
        }),
        parts[8] == (match run.profile {
            Some(profile) => "\n"@ + profile_text(profile, all),
            None => ""@,
        }),
{
    let head = run.reference + " "@ + run.status + " "@ + decimal(run.duration_ms as nat) + "ms"@
        + "\nworkspace: "@ + run.workspace_ref;
    let files = crate::state::profile::list_part("\nfiles:"@, run.files);
    let failed = match run.failed {
        Some(failed) => "\nfailed: "@ + failed,
        None => ""@,
    };
    let unchecked = if all {
        crate::state::profile::list_part("\nnot checked:"@, run.not_checked)
    } else {
        ""@
    };
    let errors = diagnostic_section("diagnostics"@, run.diagnostics, None, 120);
    let warnings = diagnostic_section("warnings"@, run.warnings, Some(8), 30);
    let suggestions = diagnostic_section("suggestions"@, run.suggestions, Some(8), 30);
    let linters = if all {
        diagnostic_section("linters"@, run.linters, Some(8), 30)
    } else if run.linters.len() > 0 {
        "\nlinters: "@ + decimal(run.linters.len())
    } else {
        ""@
    };
    let times = match run.profile {
        Some(profile) => "\n"@ + profile_text(profile, all),
        None => ""@,
    };
    chain_one(head);
    let p0 = seq![head];
    let p1 = p0.push(files);
    chain_push(p0, files);
    let p2 = p1.push(failed);
    chain_push(p1, failed);
    let p3 = p2.push(unchecked);
    chain_push(p2, unchecked);
    let p4 = p3.push(errors);
    chain_push(p3, errors);
    let p5 = p4.push(warnings);
    chain_push(p4, warnings);
    let p6 = p5.push(suggestions);
    chain_push(p5, suggestions);
    let p7 = p6.push(linters);
    chain_push(p6, linters);
    let p8 = p7.push(times);
    chain_push(p7, times);
    p8
}

/// A check is shown with its state, the file that failed, its diagnostics, its warnings and
/// its suggestions; its linters are counted, or shown where everything is asked for.
pub proof fn checks_are_shown_by_section(run: CheckRunView, all: bool)
    ensures
        ({
            let told = check_display(run, all);
            &&& begins(
                told,
                run.reference + " "@ + run.status + " "@ + decimal(run.duration_ms as nat) + "ms"@
                    + "\nworkspace: "@ + run.workspace_ref,
            )
            &&& run.failed matches Some(failed) ==> has_text(told, "\nfailed: "@ + failed)
            &&& has_text(told, diagnostic_section("diagnostics"@, run.diagnostics, None, 120))
            &&& has_text(told, diagnostic_section("warnings"@, run.warnings, Some(8), 30))
            &&& has_text(told, diagnostic_section("suggestions"@, run.suggestions, Some(8), 30))
            &&& all ==> has_text(told, diagnostic_section("linters"@, run.linters, Some(8), 30))
            &&& !all && run.linters.len() > 0 ==> has_text(
                told,
                "\nlinters: "@ + decimal(run.linters.len()),
            )
            &&& run.profile matches Some(profile) ==> ends(
                told,
                "\n"@ + profile_text(profile, all),
            )
        }),
{
    let parts = check_parts(run, all);
    chain_holds(parts, 2);
    chain_holds(parts, 4);
    chain_holds(parts, 5);
    chain_holds(parts, 6);
    chain_holds(parts, 7);
    part_ends(chain(parts.drop_last()), parts.last());
    let head = parts[0];
    check_begins(parts);
}

proof fn check_begins(parts: Seq<Seq<char>>)
    requires
        parts.len() > 0,
    ensures
        begins(chain(parts), parts[0]),
    decreases parts.len(),
{
    if parts.len() == 1 {
        assert(parts =~= seq![parts[0]]);
        chain_one(parts[0]);
        assert(parts[0].take(parts[0].len() as int) =~= parts[0]);
    } else {
        let before = chain(parts.drop_last());
        check_begins(parts.drop_last());
        assert(chain(parts).take(parts[0].len() as int) =~= before.take(parts[0].len() as int));
    }
}

} // verus!

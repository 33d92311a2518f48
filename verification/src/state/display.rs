//! How checks, submissions and kept searches are shown.
use crate::search::display::{exact_inference, is_exact_inference, push_usages, usage_lines};
use crate::search::limits::{SEARCH_USAGE_LIMIT, SOURCE_PREVIEW_LINES};
use crate::search::records::{
    diagnostic_views, hit_views, usage_views, Diagnostic, DiagnosticView, HitView, RunView,
    SearchHit, SearchRun,
};
use crate::search::tokens::{distinct, query_requests_proof_body, wants_body, without_repeats};
use crate::state::records::{Submission, SubmissionView};
use crate::text::layout::{
    brief_hash, front, listed, one_line, push_list, push_strs, short_hash, shortened, single_line,
    sublist, take_front, truncate_line,
};
use crate::text::make::{
    cat2, cat3, copy_strings, join, join_strs, joined, own, prefix_all, prefix_step, push_str, same,
    strings, strings_push, strs, strs_push,
};
use crate::text::number::{decimal, show, show_size};
use crate::text::pieces::{has_string, line_list, lines, own_all};
use crate::text::scan::{
    bare, bare_start, begins, blank, contains, cut, has_text, is_blank, split_once, starts_with,
    trim, trim_start,
};
use crate::state::build_logs::{BuildLogSummary, SummaryView};
use vstd::prelude::*;

verus! {

broadcast use {strings_push, strs_push};

/// The lines of a diagnostic with its context.
pub open spec fn diagnostic_lines(d: DiagnosticView) -> Seq<Seq<char>> {
    line_list(bare(d.text)) + match d.context {
        Some(context) => line_list(context),
        None => Seq::empty(),
    }
}

fn collect_lines<'a>(d: &'a Diagnostic) -> (r: Vec<&'a str>)
    ensures
        strs(r@) == diagnostic_lines(d@),
{
    let mut out = lines(trim(d.text.as_str()));
    let ghost before = strs(out@);
    match &d.context {
        Some(context) => {
            let mut more = lines(context.as_str());
            let ghost added = strs(more@);
            out.append(&mut more);
            assert(strs(out@) =~= before + added);
        },
        None => {
            assert(before + Seq::<Seq<char>>::empty() =~= before);
        },
    }
    out
}

/// The lines of a diagnostic within a budget: all of them, or its head and its tail
/// around a note on what is left out.
pub open spec fn fitted_lines(list: Seq<Seq<char>>, budget: int) -> Seq<Seq<char>> {
    if list.len() <= budget {
        list
    } else {
        let content = budget - 1;
        let first = content / 3;
        list.take(first).push(
            "... "@ + decimal((list.len() - content) as nat) + " diagnostic lines omitted ..."@,
        ) + list.skip(list.len() - (content - first))
    }
}

fn fit_lines(list: &Vec<&str>, budget: usize) -> (r: Vec<String>)
    requires
        budget > 0,
    ensures
        strings(r@) == fitted_lines(strs(list@), budget as int),
{
    assert(strs(list@).len() == list.len());
    if list.len() <= budget {
        return own_all(list);
    }
    let content = budget - 1;
    let first = content / 3;
    let last = content - first;
    let head = sublist(list, 0, first);
    assert(strs(list@).subrange(0, first as int) =~= strs(list@).take(first as int));
    let tail = sublist(list, list.len() - last, list.len());
    assert(strs(list@).subrange(list.len() - last, list.len() as int) =~= strs(list@).skip(
        list.len() - last,
    ));
    let mut out = own_all(&head);
    out.push(
        cat3("... ", show_size(list.len() - content).as_str(), " diagnostic lines omitted ..."),
    );
    let ghost before = strings(out@);
    let mut rest = own_all(&tail);
    let ghost added = strings(rest@);
    out.append(&mut rest);
    assert(strings(out@) =~= before + added);
    out
}

/// What is shown of some diagnostics within a budget of lines: the lines, what is left
/// of the budget, and how many diagnostics are shown.
pub open spec fn diagnostics_within(list: Seq<DiagnosticView>, budget: int) -> (
    Seq<Seq<char>>,
    int,
    nat,
)
    decreases list.len(),
{
    if list.len() == 0 {
        (Seq::empty(), budget, 0)
    } else {
        let (shown, left, count) = diagnostics_within(list.drop_last(), budget);
        if left <= 0 {
            (shown, left, count)
        } else {
            let here = diagnostic_lines(list.last());
            (
                shown + fitted_lines(here, left),
                if here.len() <= left {
                    left - here.len()
                } else {
                    0
                },
                count + 1,
            )
        }
    }
}

/// How many of some diagnostics may be shown.
pub open spec fn diagnostic_limit(count: nat, limit: Option<usize>) -> nat {
    match limit {
        Some(n) => if n < count {
            n as nat
        } else {
            count
        },
        None => count,
    }
}

/// A section of diagnostics.
pub open spec fn diagnostic_section(
    label: Seq<char>,
    list: Seq<DiagnosticView>,
    limit: Option<usize>,
    budget: int,
) -> Seq<char> {
    if list.len() == 0 {
        ""@
    } else {
        let within = diagnostics_within(
            list.take(diagnostic_limit(list.len(), limit) as int),
            budget,
        );
        "\n"@ + label + ":"@ + listed(within.0, "\n  "@) + if within.2 < list.len() {
            "\n  +"@ + decimal((list.len() - within.2) as nat) + " "@ + label + " omitted"@
        } else {
            ""@
        }
    }
}

/// Appends a section of diagnostics, see [`diagnostic_section`].
pub fn append_diagnostics(
    output: &mut String,
    label: &str,
    diagnostics: &Vec<Diagnostic>,
    limit: Option<usize>,
    line_limit: usize,
)
    ensures
        final(output)@ == old(output)@ + diagnostic_section(
            label@,
            diagnostic_views(diagnostics@),
            limit,
            line_limit as int,
        ),
{
    let ghost views = diagnostic_views(diagnostics@);
    assert(views.len() == diagnostics.len());
    if diagnostics.len() == 0 {
        push_str(output, "");
        return;
    }
    let maximum: usize = match limit {
        Some(n) => if n < diagnostics.len() {
            n
        } else {
            diagnostics.len()
        },
        None => diagnostics.len(),
    };
    let ghost taken = views.take(maximum as int);
    let mut shown: Vec<String> = Vec::new();
    let mut left = line_limit;
    let mut count: usize = 0;
    assert(taken.take(0) =~= Seq::empty());
    for i in 0..maximum
        invariant
            maximum <= diagnostics.len(),
            views == diagnostic_views(diagnostics@),
            taken == views.take(maximum as int),
            views.len() == diagnostics.len(),
            count <= i,
            (strings(shown@), left as int, count as nat) == diagnostics_within(
                taken.take(i as int),
                line_limit as int,
            ),
    {
        proof {
            prefix_step(taken, i as int);
        }
        assert(taken[i as int] == diagnostics@[i as int]@);
        if left > 0 {
            let here = collect_lines(&diagnostics[i]);
            assert(strs(here@).len() == here.len());
            let mut fitted = fit_lines(&here, left);
            let ghost before = strings(shown@);
            let ghost added = strings(fitted@);
            shown.append(&mut fitted);
            assert(strings(shown@) =~= before + added);
            left = if here.len() <= left {
                left - here.len()
            } else {
                0
            };
            count += 1;
        }
    }
    proof {
        prefix_all(taken);
    }
    let mut section = cat3("\n", label, ":");
    push_list(&mut section, &shown, "\n  ");
    if count < diagnostics.len() {
        let mut rest = cat3("\n  +", show_size(diagnostics.len() - count).as_str(), " ");
        push_str(&mut rest, label);
        push_str(&mut rest, " omitted");
        push_str(&mut section, rest.as_str());
    } else {
        push_str(&mut section, "");
    }
    push_str(output, section.as_str());
}

proof fn fitted_length(list: Seq<Seq<char>>, budget: int)
    requires
        budget > 0,
    ensures
        fitted_lines(list, budget).len() == if list.len() <= budget {
            list.len() as int
        } else {
            budget
        },
{
}

/// The lines shown of diagnostics never exceed their budget.
pub proof fn diagnostics_stay_within_budget(list: Seq<DiagnosticView>, budget: int)
    requires
        budget >= 0,
    ensures
        diagnostics_within(list, budget).1 >= 0,
        diagnostics_within(list, budget).0.len() + diagnostics_within(list, budget).1 == budget,
        diagnostics_within(list, budget).2 <= list.len(),
    decreases list.len(),
{
    if list.len() > 0 {
        diagnostics_stay_within_budget(list.drop_last(), budget);
        let (shown, left, count) = diagnostics_within(list.drop_last(), budget);
        if left > 0 {
            fitted_length(diagnostic_lines(list.last()), left);
        }
    }
}

/// A diagnostic that is cut keeps its first and its last lines.
pub proof fn cut_diagnostics_keep_head_and_tail(list: Seq<Seq<char>>, budget: int)
    requires
        list.len() > budget >= 4,
    ensures
        fitted_lines(list, budget)[0] == list[0],
        fitted_lines(list, budget).last() == list.last(),
{
}

/// The lines of a build output that say something.
pub open spec fn telling_build_line(line: Seq<char>) -> bool {
    &&& line.len() > 0
    &&& !begins(line, "trace:"@)
    &&& !begins(line, "info:"@)
    &&& !has_text(line, "Building "@)
    &&& !has_text(line, "Built "@)
    &&& !has_text(line, "Replayed "@)
    &&& !has_text(line, "Build completed successfully"@)
    &&& !has_text(line, "declaration uses `sorry`"@)
}

fn is_telling_build_line(line: &str) -> (r: bool)
    ensures
        r == telling_build_line(line@),
{
    !line.is_empty() && !starts_with(line, "trace:") && !starts_with(line, "info:") && !contains(
        line,
        "Building ",
    ) && !contains(line, "Built ") && !contains(line, "Replayed ") && !contains(
        line,
        "Build completed successfully",
    ) && !contains(line, "declaration uses `sorry`")
}

/// The telling lines of a build output, trimmed.
pub open spec fn telling_build_lines(list: Seq<Seq<char>>) -> Seq<Seq<char>>
    decreases list.len(),
{
    if list.len() == 0 {
        Seq::empty()
    } else {
        let earlier = telling_build_lines(list.drop_last());
        if telling_build_line(bare(list.last())) {
            earlier.push(bare(list.last()))
        } else {
            earlier
        }
    }
}

/// The first twenty different telling lines of a build output.
pub open spec fn condensed(output: Seq<char>) -> Seq<char> {
    joined(front(distinct(telling_build_lines(line_list(output))), 20), "\n"@)
}

/// Computes [`condensed`].
pub fn condense_build_output(output: &str) -> (r: String)
    ensures
        r@ == condensed(output@),
{
    let list = lines(output);
    let ghost views = strs(list@);
    let mut telling: Vec<String> = Vec::new();
    for i in 0..list.len()
        invariant
            views == strs(list@),
            strings(telling@) == telling_build_lines(views.take(i as int)),
    {
        proof {
            prefix_step(views, i as int);
        }
        assert(views[i as int] == list@[i as int]@);
        let line = trim(list[i]);
        if is_telling_build_line(line) {
            telling.push(own(line));
        }
    }
    proof {
        prefix_all(views);
    }
    let mut kept = without_repeats(&telling);
    let ghost whole = strings(kept@);
    assert(whole.len() == kept.len());
    if kept.len() > 20 {
        kept.truncate(20);
        assert(strings(kept@) =~= whole.take(20));
    }
    join(&kept, "\n")
}

/// The lines of a build output within a limit: its first ninety and its last thirty.
pub open spec fn bounded_lines(list: Seq<Seq<char>>) -> Seq<Seq<char>> {
    if list.len() <= 120 {
        list
    } else {
        list.take(90).push(
            "... "@ + decimal((list.len() - 120) as nat) + " build lines omitted ..."@,
        ) + list.skip(list.len() - 30)
    }
}

/// A build output within a limit of lines.
pub open spec fn bounded(output: Seq<char>) -> Seq<char> {
    joined(bounded_lines(line_list(bare(output))), "\n"@)
}

/// Computes [`bounded`].
pub fn bounded_build_output(output: &str) -> (r: String)
    ensures
        r@ == bounded(output@),
{
    let list = lines(trim(output));
    assert(strs(list@).len() == list.len());
    if list.len() <= 120 {
        return join_strs(&list, "\n");
    }
    let head = sublist(&list, 0, 90);
    assert(strs(list@).subrange(0, 90) =~= strs(list@).take(90));
    let tail = sublist(&list, list.len() - 30, list.len());
    assert(strs(list@).subrange(list.len() - 30, list.len() as int) =~= strs(list@).skip(
        list.len() - 30,
    ));
    let mut selected = own_all(&head);
    selected.push(
        cat3("... ", show_size(list.len() - 120).as_str(), " build lines omitted ..."),
    );
    let ghost before = strings(selected@);
    let mut rest = own_all(&tail);
    let ghost added = strings(rest@);
    selected.append(&mut rest);
    assert(strings(selected@) =~= before + added);
    join(&selected, "\n")
}

/// A bounded build output has at most 121 lines, and keeps the first and the last.
pub proof fn bounded_output_keeps_head_and_tail(list: Seq<Seq<char>>)
    requires
        list.len() > 0,
    ensures
        bounded_lines(list).len() <= 121,
        bounded_lines(list)[0] == list[0],
        bounded_lines(list).last() == list.last(),
{
}

/// A line that begins a message of the build.
pub open spec fn message_line(line: Seq<char>) -> bool {
    begins(line, "warning:"@) || begins(line, "info:"@) || begins(line, "error:"@)
}

/// A line that ends the messages of a file.
pub open spec fn progress_line(line: Seq<char>) -> bool {
    ||| begins(line, "Build completed"@)
    ||| begins(line, "⚠"@)
    ||| begins(line, "Building "@)
    ||| begins(line, "Built "@)
    ||| begins(line, "Replayed "@)
}

/// A line names one of the files.
pub open spec fn names_file(line: Seq<char>, files: Seq<Seq<char>>) -> bool {
    exists|i: int| 0 <= i < files.len() && has_text(line, #[trigger] files[i])
}

fn is_naming_file(line: &str, files: &Vec<String>) -> (r: bool)
    ensures
        r == names_file(line@, strings(files@)),
{
    for i in 0..files.len()
        invariant
            forall|j: int| 0 <= j < i ==> !has_text(line@, #[trigger] strings(files@)[j]),
    {
        assert(strings(files@)[i as int] == files@[i as int]@);
        if contains(line, files[i].as_str()) {
            return true;
        }
    }
    false
}

/// The lines of the messages on some files, and whether the last line belongs to one.
pub open spec fn relevant_lines(list: Seq<Seq<char>>, files: Seq<Seq<char>>) -> (
    Seq<Seq<char>>,
    bool,
)
    decreases list.len(),
{
    if list.len() == 0 {
        (Seq::empty(), false)
    } else {
        let (kept, before) = relevant_lines(list.drop_last(), files);
        let line = bare_start(list.last());
        let keep = if message_line(line) {
            names_file(line, files)
        } else {
            before && !progress_line(line)
        };
        (
            if keep {
                kept.push(list.last())
            } else {
                kept
            },
            keep,
        )
    }
}

/// The messages of a passed build on some files.
pub open spec fn relevant_output(output: Seq<char>, files: Seq<Seq<char>>) -> Seq<char> {
    bounded(joined(relevant_lines(line_list(output), files).0, "\n"@))
}

/// Computes [`relevant_output`].
pub fn relevant_passed_build_output(output: &str, files: &Vec<String>) -> (r: String)
    ensures
        r@ == relevant_output(output@, strings(files@)),
{
    let list = lines(output);
    let ghost views = strs(list@);
    let mut keep = false;
    let mut selected: Vec<&str> = Vec::new();
    assert(strs(selected@) =~= Seq::empty());
    for i in 0..list.len()
        invariant
            views == strs(list@),
            (strs(selected@), keep) == relevant_lines(views.take(i as int), strings(files@)),
    {
        proof {
            prefix_step(views, i as int);
        }
        assert(views[i as int] == list@[i as int]@);
        let line = trim_start(list[i]);
        if starts_with(line, "warning:") || starts_with(line, "info:") || starts_with(
            line,
            "error:",
        ) {
            keep = is_naming_file(line, files);
        } else if starts_with(line, "Build completed") || starts_with(line, "⚠") || starts_with(
            line,
            "Building ",
        ) || starts_with(line, "Built ") || starts_with(line, "Replayed ") {
            keep = false;
        }
        if keep {
            selected.push(list[i]);
        }
    }
    proof {
        prefix_all(views);
    }
    bounded_build_output(join_strs(&selected, "\n").as_str())
}

/// How many lines warn.
pub open spec fn warning_count(list: Seq<Seq<char>>) -> nat
    decreases list.len(),
{
    if list.len() == 0 {
        0
    } else {
        warning_count(list.drop_last()) + if begins(bare_start(list.last()), "warning:"@) {
            1nat
        } else {
            0nat
        }
    }
}

/// Computes [`warning_count`] of the lines of a build output.
pub fn count_warnings(output: &str) -> (r: usize)
    ensures
        r == warning_count(line_list(output@)),
{
    let list = lines(output);
    let ghost views = strs(list@);
    let mut count: usize = 0;
    for i in 0..list.len()
        invariant
            views == strs(list@),
            count <= i,
            count == warning_count(views.take(i as int)),
    {
        proof {
            prefix_step(views, i as int);
        }
        assert(views[i as int] == list@[i as int]@);
        if starts_with(trim_start(list[i]), "warning:") {
            count += 1;
        }
    }
    proof {
        prefix_all(views);
    }
    count
}

/// A duration for reading: in milliseconds, seconds, or minutes and seconds.
pub open spec fn duration_text(ms: u64) -> Seq<char> {
    if ms < 1000 {
        decimal(ms as nat) + "ms"@
    } else if ms < 60_000 {
        decimal((ms / 1000) as nat) + "."@ + decimal((ms % 1000 / 100) as nat) + "s"@
    } else {
        decimal((ms / 60_000) as nat) + "m"@ + decimal((ms % 60_000 / 1000) as nat) + "s"@
    }
}

/// Computes [`duration_text`].
pub fn format_duration(ms: u64) -> (r: String)
    ensures
        r@ == duration_text(ms),
{
    if ms < 1000 {
        cat2(show(ms).as_str(), "ms")
    } else if ms < 60_000 {
        let mut out = cat3(show(ms / 1000).as_str(), ".", show(ms % 1000 / 100).as_str());
        push_str(&mut out, "s");
        out
    } else {
        let mut out = cat3(show(ms / 60_000).as_str(), "m", show(ms % 60_000 / 1000).as_str());
        push_str(&mut out, "s");
        out
    }
}

/// A section of lines, left out where there are none.
pub open spec fn output_section(rendered: Seq<char>) -> Seq<char> {
    if rendered.len() > 0 {
        "\noutput:"@ + listed(line_list(rendered), "\n  "@)
    } else {
        ""@
    }
}

fn render_output_section(rendered: &str) -> (r: String)
    ensures
        r@ == output_section(rendered@),
{
    if rendered.is_empty() {
        own("")
    } else {
        let mut out = own("\noutput:");
        push_strs(&mut out, &lines(rendered), "\n  ");
        out
    }
}

/// What is said of a build output that is no longer kept.
pub open spec fn expired_part(summary: SummaryView) -> Seq<char> {
    "\nraw build output expired ("@ + decimal(summary.original_bytes as nat) + " bytes)"@ + (
    if summary.warnings == 0 {
        ""@
    } else {
        "\nbuild warnings: "@ + decimal(summary.warnings as nat)
    }) + output_section(summary.diagnostics)
}

fn render_expired_part(summary: &BuildLogSummary) -> (r: String)
    ensures
        r@ == expired_part(summary@),
{
    let mut out = cat3(
        "\nraw build output expired (",
        show(summary.original_bytes).as_str(),
        " bytes)",
    );
    if summary.warnings == 0 {
        push_str(&mut out, "");
    } else {
        let count = show_size(summary.warnings);
        push_str(&mut out, cat2("\nbuild warnings: ", count.as_str()).as_str());
    }
    push_str(&mut out, render_output_section(summary.diagnostics.as_str()).as_str());
    out
}

/// What a submission says of its build output.
pub open spec fn build_part(s: SubmissionView, files: Seq<Seq<char>>, all: bool) -> Seq<char> {
    if s.build_output is None && s.build_summary is Some {
        expired_part(s.build_summary->0)
    } else if s.build_output is None || blank(s.build_output->0) {
        ""@
    } else {
        let output = s.build_output->0;
        let warnings = warning_count(line_list(output));
        if s.validation_status == "passed"@ {
            (if warnings == 0 {
                ""@
            } else if all {
                "\nbuild warnings: "@ + decimal(warnings) + " total; unrelated output omitted"@
            } else {
                "\nbuild warnings: "@ + decimal(warnings) + "; show "@ + s.reference + " --all"@
            }) + (if all {
                output_section(relevant_output(output, files))
            } else {
                ""@
            })
        } else if all {
            output_section(bounded(output))
        } else {
            output_section(condensed(output))
        }
    }
}

fn render_build_part(s: &Submission, files: &Vec<String>, all: bool) -> (r: String)
    ensures
        r@ == build_part(s@, strings(files@), all),
{
    let Some(output) = &s.build_output else {
        return match &s.build_summary {
            Some(summary) => render_expired_part(summary),
            None => own(""),
        };
    };
    if is_blank(output.as_str()) {
        return own("");
    }
    if same(s.validation_status.as_str(), "passed") {
        let warnings = count_warnings(output.as_str());
        let mut out = if warnings == 0 {
            own("")
        } else if all {
            cat3(
                "\nbuild warnings: ",
                show_size(warnings).as_str(),
                " total; unrelated output omitted",
            )
        } else {
            let mut text = cat3("\nbuild warnings: ", show_size(warnings).as_str(), "; show ");
            push_str(&mut text, s.reference.as_str());
            push_str(&mut text, " --all");
            text
        };
        if all {
            let rendered = relevant_passed_build_output(output.as_str(), files);
            push_str(&mut out, render_output_section(rendered.as_str()).as_str());
        } else {
            push_str(&mut out, "");
        }
        out
    } else if all {
        render_output_section(bounded_build_output(output.as_str()).as_str())
    } else {
        render_output_section(condense_build_output(output.as_str()).as_str())
    }
}

/// What a finished validation says of axioms and of declarations left open.
pub open spec fn audit_part(s: SubmissionView, all: bool) -> Seq<char> {
    if s.validation_status == "passed"@ || s.validation_status == "failed"@ {
        (if s.axioms.len() > 0 {
            "\naxioms: failed"@ + listed(s.axioms, "\n  "@)
        } else if s.validation_status == "passed"@ {
            "\naxioms: clean"@
        } else if s.validation_detail is Some && begins(s.validation_detail->0, "build failed"@) {
            "\naxioms: not run"@
        } else {
            "\naxioms: error"@
        }) + "\nsorries: "@ + decimal(s.sorries.len()) + (if all {
            listed(s.sorries, "\n  "@)
        } else {
            ""@
        })
    } else {
        ""@
    }
}

fn render_audit_part(s: &Submission, all: bool) -> (r: String)
    ensures
        r@ == audit_part(s@, all),
{
    let status = s.validation_status.as_str();
    if !(same(status, "passed") || same(status, "failed")) {
        return own("");
    }
    assert(strings(s.axioms@).len() == s.axioms.len());
    assert(strings(s.sorries@).len() == s.sorries.len());
    let mut out = if s.axioms.len() > 0 {
        let mut text = own("\naxioms: failed");
        push_list(&mut text, &s.axioms, "\n  ");
        text
    } else if same(status, "passed") {
        own("\naxioms: clean")
    } else {
        let not_run = match &s.validation_detail {
            Some(detail) => starts_with(detail.as_str(), "build failed"),
            None => false,
        };
        if not_run {
            own("\naxioms: not run")
        } else {
            own("\naxioms: error")
        }
    };
    push_str(&mut out, "\nsorries: ");
    push_str(&mut out, show_size(s.sorries.len()).as_str());
    if all {
        push_list(&mut out, &s.sorries, "\n  ");
    } else {
        push_str(&mut out, "");
    }
    out
}

/// The files of a submission.
pub open spec fn files_part(s: SubmissionView, files: Seq<Seq<char>>, all: bool) -> Seq<char> {
    if files.len() == 0 {
        ""@
    } else if all || files.len() <= 12 {
        "\nfiles:"@ + listed(files, "\n  "@)
    } else {
        "\nfiles:"@ + listed(files.take(12), "\n  "@) + "\n  +"@ + decimal(
            (files.len() - 12) as nat,
        ) + " files; show "@ + s.reference + " --all"@
    }
}

fn render_files_part(s: &Submission, files: &Vec<String>, all: bool) -> (r: String)
    ensures
        r@ == files_part(s@, strings(files@), all),
{
    assert(strings(files@).len() == files.len());
    if files.len() == 0 {
        return own("");
    }
    let mut out = own("\nfiles:");
    if all || files.len() <= 12 {
        push_list(&mut out, files, "\n  ");
    } else {
        let mut first = copy_strings(files);
        first.truncate(12);
        assert(strings(first@) =~= strings(files@).take(12));
        push_list(&mut out, &first, "\n  ");
        push_str(&mut out, "\n  +");
        push_str(&mut out, show_size(files.len() - 12).as_str());
        push_str(&mut out, " files; show ");
        push_str(&mut out, s.reference.as_str());
        push_str(&mut out, " --all");
    }
    out
}

/// The head of a submission: its status, and whether a later validation passed.
pub open spec fn status_part(s: SubmissionView, later: Option<Seq<char>>) -> Seq<char> {
    s.reference + " "@ + s.validation_status + (if s.validation_status == "failed"@ && later
        is Some {
        "\nhistorical: later validation "@ + later->0 + " passed"@
    } else {
        ""@
    }) + (if s.checks.len() > 0 {
        "\ncheck: "@ + joined(s.checks, " "@)
    } else {
        ""@
    })
}

fn render_status_part(s: &Submission, later: Option<&str>) -> (r: String)
    ensures
        r@ == status_part(s@, crate::text::scan::opt_str(later)),
{
    let mut out = cat3(s.reference.as_str(), " ", s.validation_status.as_str());
    match later {
        Some(reference) => if same(s.validation_status.as_str(), "failed") {
            push_str(
                &mut out,
                cat3("\nhistorical: later validation ", reference, " passed").as_str(),
            );
        } else {
            push_str(&mut out, "");
        },
        None => push_str(&mut out, ""),
    }
    assert(strings(s.checks@).len() == s.checks.len());
    if s.checks.len() > 0 {
        push_str(&mut out, cat2("\ncheck: ", join(&s.checks, " ").as_str()).as_str());
    } else {
        push_str(&mut out, "");
    }
    out
}

/// A submission as it is shown.
pub open spec fn submission_display(
    s: SubmissionView,
    files: Seq<Seq<char>>,
    later: Option<Seq<char>>,
    all: bool,
) -> Seq<char> {
    if s.validation_status == "skipped"@ {
        s.reference + " covered-by:"@ + match s.validated_by {
            Some(reference) => reference,
            None => "pending"@,
        }
    } else {
        status_part(s, later) + files_part(s, files, all) + (match s.validation_duration_ms {
            Some(ms) => "\nbuild: "@ + duration_text(ms),
            None => ""@,
        }) + audit_part(s, all) + (if s.validation_detail is Some && s.validation_detail->0.len()
            > 0 {
            "\n"@ + s.validation_detail->0
        } else {
            ""@
        }) + build_part(s, files, all) + (if all {
            "\nworkspace: "@ + s.workspace_ref + "\nmain: "@ + brief_hash(s.main_commit)
        } else {
            ""@
        })
    }
}

/// Computes [`submission_display`].
pub fn render_submission(
    submission: &Submission,
    files: &Vec<String>,
    later_passing_validation: Option<&str>,
    all: bool,
) -> (r: String)
    ensures
        r@ == submission_display(
            submission@,
            strings(files@),
            crate::text::scan::opt_str(later_passing_validation),
            all,
        ),
{
    let s = submission;
    if same(s.validation_status.as_str(), "skipped") {
        let by = match &s.validated_by {
            Some(reference) => reference.as_str(),
            None => "pending",
        };
        return cat3(s.reference.as_str(), " covered-by:", by);
    }
    let mut out = render_status_part(s, later_passing_validation);
    push_str(&mut out, render_files_part(s, files, all).as_str());
    match s.validation_duration_ms {
        Some(ms) => push_str(&mut out, cat2("\nbuild: ", format_duration(ms).as_str()).as_str()),
        None => push_str(&mut out, ""),
    }
    push_str(&mut out, render_audit_part(s, all).as_str());
    match &s.validation_detail {
        Some(detail) => if detail.as_str().is_empty() {
            push_str(&mut out, "");
        } else {
            push_str(&mut out, cat2("\n", detail.as_str()).as_str());
        },
        None => push_str(&mut out, ""),
    }
    push_str(&mut out, render_build_part(s, files, all).as_str());
    if all {
        let mut tail = cat3("\nworkspace: ", s.workspace_ref.as_str(), "\nmain: ");
        push_str(&mut tail, short_hash(s.main_commit.as_str()));
        push_str(&mut out, tail.as_str());
    } else {
        push_str(&mut out, "");
    }
    out
}

/// The source of a hit without an ambient context that was shown before, and the
/// contexts shown so far.
pub open spec fn fresh_source(source: Seq<char>, seen: Seq<Seq<char>>) -> (
    Seq<char>,
    Seq<Seq<char>>,
) {
    match cut(source, "\n\n"@) {
        None => (source, seen),
        Some((ambient, declaration)) => if !begins(ambient, "-- ambient context"@) {
            (source, seen)
        } else if seen.contains(ambient) {
            (declaration, seen)
        } else {
            (source, seen.push(ambient))
        },
    }
}

fn without_repeated_ambient_context<'a>(source: &'a str, seen: &mut Vec<String>) -> (r: &'a str)
    ensures
        (r@, strings(final(seen)@)) == fresh_source(source@, strings(old(seen)@)),
{
    let Some((ambient, declaration)) = split_once(source, "\n\n") else {
        return source;
    };
    if !starts_with(ambient, "-- ambient context") {
        return source;
    }
    if has_string(seen, ambient) {
        declaration
    } else {
        seen.push(own(ambient));
        source
    }
}

/// How many lines of the source of a kept hit are shown.
pub open spec fn kept_line_limit(hit: HitView, index: int, query: Seq<char>) -> usize {
    if hit.kind == "fields"@ || hit.kind == "outline"@ || hit.kind == "source-range"@ || hit.kind
        == "source-occurrences"@ {
        usize::MAX
    } else if hit.kind == "class"@ || hit.kind == "inductive"@ || hit.kind == "structure"@ {
        48
    } else if index == 0 && wants_body(query) {
        48
    } else {
        SOURCE_PREVIEW_LINES
    }
}

fn limit_of_kept(hit: &SearchHit, index: usize, query: &str) -> (r: usize)
    ensures
        r == kept_line_limit(hit@, index as int, query@),
{
    let kind = hit.kind.as_str();
    if same(kind, "fields") || same(kind, "outline") || same(kind, "source-range") || same(
        kind,
        "source-occurrences",
    ) {
        usize::MAX
    } else if same(kind, "class") || same(kind, "inductive") || same(kind, "structure") {
        48
    } else if index == 0 && query_requests_proof_body(query) {
        48
    } else {
        SOURCE_PREVIEW_LINES
    }
}

/// Lines, each shortened.
pub open spec fn cut_lines(list: Seq<Seq<char>>, limit: nat) -> Seq<Seq<char>> {
    list.map_values(|line: Seq<char>| shortened(line, limit))
}

fn shorten_all(list: &Vec<&str>, limit: usize) -> (r: Vec<String>)
    ensures
        strings(r@) == cut_lines(strs(list@), limit as nat),
{
    let ghost wanted = cut_lines(strs(list@), limit as nat);
    let mut out: Vec<String> = Vec::new();
    for i in 0..list.len()
        invariant
            wanted == cut_lines(strs(list@), limit as nat),
            strings(out@) == wanted.take(i as int),
    {
        proof {
            prefix_step(wanted, i as int);
        }
        out.push(truncate_line(list[i], limit));
    }
    proof {
        prefix_all(wanted);
    }
    out
}

/// Lines, each trimmed and shortened.
pub open spec fn doc_display(doc: Seq<char>) -> Seq<Seq<char>> {
    front(line_list(bare(doc)), 3).map_values(|line: Seq<char>| shortened(bare(line), 240))
}

fn shorten_doc(doc: &str) -> (r: Vec<String>)
    ensures
        strings(r@) == doc_display(doc@),
{
    let list = take_front(&lines(trim(doc)), 3);
    let ghost wanted = doc_display(doc@);
    let mut out: Vec<String> = Vec::new();
    for i in 0..list.len()
        invariant
            strs(list@) == front(line_list(bare(doc@)), 3),
            wanted == doc_display(doc@),
            strings(out@) == wanted.take(i as int),
    {
        proof {
            prefix_step(wanted, i as int);
            assert(strs(list@)[i as int] == list@[i as int]@);
        }
        out.push(truncate_line(trim(list[i]), 240));
    }
    proof {
        assert(strs(list@).len() == list.len());
        prefix_all(wanted);
    }
    out
}

/// The head of a kept hit: its name, signature, place, and what refers to it.
pub open spec fn kept_heading(run: RunView, hit: HitView, index: int, all: bool) -> Seq<char> {
    "\n"@ + decimal((index + 1) as nat) + ". "@ + hit.name + (match hit.signature {
        Some(signature) => " : "@ + if all || exact_inference(run.inference) {
            one_line(signature)
        } else {
            shortened(one_line(signature), 300)
        },
        None => ""@,
    }) + (if hit.path.len() > 0 {
        "\n   "@ + hit.path + if hit.line > 0 {
            ":"@ + decimal(hit.line as nat)
        } else {
            ""@
        }
    } else {
        ""@
    }) + (if hit.applicable {
        "  applicable"@
    } else {
        ""@
    }) + (if hit.usages.len() > 0 {
        "  refs:"@ + decimal(hit.usages.len()) + if hit.usages.len() == SEARCH_USAGE_LIMIT {
            "+"@
        } else {
            ""@
        }
    } else {
        ""@
    }) + (match hit.required_import {
        Some(module) => "\n   import "@ + module,
        None => ""@,
    })
}

fn render_kept_heading(run: &SearchRun, index: usize, all: bool) -> (r: String)
    requires
        index < run.hits.len(),
    ensures
        r@ == kept_heading(run@, run@.hits[index as int], index as int, all),
{
    let hit = &run.hits[index];
    assert(run@.hits[index as int] == hit@);
    let mut out = cat3("\n", show_size(index + 1).as_str(), ". ");
    push_str(&mut out, hit.name.as_str());
    match &hit.signature {
        Some(signature) => {
            let line = single_line(signature.as_str());
            if all || is_exact_inference(run.inference.as_str()) {
                push_str(&mut out, cat2(" : ", line.as_str()).as_str());
            } else {
                push_str(&mut out, cat2(" : ", truncate_line(line.as_str(), 300).as_str()).as_str());
            }
        },
        None => push_str(&mut out, ""),
    }
    if hit.path.as_str().is_empty() {
        push_str(&mut out, "");
    } else if hit.line > 0 {
        let place = cat2(":", show(hit.line).as_str());
        push_str(&mut out, cat3("\n   ", hit.path.as_str(), place.as_str()).as_str());
    } else {
        push_str(&mut out, cat3("\n   ", hit.path.as_str(), "").as_str());
    }
    if hit.applicable {
        push_str(&mut out, "  applicable");
    } else {
        push_str(&mut out, "");
    }
    assert(usage_views(hit.usages@).len() == hit.usages.len());
    if hit.usages.len() > 0 {
        let suffix = if hit.usages.len() == SEARCH_USAGE_LIMIT {
            "+"
        } else {
            ""
        };
        push_str(
            &mut out,
            cat3("  refs:", show_size(hit.usages.len()).as_str(), suffix).as_str(),
        );
    } else {
        push_str(&mut out, "");
    }
    match &hit.required_import {
        Some(module) => push_str(&mut out, cat2("\n   import ", module.as_str()).as_str()),
        None => push_str(&mut out, ""),
    }
    out
}

/// The source of a kept hit as it is shown.
pub open spec fn kept_source(run: RunView, hit: HitView, source: Seq<char>, index: int) -> Seq<
    char,
> {
    (if hit.kind == "fields"@ || hit.kind == "location"@ {
        ""@
    } else {
        "\n   source:"@
    }) + listed(
        cut_lines(
            front(line_list(bare(source)), kept_line_limit(hit, index, run.query) as int),
            240,
        ),
        "\n     "@,
    )
}

/// One kept hit, and the ambient contexts shown so far.
pub open spec fn kept_hit(
    run: RunView,
    hit: HitView,
    index: int,
    all: bool,
    seen: Seq<Seq<char>>,
) -> (Seq<char>, Seq<Seq<char>>) {
    let heading = kept_heading(run, hit, index, all);
    if !all && index >= 3 {
        (heading, seen)
    } else {
        let doc = match hit.doc {
            Some(text) => listed(doc_display(text), "\n   doc: "@),
            None => ""@,
        };
        let used = usage_lines(front(hit.usages, 5), "\n   used: "@);
        if index < 3 && hit.source is Some {
            let (source, next) = fresh_source(hit.source->0, seen);
            (heading + doc + kept_source(run, hit, source, index) + used, next)
        } else {
            (heading + doc + ""@ + used, seen)
        }
    }
}

fn render_kept_hit(run: &SearchRun, index: usize, all: bool, seen: &mut Vec<String>) -> (r: String)
    requires
        index < run.hits.len(),
    ensures
        (r@, strings(final(seen)@)) == kept_hit(
            run@,
            run@.hits[index as int],
            index as int,
            all,
            strings(old(seen)@),
        ),
{
    let hit = &run.hits[index];
    assert(run@.hits[index as int] == hit@);
    let mut out = render_kept_heading(run, index, all);
    if !all && index >= 3 {
        return out;
    }
    match &hit.doc {
        Some(doc) => {
            let mut part = String::new();
            push_list(&mut part, &shorten_doc(doc.as_str()), "\n   doc: ");
            assert(part@ =~= listed(doc_display(doc@), "\n   doc: "@));
            push_str(&mut out, part.as_str());
        },
        None => push_str(&mut out, ""),
    }
    let mut told = false;
    if index < 3 {
        if let Some(text) = &hit.source {
            told = true;
            let source = without_repeated_ambient_context(text.as_str(), seen);
            let mut part = if same(hit.kind.as_str(), "fields") || same(
                hit.kind.as_str(),
                "location",
            ) {
                own("")
            } else {
                own("\n   source:")
            };
            let limit = limit_of_kept(hit, index, run.query.as_str());
            push_list(
                &mut part,
                &shorten_all(&take_front(&lines(trim(source)), limit), 240),
                "\n     ",
            );
            push_str(&mut out, part.as_str());
        }
    }
    if !told {
        push_str(&mut out, "");
    }
    let mut used = String::new();
    push_usages(&mut used, &hit.usages, 5, "\n   used: ");
    assert(used@ =~= usage_lines(front(hit@.usages, 5), "\n   used: "@));
    push_str(&mut out, used.as_str());
    out
}

/// The first `n` kept hits, and the ambient contexts shown with them.
pub open spec fn kept_hits(run: RunView, all: bool, n: nat) -> (Seq<char>, Seq<Seq<char>>)
    decreases n,
{
    if n == 0 {
        (Seq::empty(), Seq::empty())
    } else {
        let (text, seen) = kept_hits(run, all, (n - 1) as nat);
        let (here, next) = kept_hit(run, run.hits[n - 1], n - 1, all, seen);
        (text + here, next)
    }
}

/// How many hits of a kept search are shown.
pub open spec fn kept_count(run: RunView, all: bool) -> nat {
    if all || run.hits.len() < 5 {
        run.hits.len()
    } else {
        5
    }
}

/// A kept search as it is shown.
pub open spec fn search_display(run: RunView, all: bool) -> Seq<char> {
    run.reference + "\nquery: "@ + run.query + (match run.note {
        Some(note) => "\n"@ + note,
        None => ""@,
    }) + if run.hits.len() == 0 {
        "\nno results"@
    } else {
        kept_hits(run, all, kept_count(run, all)).0 + if run.hits.len() > kept_count(run, all) {
            "\n+"@ + decimal((run.hits.len() - kept_count(run, all)) as nat)
                + " results omitted; refine the query"@
        } else {
            ""@
        }
    }
}

/// Computes [`search_display`].
pub fn render_search_run(run: &SearchRun, all: bool) -> (r: String)
    ensures
        r@ == search_display(run@, all),
{
    let mut out = cat3(run.reference.as_str(), "\nquery: ", run.query.as_str());
    match &run.note {
        Some(note) => push_str(&mut out, cat2("\n", note.as_str()).as_str()),
        None => push_str(&mut out, ""),
    }
    assert(hit_views(run.hits@).len() == run.hits.len());
    if run.hits.len() == 0 {
        push_str(&mut out, "\nno results");
        return out;
    }
    let count: usize = if all || run.hits.len() < 5 {
        run.hits.len()
    } else {
        5
    };
    let mut body = String::new();
    let mut seen: Vec<String> = Vec::new();
    assert(strings(seen@) =~= Seq::empty());
    for i in 0..count
        invariant
            count <= run.hits.len(),
            (body@, strings(seen@)) == kept_hits(run@, all, i as nat),
    {
        let here = render_kept_hit(run, i, all, &mut seen);
        push_str(&mut body, here.as_str());
    }
    if run.hits.len() > count {
        let rest = cat3(
            "\n+",
            show_size(run.hits.len() - count).as_str(),
            " results omitted; refine the query",
        );
        push_str(&mut body, rest.as_str());
    } else {
        push_str(&mut body, "");
    }
    push_str(&mut out, body.as_str());
    out
}

} // verus!

//! What is kept of build outputs, on every input.
use crate::order::{lex_less_at, ranking, ranking_is_permutation, ranking_is_sorted};
use crate::state::build_logs::{
    diagnostics_start, enriched, error_from, error_line, excerpt, expired, first_error, summary_of,
    warning_from, LogRowView,
};
use crate::state::display::warning_count;
use crate::state::records::SubmissionView;
use crate::state::retention::{finished_at, newest_first, pruned_row, submission_key, time_code};
use crate::text::chain::{part_ends, pushed_holds};
use crate::text::layout::front;
use crate::text::make::{byte_length, joined};
use crate::text::pieces::line_list;
use crate::text::scan::{bare, bare_start, begins, ends, has_text};
use vstd::prelude::*;

verus! {

proof fn first_error_is_found(list: Seq<Seq<char>>, i: int, k: int)
    requires
        0 <= i <= k <= list.len(),
        k < list.len() ==> error_line(list[k]),
        forall|j: int| i <= j < k ==> !error_line(#[trigger] list[j]),
    ensures
        error_from(list, i) == k,
    decreases k - i,
{
    if i < k {
        first_error_is_found(list, i + 1, k);
    }
}

proof fn first_warning_is_found(list: Seq<Seq<char>>, i: int, k: int)
    requires
        0 <= i <= k <= list.len(),
        k < list.len() ==> begins(bare_start(list[k]), "warning:"@),
        forall|j: int| i <= j < k ==> !begins(bare_start(#[trigger] list[j]), "warning:"@),
    ensures
        warning_from(list, i) == k,
    decreases k - i,
{
    if i < k {
        first_warning_is_found(list, i + 1, k);
    }
}

/// The diagnostics of a build begin at its first error, whatever warnings stand before it.
pub proof fn diagnostics_begin_at_the_first_error(list: Seq<Seq<char>>, k: int)
    requires
        0 <= k < list.len(),
        begins(bare_start(list[k]), "error:"@) || has_text(list[k], " error:"@),
        forall|j: int|
            0 <= j < k ==> !begins(bare_start(#[trigger] list[j]), "error:"@) && !has_text(
                list[j],
                " error:"@,
            ),
    ensures
        diagnostics_start(list) == k,
{
    assert forall|j: int| 0 <= j < k implies !error_line(#[trigger] list[j]) by {}
    first_error_is_found(list, 0, k);
}

/// Without an error they begin at the first warning, and without a warning ten lines before
/// the end.
pub proof fn diagnostics_begin_at_the_first_warning(list: Seq<Seq<char>>, k: int)
    requires
        0 <= k <= list.len(),
        forall|j: int|
            0 <= j < list.len() ==> !begins(bare_start(#[trigger] list[j]), "error:"@) && !has_text(
                list[j],
                " error:"@,
            ),
        k < list.len() ==> begins(bare_start(list[k]), "warning:"@),
        forall|j: int| 0 <= j < k ==> !begins(bare_start(#[trigger] list[j]), "warning:"@),
    ensures
        k < list.len() ==> diagnostics_start(list) == k,
        k == list.len() && list.len() > 10 ==> diagnostics_start(list) == list.len() - 10,
        k == list.len() && list.len() <= 10 ==> diagnostics_start(list) == 0,
{
    assert forall|j: int| 0 <= j < list.len() implies !error_line(#[trigger] list[j]) by {}
    first_error_is_found(list, 0, list.len() as int);
    first_warning_is_found(list, 0, k);
}

/// A summary tells the size of an output in bytes, its warnings, and at most twenty lines
/// of its diagnostics.
pub proof fn summaries_tell_size_and_warnings(output: Seq<char>)
    requires
        byte_length(output) <= u64::MAX,
        warning_count(line_list(output)) <= usize::MAX,
    ensures
        ({
            let s = summary_of(output);
            let list = line_list(output);
            let shown = front(list.skip(diagnostics_start(list)), 20);
            &&& s.original_bytes == byte_length(output)
            &&& s.warnings == warning_count(list)
            &&& shown.len() <= 20
            &&& byte_length(joined(shown, "\n"@)) <= 8192 ==> s.diagnostics == joined(shown, "\n"@)
            &&& byte_length(joined(shown, "\n"@)) > 8192 ==> ends(
                s.diagnostics,
                "\n[diagnostic excerpt truncated]"@,
            )
        }),
{
    let list = line_list(output);
    let text = joined(front(list.skip(diagnostics_start(list)), 20), "\n"@);
    part_ends(
        crate::state::build_logs::fitting(text, 8192),
        "\n[diagnostic excerpt truncated]"@,
    );
}

proof fn error_is_first(list: Seq<Seq<char>>, i: int, k: int)
    requires
        0 <= i <= k <= list.len(),
        k < list.len() ==> begins(bare_start(list[k]), "error:"@),
        forall|j: int| i <= j < k ==> !begins(bare_start(#[trigger] list[j]), "error:"@),
    ensures
        first_error(list, i) == k,
    decreases k - i,
{
    if i < k {
        error_is_first(list, i + 1, k);
    }
}

/// A detail that says only that the build failed is given its first error; any other detail
/// stays as it is.
pub proof fn bare_failures_name_their_first_error(
    detail: Seq<char>,
    output: Seq<char>,
    k: int,
)
    requires
        0 <= k < line_list(output).len(),
        begins(bare_start(line_list(output)[k]), "error:"@),
        forall|j: int|
            0 <= j < k ==> !begins(bare_start(#[trigger] line_list(output)[j]), "error:"@),
    ensures
        bare(detail) == "build failed"@ ==> enriched(Some(detail), Some(output)) == Some(
            "build failed: "@ + bare(
                bare_start(line_list(output)[k]).skip("error:"@.len() as int),
            ),
        ),
        bare(detail) != "build failed"@ ==> enriched(Some(detail), Some(output)) == Some(detail),
        enriched(Some(detail), None) == Some(detail),
        enriched(None, Some(output)) is None,
{
    error_is_first(line_list(output), 0, k);
}

/// Just the outputs that are there and not kept are dropped.
pub proof fn unkept_outputs_are_dropped(
    rows: Seq<LogRowView>,
    kept: Seq<Seq<char>>,
    reference: Seq<char>,
)
    ensures
        expired(rows, kept).contains(reference) <==> !kept.contains(reference) && exists|i: int|
            0 <= i < rows.len() && (#[trigger] rows[i]).reference == reference && rows[i].size
                is Some,
    decreases rows.len(),
{
    if rows.len() > 0 {
        let shorter = rows.drop_last();
        let last = rows.last();
        unkept_outputs_are_dropped(shorter, kept, reference);
        pushed_holds(expired(shorter, kept), last.reference, reference);
        if expired(rows, kept).contains(reference) {
            if expired(shorter, kept).contains(reference) {
                let i = choose|i: int|
                    0 <= i < shorter.len() && (#[trigger] shorter[i]).reference == reference
                        && shorter[i].size is Some;
                assert(rows[i] == shorter[i]);
            } else {
                assert(rows[rows.len() - 1] == last);
            }
        }
        if !kept.contains(reference) && exists|i: int|
            0 <= i < rows.len() && (#[trigger] rows[i]).reference == reference && rows[i].size
                is Some {
            let i = choose|i: int|
                0 <= i < rows.len() && (#[trigger] rows[i]).reference == reference && rows[i].size
                    is Some;
            if i < shorter.len() {
                assert(shorter[i] == rows[i]);
            }
        }
    }
}

/// Only finished validations lose their output, and only where it is not kept; one that is
/// kept keeps it whole.
pub proof fn only_finished_outputs_are_dropped(s: SubmissionView, kept: Seq<Seq<char>>)
    ensures
        ({
            let done = s.validation_status == "passed"@ || s.validation_status == "failed"@;
            &&& !done ==> pruned_row(s, kept) == s
            &&& kept.contains(s.reference) ==> pruned_row(s, kept).build_output == s.build_output
            &&& done && s.build_output is Some && !kept.contains(s.reference) ==> pruned_row(
                s,
                kept,
            ).build_output is None
            &&& done && s.build_output is Some && s.build_summary is None ==> pruned_row(
                s,
                kept,
            ).build_summary == Some(summary_of(s.build_output->0))
            &&& s.build_summary is Some ==> pruned_row(s, kept).build_summary == s.build_summary
        }),
{
}

/// Submissions are counted from the newest on: none comes before a newer one.
pub proof fn newer_submissions_come_first(rows: Seq<SubmissionView>, i: int, j: int)
    requires
        0 <= i < j < rows.len(),
    ensures
        newest_first(rows).len() == rows.len(),
        0 <= newest_first(rows)[i] < rows.len(),
        rows[newest_first(rows)[i]].created_at >= rows[newest_first(rows)[j]].created_at,
{
    let keys = rows.map_values(|s: SubmissionView| submission_key(s));
    ranking_is_permutation(keys);
    let n = rows.len() as int;
    ranking_is_sorted(keys, n - 1 - j, n - 1 - i);
    let order = ranking(keys);
    let a = order[n - 1 - j];
    let b = order[n - 1 - i];
    assert(newest_first(rows)[i] == b && newest_first(rows)[j] == a);
    if keys[a] != keys[b] && keys[a][0] != keys[b][0] {
        lex_less_at(keys[a], keys[b], 0);
    }
    assert(keys[a][0] == time_code(rows[a].created_at));
    assert(keys[b][0] == time_code(rows[b].created_at));
}

/// Just the validations that passed or failed are counted, with the bytes of their output.
pub proof fn finished_validations_are_counted(
    rows: Seq<SubmissionView>,
    places: Seq<int>,
    p: int,
)
    requires
        0 <= p < rows.len(),
    ensures
        ({
            let s = rows[p];
            let before = finished_at(rows, places);
            let then = finished_at(rows, places.push(p));
            let done = s.validation_status == "passed"@ || s.validation_status == "failed"@;
            &&& !done ==> then == before
            &&& done ==> then.len() == before.len() + 1 && then.last().reference == s.reference
                && then.last().failed == (s.validation_status == "failed"@) && (then.last().size
                is Some <==> s.build_output is Some)
        }),
{
    assert(places.push(p).drop_last() =~= places);
}

} // verus!

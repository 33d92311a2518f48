//! The record as a whole, and what each operation does to it.
use crate::failure::{refuse, Failure};
use crate::path::{is_under, lies_under};
use crate::reference::{reference_letter, validate_reference};
use crate::state::records::{
    CheckRecord, CheckRecordView, Submission, SubmissionView, SyncRecord, SyncRecordView, Workspace,
    WorkspaceRow, WorkspaceRowView, WorkspaceView,
};
use crate::order::{key_list, positions, rank, ranking};
use crate::text::json::{json_list, to_json_list};
use crate::text::make::{
    byte_length, cat2, cat3, cat5, own, prefix_all, prefix_step, push_str, same,
};
use crate::text::number::{decimal, show, show_signed, signed_decimal};
use crate::text::scan::{cut, opt_string, split_once};
use vstd::prelude::*;

verus! {

/// Everything that is recorded.
#[derive(Debug)]
pub struct State {
    pub counters: Vec<(char, u64)>,
    pub workspaces: Vec<WorkspaceRow>,
    pub checks: Vec<CheckRecord>,
    pub syncs: Vec<SyncRecord>,
    pub submissions: Vec<Submission>,
}

/// The contents of a [`State`].
pub struct StateView {
    pub counters: Seq<(char, u64)>,
    pub workspaces: Seq<WorkspaceRowView>,
    pub checks: Seq<CheckRecordView>,
    pub syncs: Seq<SyncRecordView>,
    pub submissions: Seq<SubmissionView>,
}

/// The contents of the workspace rows.
pub open spec fn workspace_rows(rows: Seq<WorkspaceRow>) -> Seq<WorkspaceRowView> {
    rows.map_values(|r: WorkspaceRow| r@)
}

/// The contents of the check records.
pub open spec fn check_rows(rows: Seq<CheckRecord>) -> Seq<CheckRecordView> {
    rows.map_values(|r: CheckRecord| r@)
}

/// The contents of the synchronisations.
pub open spec fn sync_rows(rows: Seq<SyncRecord>) -> Seq<SyncRecordView> {
    rows.map_values(|r: SyncRecord| r@)
}

/// The contents of the submissions.
pub open spec fn submission_rows(rows: Seq<Submission>) -> Seq<SubmissionView> {
    rows.map_values(|r: Submission| r@)
}

impl View for State {
    type V = StateView;

    open spec fn view(&self) -> StateView {
        StateView {
            counters: self.counters@,
            workspaces: workspace_rows(self.workspaces@),
            checks: check_rows(self.checks@),
            syncs: sync_rows(self.syncs@),
            submissions: submission_rows(self.submissions@),
        }
    }
}

/// A workspace of that reference is recorded, deleted or not.
pub open spec fn known(workspaces: Seq<WorkspaceRowView>, reference: Seq<char>) -> bool {
    exists|i: int|
        0 <= i < workspaces.len() && (#[trigger] workspaces[i]).workspace.reference == reference
}

/// Each kind has one counter.
pub open spec fn single_counters(rows: Seq<(char, u64)>) -> bool {
    forall|i: int, j: int|
        0 <= i < j < rows.len() ==> (#[trigger] rows[i]).0 != (#[trigger] rows[j]).0
}

/// No two workspaces share a reference, a name or a path.
pub open spec fn distinct_workspaces(rows: Seq<WorkspaceRowView>) -> bool {
    forall|i: int, j: int|
        0 <= i < j < rows.len() ==> !collide(
            (#[trigger] rows[i]).workspace,
            (#[trigger] rows[j]).workspace,
        )
}

/// No two checks share a reference, and each belongs to a recorded workspace.
pub open spec fn sound_checks(
    rows: Seq<CheckRecordView>,
    workspaces: Seq<WorkspaceRowView>,
) -> bool {
    &&& forall|i: int, j: int|
        0 <= i < j < rows.len() ==> (#[trigger] rows[i]).reference != (
        #[trigger] rows[j]).reference
    &&& forall|i: int|
        0 <= i < rows.len() ==> known(workspaces, (#[trigger] rows[i]).workspace_ref)
}

/// No two synchronisations share a reference, and each belongs to a recorded workspace.
pub open spec fn sound_syncs(
    rows: Seq<SyncRecordView>,
    workspaces: Seq<WorkspaceRowView>,
) -> bool {
    &&& forall|i: int, j: int|
        0 <= i < j < rows.len() ==> (#[trigger] rows[i]).reference != (
        #[trigger] rows[j]).reference
    &&& forall|i: int|
        0 <= i < rows.len() ==> known(workspaces, (#[trigger] rows[i]).workspace_ref)
}

/// No two submissions share a reference, and each belongs to a recorded workspace.
pub open spec fn sound_submissions(
    rows: Seq<SubmissionView>,
    workspaces: Seq<WorkspaceRowView>,
) -> bool {
    &&& forall|i: int, j: int|
        0 <= i < j < rows.len() ==> (#[trigger] rows[i]).reference != (
        #[trigger] rows[j]).reference
    &&& forall|i: int|
        0 <= i < rows.len() ==> known(workspaces, (#[trigger] rows[i]).workspace_ref)
}

impl StateView {
    /// No two rows of a table share what identifies them, and every row belongs to a
    /// recorded workspace.
    pub open spec fn valid(self) -> bool {
        &&& single_counters(self.counters)
        &&& distinct_workspaces(self.workspaces)
        &&& sound_checks(self.checks, self.workspaces)
        &&& sound_syncs(self.syncs, self.workspaces)
        &&& sound_submissions(self.submissions, self.workspaces)
    }
}

/// Two workspaces that cannot both be recorded.
pub open spec fn collide(a: WorkspaceView, b: WorkspaceView) -> bool {
    a.reference == b.reference || a.name == b.name || a.path == b.path
}

/// The last number that was given out for a kind.
pub open spec fn counter(counters: Seq<(char, u64)>, kind: char) -> u64
    decreases counters.len(),
{
    if counters.len() == 0 {
        0
    } else if counters.last().0 == kind {
        counters.last().1
    } else {
        counter(counters.drop_last(), kind)
    }
}

/// A submission whose validation has the given status.
pub open spec fn has_status(s: SubmissionView, status: Seq<char>) -> bool {
    s.validation_status == status
}

/// Some submission has the given status.
pub open spec fn any_status(rows: Seq<SubmissionView>, status: Seq<char>) -> bool {
    exists|i: int| 0 <= i < rows.len() && has_status(#[trigger] rows[i], status)
}

/// Where the newest queued submission stands: the one created last, and of those
/// created at the same time the one recorded last.
pub open spec fn newest_queued(rows: Seq<SubmissionView>) -> Option<int>
    decreases rows.len(),
{
    if rows.len() == 0 {
        None
    } else {
        let earlier = newest_queued(rows.drop_last());
        if has_status(rows.last(), "queued"@) && match earlier {
            Some(k) => rows[k].created_at <= rows.last().created_at,
            None => true,
        } {
            Some(rows.len() - 1)
        } else {
            earlier
        }
    }
}

/// The submission once its validation has started.
pub open spec fn started(s: SubmissionView) -> SubmissionView {
    SubmissionView { validation_status: "running"@, ..s }
}

/// The submission once a newer one is validated in its place.
pub open spec fn covered(s: SubmissionView, by: Seq<char>) -> SubmissionView {
    SubmissionView { validation_status: "skipped"@, validated_by: Some(by), ..s }
}

/// The submissions once the validation of number `k` has started: it covers every
/// other queued one.
pub open spec fn coalesced(rows: Seq<SubmissionView>, k: int) -> Seq<SubmissionView> {
    Seq::new(
        rows.len(),
        |i: int|
            if i == k {
                started(rows[i])
            } else if has_status(rows[i], "queued"@) {
                covered(rows[i], rows[k].reference)
            } else {
                rows[i]
            },
    )
}

/// The submissions with every running validation put back into the queue.
pub open spec fn requeued(rows: Seq<SubmissionView>) -> Seq<SubmissionView> {
    rows.map_values(
        |s: SubmissionView|
            if has_status(s, "running"@) {
                SubmissionView { validation_status: "queued"@, ..s }
            } else {
                s
            },
    )
}

/// The submissions with the outcome of one validation.
pub open spec fn concluded(
    rows: Seq<SubmissionView>,
    reference: Seq<char>,
    passed: bool,
    detail: Seq<char>,
) -> Seq<SubmissionView> {
    rows.map_values(
        |s: SubmissionView|
            if s.reference == reference {
                SubmissionView {
                    validation_status: if passed {
                        "passed"@
                    } else {
                        "failed"@
                    },
                    validation_detail: Some(detail),
                    ..s
                }
            } else {
                s
            },
    )
}

/// A validation that passed is recorded as passed and one that failed as failed, with its
/// detail, in the submission of that reference; nothing else of it changes, and no other
/// submission does.
pub proof fn outcomes_are_recorded(
    rows: Seq<SubmissionView>,
    reference: Seq<char>,
    passed: bool,
    detail: Seq<char>,
    i: int,
)
    requires
        0 <= i < rows.len(),
    ensures
        concluded(rows, reference, passed, detail).len() == rows.len(),
        rows[i].reference != reference ==> concluded(rows, reference, passed, detail)[i] == rows[i],
        rows[i].reference == reference && passed ==> concluded(rows, reference, passed, detail)[i]
            == (SubmissionView {
            validation_status: "passed"@,
            validation_detail: Some(detail),
            ..rows[i]
        }),
        rows[i].reference == reference && !passed ==> concluded(rows, reference, passed, detail)[i]
            == (SubmissionView {
            validation_status: "failed"@,
            validation_detail: Some(detail),
            ..rows[i]
        }),
{
}

/// The checks of other workspaces.
pub open spec fn checks_elsewhere(
    rows: Seq<CheckRecordView>,
    workspace_ref: Seq<char>,
) -> Seq<CheckRecordView>
    decreases rows.len(),
{
    if rows.len() == 0 {
        Seq::empty()
    } else {
        let earlier = checks_elsewhere(rows.drop_last(), workspace_ref);
        if rows.last().workspace_ref == workspace_ref {
            earlier
        } else {
            earlier.push(rows.last())
        }
    }
}

/// Whether a workspace may be recorded beside the others.
pub open spec fn admissible(rows: Seq<WorkspaceRowView>, w: WorkspaceView) -> bool {
    forall|i: int| 0 <= i < rows.len() ==> !collide((#[trigger] rows[i]).workspace, w)
}

/// The workspace once it is deleted: its name and path are free again.
pub open spec fn retired(w: WorkspaceView) -> WorkspaceView {
    WorkspaceView {
        reference: w.reference,
        name: w.name + "#deleted#"@ + w.reference,
        path: "<deleted:"@ + w.reference + ">"@,
        branch: "<deleted>"@,
    }
}

/// Where the workspace of that reference stands, if it is not deleted.
pub open spec fn active_at(rows: Seq<WorkspaceRowView>, reference: Seq<char>) -> Option<int>
    decreases rows.len(),
{
    if rows.len() == 0 {
        None
    } else if rows.last().workspace.reference == reference && rows.last().deleted_at is None {
        Some(rows.len() - 1)
    } else {
        active_at(rows.drop_last(), reference)
    }
}

/// The rows with number `k` deleted at `now`.
pub open spec fn retired_at(
    rows: Seq<WorkspaceRowView>,
    k: int,
    now: i64,
) -> Seq<WorkspaceRowView> {
    rows.update(
        k,
        WorkspaceRowView {
            workspace: retired(rows[k].workspace),
            deleted_at: Some(now),
            ..rows[k]
        },
    )
}

/// The rows that are not deleted.
pub open spec fn active_rows(rows: Seq<WorkspaceRowView>) -> Seq<WorkspaceRowView>
    decreases rows.len(),
{
    if rows.len() == 0 {
        Seq::empty()
    } else if rows.last().deleted_at is None {
        active_rows(rows.drop_last()).push(rows.last())
    } else {
        active_rows(rows.drop_last())
    }
}

/// A time as a number that orders like it.
pub open spec fn time_key(t: i64) -> u64 {
    (t + 0x8000_0000_0000_0000) as u64
}

/// The keys that order rows by their creation.
pub open spec fn creation_keys(rows: Seq<WorkspaceRowView>) -> Seq<Seq<u64>> {
    rows.map_values(|r: WorkspaceRowView| seq![time_key(r.created_at)])
}

/// The workspaces that are not deleted, the oldest first, those of one age in the
/// order in which they were recorded.
pub open spec fn listed(rows: Seq<WorkspaceRowView>) -> Seq<WorkspaceView> {
    let active = active_rows(rows);
    let order = ranking(creation_keys(active));
    Seq::new(active.len(), |i: int| active[order[i]].workspace)
}

/// The contents of a list of workspaces.
pub open spec fn workspace_views(list: Seq<Workspace>) -> Seq<WorkspaceView> {
    list.map_values(|w: Workspace| w@)
}

/// The number of the listed workspace that contains `cwd` and has the longest path,
/// the last of them.
pub open spec fn deepest(list: Seq<WorkspaceView>, cwd: Seq<char>) -> Option<int>
    decreases list.len(),
{
    if list.len() == 0 {
        None
    } else {
        let earlier = deepest(list.drop_last(), cwd);
        if lies_under(cwd, list.last().path) && match earlier {
            Some(k) => byte_length(list[k].path) <= byte_length(list.last().path),
            None => true,
        } {
            Some(list.len() - 1)
        } else {
            earlier
        }
    }
}

/// Where the newest check of a target in a workspace stands, of those created at the
/// same time the one recorded first.
pub open spec fn newest_check(
    rows: Seq<CheckRecordView>,
    workspace_ref: Seq<char>,
    target: Seq<char>,
) -> Option<int>
    decreases rows.len(),
{
    if rows.len() == 0 {
        None
    } else {
        let earlier = newest_check(rows.drop_last(), workspace_ref, target);
        if rows.last().workspace_ref == workspace_ref && rows.last().target == target
            && match earlier {
            Some(k) => rows[k].created_at < rows.last().created_at,
            None => true,
        } {
            Some(rows.len() - 1)
        } else {
            earlier
        }
    }
}

/// The checks of a workspace.
pub open spec fn checks_here(
    rows: Seq<CheckRecordView>,
    workspace_ref: Seq<char>,
) -> Seq<CheckRecordView>
    decreases rows.len(),
{
    if rows.len() == 0 {
        Seq::empty()
    } else {
        let earlier = checks_here(rows.drop_last(), workspace_ref);
        if rows.last().workspace_ref == workspace_ref {
            earlier.push(rows.last())
        } else {
            earlier
        }
    }
}

/// The keys that put the newest check first.
pub open spec fn recency_keys(rows: Seq<CheckRecordView>) -> Seq<Seq<u64>> {
    rows.map_values(|r: CheckRecordView| seq![(u64::MAX - time_key(r.created_at)) as u64])
}

/// The checks of a workspace, the newest first, those of one age in the order in
/// which they were recorded.
pub open spec fn recent_checks(
    rows: Seq<CheckRecordView>,
    workspace_ref: Seq<char>,
) -> Seq<CheckRecordView> {
    let here = checks_here(rows, workspace_ref);
    let order = ranking(recency_keys(here));
    Seq::new(here.len(), |i: int| here[order[i]])
}

/// The name under which a workspace is shown.
pub open spec fn shown_name(row: WorkspaceRowView) -> Seq<char> {
    if row.deleted_at is None {
        row.workspace.name
    } else {
        match cut(row.workspace.name, "#deleted#"@) {
            Some(sides) => sides.0,
            None => Seq::empty(),
        }
    }
}

/// How a workspace is shown.
pub open spec fn workspace_text(row: WorkspaceRowView) -> Seq<char> {
    row.workspace.reference + " workspace "@ + shown_name(row) + "\npath: "@ + row.workspace.path
        + "\nbranch: "@ + row.workspace.branch + "\ncreated: "@ + signed_decimal(
        row.created_at as int,
    ) + "\nlast active: "@ + signed_decimal(row.last_active as int) + "\nstatus: "@ + (
    if row.deleted_at is Some {
        "deleted"@
    } else {
        "active"@
    })
}

/// How a check is shown.
pub open spec fn check_text(row: CheckRecordView) -> Seq<char> {
    row.reference + " check passed\nworkspace: "@ + row.workspace_ref + "\ntarget: "@ + row.target
        + "\nsource version: "@ + decimal(row.source_version as nat) + "\nfingerprint: "@
        + row.fingerprint + "\ndependencies: "@ + json_list(row.dependencies) + "\ncreated: "@
        + signed_decimal(row.created_at as int)
}

/// An optional text, or nothing.
pub open spec fn or_empty(text: Option<Seq<char>>) -> Seq<char> {
    match text {
        Some(t) => t,
        None => Seq::empty(),
    }
}

/// How a submission is shown.
pub open spec fn submission_text(row: SubmissionView) -> Seq<char> {
    row.reference + " submission\nworkspace: "@ + row.workspace_ref + "\nworkspace commit: "@
        + row.workspace_commit + "\nmain commit: "@ + row.main_commit + "\nbase: "@
        + row.base_commit + "\nchecks: "@ + json_list(row.checks) + "\nvalidation: "@
        + row.validation_status + "\ndetail: "@ + or_empty(row.validation_detail)
        + "\nvalidated by: "@ + or_empty(row.validated_by) + "\ncreated: "@ + signed_decimal(
        row.created_at as int,
    )
}

/// How a synchronisation is shown.
pub open spec fn sync_text(row: SyncRecordView) -> Seq<char> {
    row.reference + " sync "@ + row.status + "\nworkspace: "@ + row.workspace_ref + "\ndetail: "@
        + row.detail + "\ncreated: "@ + signed_decimal(row.created_at as int)
}

/// What is shown for a reference: the text of the row it names, and nothing where
/// it is malformed, of another kind, or unknown.
pub open spec fn shows(s: StateView, reference: Seq<char>, text: Seq<char>) -> bool {
    reference_letter(reference) matches Ok(kind) && {
        ||| kind == 'w' && exists|i: int|
            0 <= i < s.workspaces.len() && (#[trigger] s.workspaces[i]).workspace.reference
                == reference && text == workspace_text(s.workspaces[i])
        ||| kind == 'c' && exists|i: int|
            0 <= i < s.checks.len() && (#[trigger] s.checks[i]).reference == reference && text
                == check_text(s.checks[i])
        ||| kind == 's' && exists|i: int|
            0 <= i < s.submissions.len() && (#[trigger] s.submissions[i]).reference == reference
                && text == submission_text(s.submissions[i])
        ||| kind == 'u' && exists|i: int|
            0 <= i < s.syncs.len() && (#[trigger] s.syncs[i]).reference == reference && text
                == sync_text(s.syncs[i])
    }
}

/// Why nothing is shown for a reference.
pub open spec fn show_refusal(reference: Seq<char>) -> Seq<char> {
    match reference_letter(reference) {
        Err(message) => message,
        Ok(kind) => if kind == 'w' || kind == 'c' || kind == 's' || kind == 'u' {
            "unknown reference "@ + reference
        } else {
            "unknown reference type "@ + seq![kind]
        },
    }
}

/// A submission is found to be the newest exactly where one is queued; it is queued
/// itself, and no queued submission was created later.
pub proof fn newest_queued_is_newest(rows: Seq<SubmissionView>)
    ensures
        newest_queued(rows) is Some <==> any_status(rows, "queued"@),
        newest_queued(rows) matches Some(k) ==> {
            &&& 0 <= k < rows.len()
            &&& has_status(rows[k], "queued"@)
            &&& forall|i: int|
                0 <= i < rows.len() && has_status(#[trigger] rows[i], "queued"@)
                    ==> rows[i].created_at <= rows[k].created_at
        },
    decreases rows.len(),
{
    if rows.len() > 0 {
        let shorter = rows.drop_last();
        newest_queued_is_newest(shorter);
        if any_status(rows, "queued"@) && !has_status(rows.last(), "queued"@) {
            let i = choose|i: int| 0 <= i < rows.len() && has_status(#[trigger] rows[i], "queued"@);
            assert(has_status(shorter[i], "queued"@));
        }
        if any_status(shorter, "queued"@) {
            let i = choose|i: int|
                0 <= i < shorter.len() && has_status(#[trigger] shorter[i], "queued"@);
            assert(has_status(rows[i], "queued"@));
        }
        if newest_queued(rows) is Some {
            let k = newest_queued(rows)->0;
            assert forall|i: int|
                0 <= i < rows.len() && has_status(
                    #[trigger] rows[i],
                    "queued"@,
                ) implies rows[i].created_at <= rows[k].created_at by {
                if i < rows.len() - 1 {
                    assert(has_status(shorter[i], "queued"@));
                }
            }
            assert(has_status(rows[k], "queued"@));
        }
    }
}

/// Starting a validation leaves nothing queued, and the started one is the only one
/// that runs.
pub proof fn coalescing_runs_one(rows: Seq<SubmissionView>)
    requires
        !any_status(rows, "running"@),
        newest_queued(rows) is Some,
    ensures
        !any_status(coalesced(rows, newest_queued(rows)->0), "queued"@),
        forall|i: int|
            0 <= i < rows.len() ==> (has_status(
                #[trigger] coalesced(rows, newest_queued(rows)->0)[i],
                "running"@,
            ) <==> i == newest_queued(rows)->0),
{
    let k = newest_queued(rows)->0;
    newest_queued_is_newest(rows);
    reveal_strlit("queued");
    reveal_strlit("running");
    reveal_strlit("skipped");
    assert("queued"@[0] == 'q' && "running"@[0] == 'r' && "skipped"@[0] == 's');
    assert forall|i: int| 0 <= i < rows.len() implies (has_status(
        #[trigger] coalesced(rows, k)[i],
        "running"@,
    ) <==> i == k) && !has_status(coalesced(rows, k)[i], "queued"@) by {
        assert(!has_status(rows[i], "running"@));
    }
}

/// After an interruption the same submission is the next to be validated.
pub proof fn recovery_restarts_the_same(rows: Seq<SubmissionView>)
    requires
        !any_status(rows, "running"@),
        newest_queued(rows) is Some,
    ensures
        newest_queued(requeued(coalesced(rows, newest_queued(rows)->0))) == newest_queued(rows),
        !any_status(requeued(coalesced(rows, newest_queued(rows)->0)), "running"@),
{
    let k = newest_queued(rows)->0;
    let after = requeued(coalesced(rows, k));
    coalescing_runs_one(rows);
    newest_queued_is_newest(rows);
    newest_queued_is_newest(after);
    reveal_strlit("queued");
    reveal_strlit("running");
    assert("queued"@[0] == 'q' && "running"@[0] == 'r');
    assert(has_status(after[k], "queued"@));
    assert forall|i: int| 0 <= i < after.len() && i != k implies !has_status(
        #[trigger] after[i],
        "queued"@,
    ) by {
        assert(!has_status(coalesced(rows, k)[i], "running"@));
        assert(!has_status(coalesced(rows, k)[i], "queued"@));
    }
    assert forall|i: int| 0 <= i < after.len() implies !has_status(
        #[trigger] after[i],
        "running"@,
    ) by {
        assert(has_status(coalesced(rows, k)[i], "running"@) <==> i == k);
    }
}

/// Putting validations back into the queue twice is the same as once.
pub proof fn recovery_is_idempotent(rows: Seq<SubmissionView>)
    ensures
        requeued(requeued(rows)) == requeued(rows),
{
    reveal_strlit("queued");
    reveal_strlit("running");
    assert("queued"@[0] == 'q' && "running"@[0] == 'r');
    assert(requeued(requeued(rows)) =~= requeued(rows));
}

/// Once a workspace is deleted, its name and path can be used again.
pub proof fn deletion_frees_the_name(
    rows: Seq<WorkspaceRowView>,
    k: int,
    now: i64,
    replacement: WorkspaceView,
)
    requires
        distinct_workspaces(rows),
        0 <= k < rows.len(),
        distinct_workspaces(retired_at(rows, k, now)),
        replacement.name == rows[k].workspace.name,
        replacement.path == rows[k].workspace.path,
        replacement.path != "<deleted:"@ + rows[k].workspace.reference + ">"@,
        forall|i: int|
            0 <= i < rows.len() ==> (#[trigger] rows[i]).workspace.reference
                != replacement.reference,
    ensures
        admissible(retired_at(rows, k, now), replacement),
{
    let after = retired_at(rows, k, now);
    reveal_strlit("#deleted#");
    assert forall|i: int| 0 <= i < after.len() implies !collide(
        (#[trigger] after[i]).workspace,
        replacement,
    ) by {
        assert(rows[i].workspace.reference != replacement.reference);
        if i == k {
            assert(after[i].workspace.name.len() > replacement.name.len());
        } else if i < k {
            assert(!collide(rows[i].workspace, rows[k].workspace));
        } else {
            assert(!collide(rows[k].workspace, rows[i].workspace));
        }
    }
}

proof fn active_at_bounds(rows: Seq<WorkspaceRowView>, reference: Seq<char>)
    ensures
        match active_at(rows, reference) {
            Some(k) => 0 <= k < rows.len() && rows[k].workspace.reference == reference
                && rows[k].deleted_at is None,
            None => forall|i: int|
                0 <= i < rows.len() ==> (#[trigger] rows[i]).workspace.reference != reference
                    || rows[i].deleted_at is Some,
        },
    decreases rows.len(),
{
    if rows.len() > 0 {
        active_at_bounds(rows.drop_last(), reference);
        if active_at(rows, reference) is None {
            assert forall|i: int| 0 <= i < rows.len() implies (
            #[trigger] rows[i]).workspace.reference != reference || rows[i].deleted_at is Some by {
                if i < rows.len() - 1 {
                    assert(rows.drop_last()[i] == rows[i]);
                }
            }
        }
    }
}

proof fn still_known(
    before: Seq<WorkspaceRowView>,
    after: Seq<WorkspaceRowView>,
    reference: Seq<char>,
)
    requires
        known(before, reference),
        before.len() <= after.len(),
        forall|i: int|
            0 <= i < before.len() ==> (#[trigger] after[i]).workspace.reference
                == before[i].workspace.reference,
    ensures
        known(after, reference),
{
    let i = choose|i: int|
        0 <= i < before.len() && (#[trigger] before[i]).workspace.reference == reference;
    assert(after[i].workspace.reference == reference);
}

proof fn still_sound(s: StateView, after: Seq<WorkspaceRowView>)
    requires
        s.valid(),
        distinct_workspaces(after),
        s.workspaces.len() <= after.len(),
        forall|i: int|
            0 <= i < s.workspaces.len() ==> (#[trigger] after[i]).workspace.reference
                == s.workspaces[i].workspace.reference,
    ensures
        (StateView { workspaces: after, ..s }).valid(),
{
    assert forall|i: int| 0 <= i < s.checks.len() implies known(
        after,
        (#[trigger] s.checks[i]).workspace_ref,
    ) by {
        still_known(s.workspaces, after, s.checks[i].workspace_ref);
    }
    assert forall|i: int| 0 <= i < s.syncs.len() implies known(
        after,
        (#[trigger] s.syncs[i]).workspace_ref,
    ) by {
        still_known(s.workspaces, after, s.syncs[i].workspace_ref);
    }
    assert forall|i: int| 0 <= i < s.submissions.len() implies known(
        after,
        (#[trigger] s.submissions[i]).workspace_ref,
    ) by {
        still_known(s.workspaces, after, s.submissions[i].workspace_ref);
    }
}

pub proof fn same_owners(
    before: Seq<SubmissionView>,
    after: Seq<SubmissionView>,
    workspaces: Seq<WorkspaceRowView>,
)
    requires
        sound_submissions(before, workspaces),
        after.len() == before.len(),
        forall|i: int|
            0 <= i < after.len() ==> (#[trigger] after[i]).reference == before[i].reference
                && after[i].workspace_ref == before[i].workspace_ref,
    ensures
        sound_submissions(after, workspaces),
{
    assert forall|i: int| 0 <= i < after.len() implies known(
        workspaces,
        (#[trigger] after[i]).workspace_ref,
    ) by {
        assert(known(workspaces, before[i].workspace_ref));
    }
    assert forall|i: int, j: int| 0 <= i < j < after.len() implies (#[trigger] after[i]).reference
        != (#[trigger] after[j]).reference by {
        assert(before[i].reference != before[j].reference);
    }
}

proof fn counter_at(rows: Seq<(char, u64)>, k: int)
    requires
        0 <= k < rows.len(),
        single_counters(rows),
    ensures
        counter(rows, rows[k].0) == rows[k].1,
    decreases rows.len(),
{
    if k < rows.len() - 1 {
        assert(rows[k].0 != rows[rows.len() - 1].0);
        assert(single_counters(rows.drop_last())) by {
            assert forall|i: int, j: int| 0 <= i < j < rows.drop_last().len() implies (
            #[trigger] rows.drop_last()[i]).0 != (#[trigger] rows.drop_last()[j]).0 by {
                assert(rows[i].0 != rows[j].0);
            }
        }
        counter_at(rows.drop_last(), k);
    }
}

proof fn counter_absent(rows: Seq<(char, u64)>, kind: char)
    requires
        forall|j: int| 0 <= j < rows.len() ==> (#[trigger] rows[j]).0 != kind,
    ensures
        counter(rows, kind) == 0,
    decreases rows.len(),
{
    if rows.len() > 0 {
        assert forall|j: int| 0 <= j < rows.drop_last().len() implies (
        #[trigger] rows.drop_last()[j]).0 != kind by {
            assert(rows[j].0 != kind);
        }
        counter_absent(rows.drop_last(), kind);
    }
}

proof fn counter_updated(rows: Seq<(char, u64)>, k: int, value: u64, other: char)
    requires
        0 <= k < rows.len(),
        single_counters(rows),
    ensures
        counter(rows.update(k, (rows[k].0, value)), other) == if other == rows[k].0 {
            value
        } else {
            counter(rows, other)
        },
    decreases rows.len(),
{
    let after = rows.update(k, (rows[k].0, value));
    assert(single_counters(after)) by {
        assert forall|i: int, j: int| 0 <= i < j < after.len() implies (#[trigger] after[i]).0 != (
        #[trigger] after[j]).0 by {
            assert(rows[i].0 != rows[j].0);
        }
    }
    if other == rows[k].0 {
        counter_at(after, k);
    } else if k == rows.len() - 1 {
        assert(after.drop_last() =~= rows.drop_last());
    } else {
        assert(single_counters(rows.drop_last())) by {
            assert forall|i: int, j: int| 0 <= i < j < rows.drop_last().len() implies (
            #[trigger] rows.drop_last()[i]).0 != (#[trigger] rows.drop_last()[j]).0 by {
                assert(rows[i].0 != rows[j].0);
            }
        }
        counter_updated(rows.drop_last(), k, value, other);
        assert(after.drop_last() =~= rows.drop_last().update(k, (rows[k].0, value)));
    }
}

proof fn checks_elsewhere_from(
    rows: Seq<CheckRecordView>,
    workspace_ref: Seq<char>,
    i: int,
) -> (k: int)
    requires
        0 <= i < checks_elsewhere(rows, workspace_ref).len(),
    ensures
        i <= k < rows.len(),
        rows[k] == checks_elsewhere(rows, workspace_ref)[i],
        rows[k].workspace_ref != workspace_ref,
    decreases rows.len(),
{
    let earlier = checks_elsewhere(rows.drop_last(), workspace_ref);
    if i < earlier.len() {
        checks_elsewhere_from(rows.drop_last(), workspace_ref, i)
    } else {
        checks_elsewhere_shorter(rows.drop_last(), workspace_ref);
        rows.len() - 1
    }
}

proof fn checks_elsewhere_shorter(rows: Seq<CheckRecordView>, workspace_ref: Seq<char>)
    ensures
        checks_elsewhere(rows, workspace_ref).len() <= rows.len(),
    decreases rows.len(),
{
    if rows.len() > 0 {
        checks_elsewhere_shorter(rows.drop_last(), workspace_ref);
    }
}

proof fn checks_elsewhere_sound(
    rows: Seq<CheckRecordView>,
    workspace_ref: Seq<char>,
    workspaces: Seq<WorkspaceRowView>,
)
    requires
        sound_checks(rows, workspaces),
    ensures
        sound_checks(checks_elsewhere(rows, workspace_ref), workspaces),
    decreases rows.len(),
{
    let after = checks_elsewhere(rows, workspace_ref);
    if rows.len() > 0 {
        let shorter = rows.drop_last();
        assert(sound_checks(shorter, workspaces)) by {
            assert forall|i: int, j: int| 0 <= i < j < shorter.len() implies (
            #[trigger] shorter[i]).reference != (#[trigger] shorter[j]).reference by {
                assert(rows[i].reference != rows[j].reference);
            }
            assert forall|i: int| 0 <= i < shorter.len() implies known(
                workspaces,
                (#[trigger] shorter[i]).workspace_ref,
            ) by {
                assert(known(workspaces, rows[i].workspace_ref));
            }
        }
        checks_elsewhere_sound(shorter, workspace_ref, workspaces);
        if rows.last().workspace_ref != workspace_ref {
            assert forall|i: int, j: int| 0 <= i < j < after.len() implies (
            #[trigger] after[i]).reference != (#[trigger] after[j]).reference by {
                if j == after.len() - 1 {
                    let k = checks_elsewhere_from(shorter, workspace_ref, i);
                    assert(rows[k].reference != rows[rows.len() - 1].reference);
                }
            }
            assert(known(workspaces, rows[rows.len() - 1].workspace_ref));
        }
    }
}

impl State {
    /// An empty record.
    pub fn new() -> (r: State)
        ensures
            r@.counters.len() == 0,
            r@.workspaces.len() == 0,
            r@.checks.len() == 0,
            r@.syncs.len() == 0,
            r@.submissions.len() == 0,
            r@.valid(),
    {
        State {
            counters: Vec::new(),
            workspaces: Vec::new(),
            checks: Vec::new(),
            syncs: Vec::new(),
            submissions: Vec::new(),
        }
    }

    /// Whether a validation waits or runs.
    pub fn has_validation_work(&self) -> (r: bool)
        ensures
            r == (any_status(self@.submissions, "queued"@) || any_status(
                self@.submissions,
                "running"@,
            )),
    {
        for i in 0..self.submissions.len()
            invariant
                forall|j: int|
                    0 <= j < i ==> !has_status(#[trigger] self@.submissions[j], "queued"@)
                        && !has_status(self@.submissions[j], "running"@),
        {
            let status = self.submissions[i].validation_status.as_str();
            assert(self@.submissions[i as int].validation_status == status@);
            if same(status, "queued") || same(status, "running") {
                return true;
            }
        }
        false
    }

    /// The submission of that reference.
    pub fn submission(&self, reference: &str) -> (r: Option<Submission>)
        requires
            self@.valid(),
        ensures
            match r {
                Some(s) => s@.reference == reference@ && self@.submissions.contains(s@),
                None => forall|i: int|
                    0 <= i < self@.submissions.len() ==> (#[trigger] self@.submissions[i]).reference
                        != reference@,
            },
    {
        for i in 0..self.submissions.len()
            invariant
                forall|j: int|
                    0 <= j < i ==> (#[trigger] self@.submissions[j]).reference != reference@,
        {
            assert(self@.submissions[i as int] == self.submissions[i as int]@);
            if same(self.submissions[i].reference.as_str(), reference) {
                return Some(self.submissions[i].copy());
            }
        }
        None
    }

    fn newest(&self) -> (r: Option<usize>)
        ensures
            match r {
                Some(k) => newest_queued(self@.submissions) == Some(k as int) && k
                    < self.submissions.len(),
                None => newest_queued(self@.submissions) is None,
            },
    {
        let ghost rows = self@.submissions;
        let mut best: Option<usize> = None;
        for i in 0..self.submissions.len()
            invariant
                rows == submission_rows(self.submissions@),
                match best {
                    Some(k) => newest_queued(rows.take(i as int)) == Some(k as int) && k < i,
                    None => newest_queued(rows.take(i as int)) is None,
                },
        {
            proof {
                prefix_step(rows, i as int);
            }
            let row = &self.submissions[i];
            assert(rows[i as int] == row@);
            if same(row.validation_status.as_str(), "queued") {
                match best {
                    Some(k) => {
                        assert(rows.take(i + 1)[k as int] == rows[k as int]);
                        assert(rows[k as int] == self.submissions[k as int]@);
                        if self.submissions[k].created_at <= row.created_at {
                            best = Some(i);
                        }
                    },
                    None => {
                        best = Some(i);
                    },
                }
            }
        }
        proof {
            prefix_all(rows);
        }
        best
    }

    /// Starts the validation of the newest queued submission, which then covers every
    /// other queued one, unless a validation is running already.
    pub fn next_validation(&mut self) -> (r: Option<Submission>)
        requires
            old(self)@.valid(),
        ensures
            final(self)@.valid(),
            match r {
                Some(s) => {
                    &&& !any_status(old(self)@.submissions, "running"@)
                    &&& newest_queued(old(self)@.submissions) matches Some(k)
                    &&& s@ == started(old(self)@.submissions[k])
                    &&& final(self)@ == (StateView {
                        submissions: coalesced(old(self)@.submissions, k),
                        ..old(self)@
                    })
                    &&& s@.validation_status == "running"@
                    &&& final(self)@.submissions.contains(s@)
                },
                None => {
                    &&& any_status(old(self)@.submissions, "running"@) || newest_queued(
                        old(self)@.submissions,
                    ) is None
                    &&& final(self)@ == old(self)@
                },
            },
    {
        let ghost rows = self@.submissions;
        for i in 0..self.submissions.len()
            invariant
                rows == submission_rows(self.submissions@),
                *self == *old(self),
                self@.valid(),
                forall|j: int| 0 <= j < i ==> !has_status(#[trigger] rows[j], "running"@),
        {
            assert(rows[i as int] == self.submissions[i as int]@);
            if same(self.submissions[i].validation_status.as_str(), "running") {
                return None;
            }
        }
        let k = match self.newest() {
            Some(k) => k,
            None => {
                return None;
            },
        };
        assert(rows[k as int] == self.submissions[k as int]@);
        let newest = self.submissions[k].reference.clone();
        let mut updated: Vec<Submission> = Vec::new();
        let total = self.submissions.len();
        for i in 0..total
            invariant
                rows == submission_rows(self.submissions@),
                total == self.submissions.len(),
                *self == *old(self),
                k < total,
                newest@ == rows[k as int].reference,
                submission_rows(updated@) == coalesced(rows, k as int).take(i as int),
        {
            let mut row = self.submissions[i].copy();
            assert(row@ == rows[i as int]);
            if i == k {
                row.validation_status = own("running");
            } else if same(row.validation_status.as_str(), "queued") {
                row.validation_status = own("skipped");
                row.validated_by = Some(newest.clone());
            }
            assert(row@ == coalesced(rows, k as int)[i as int]);
            proof {
                prefix_step(coalesced(rows, k as int), i as int);
            }
            let ghost before = updated@;
            updated.push(row);
            assert(submission_rows(updated@) =~= submission_rows(before).push(row@));
        }
        proof {
            prefix_all(coalesced(rows, k as int));
        }
        self.submissions = updated;
        let chosen = self.submissions[k].copy();
        assert(self@.submissions[k as int] == self.submissions[k as int]@);
        proof {
            same_owners(rows, coalesced(rows, k as int), self@.workspaces);
        }
        Some(chosen)
    }

    /// Puts every running validation back into the queue.
    pub fn recover_validation(&mut self)
        requires
            old(self)@.valid(),
        ensures
            final(self)@ == (StateView {
                submissions: requeued(old(self)@.submissions),
                ..old(self)@
            }),
            final(self)@.valid(),
    {
        let ghost rows = self@.submissions;
        let ghost workspaces = self@.workspaces;
        let mut updated: Vec<Submission> = Vec::new();
        let total = self.submissions.len();
        for i in 0..total
            invariant
                rows == submission_rows(self.submissions@),
                total == self.submissions.len(),
                *self == *old(self),
                submission_rows(updated@) == requeued(rows).take(i as int),
        {
            let mut row = self.submissions[i].copy();
            assert(row@ == rows[i as int]);
            if same(row.validation_status.as_str(), "running") {
                row.validation_status = own("queued");
            }
            proof {
                prefix_step(requeued(rows), i as int);
            }
            let ghost before = updated@;
            updated.push(row);
            assert(submission_rows(updated@) =~= submission_rows(before).push(row@));
        }
        proof {
            prefix_all(requeued(rows));
            same_owners(rows, requeued(rows), workspaces);
        }
        self.submissions = updated;
    }

    /// Records the outcome of a validation.
    pub fn finish_validation(&mut self, reference: &str, passed: bool, detail: &str)
        requires
            old(self)@.valid(),
        ensures
            final(self)@ == (StateView {
                submissions: concluded(old(self)@.submissions, reference@, passed, detail@),
                ..old(self)@
            }),
            final(self)@.valid(),
            final(self)@.submissions.len() == old(self)@.submissions.len(),
            forall|i: int|
                0 <= i < old(self)@.submissions.len() ==> {
                    let before = #[trigger] old(self)@.submissions[i];
                    let after = final(self)@.submissions[i];
                    &&& before.reference != reference@ ==> after == before
                    &&& before.reference == reference@ && passed ==> after == (SubmissionView {
                        validation_status: "passed"@,
                        validation_detail: Some(detail@),
                        ..before
                    })
                    &&& before.reference == reference@ && !passed ==> after == (SubmissionView {
                        validation_status: "failed"@,
                        validation_detail: Some(detail@),
                        ..before
                    })
                },
    {
        let ghost rows = self@.submissions;
        let ghost workspaces = self@.workspaces;
        let ghost after = concluded(rows, reference@, passed, detail@);
        let mut updated: Vec<Submission> = Vec::new();
        let total = self.submissions.len();
        for i in 0..total
            invariant
                rows == submission_rows(self.submissions@),
                total == self.submissions.len(),
                *self == *old(self),
                after == concluded(rows, reference@, passed, detail@),
                submission_rows(updated@) == after.take(i as int),
        {
            let mut row = self.submissions[i].copy();
            assert(row@ == rows[i as int]);
            if same(row.reference.as_str(), reference) {
                row.validation_status = own(if passed { "passed" } else { "failed" });
                row.validation_detail = Some(own(detail));
            }
            proof {
                prefix_step(after, i as int);
            }
            let ghost before = updated@;
            updated.push(row);
            assert(submission_rows(updated@) =~= submission_rows(before).push(row@));
        }
        proof {
            prefix_all(after);
            same_owners(rows, after, workspaces);
        }
        self.submissions = updated;
    }

    fn knows(&self, reference: &str) -> (r: bool)
        ensures
            r == known(self@.workspaces, reference@),
    {
        for i in 0..self.workspaces.len()
            invariant
                forall|j: int|
                    0 <= j < i ==> (#[trigger] self@.workspaces[j]).workspace.reference
                        != reference@,
        {
            assert(self@.workspaces[i as int] == self.workspaces[i as int]@);
            if same(self.workspaces[i].workspace.reference.as_str(), reference) {
                return true;
            }
        }
        false
    }

    /// The last number that was given out for a kind.
    pub fn last_number(&self, kind: char) -> (r: u64)
        ensures
            r == counter(self@.counters, kind),
    {
        let ghost rows = self.counters@;
        let mut n: usize = self.counters.len();
        proof {
            crate::text::make::prefix_all(rows);
        }
        while n > 0
            invariant
                n <= self.counters.len(),
                rows == self.counters@,
                counter(rows, kind) == counter(rows.take(n as int), kind),
            decreases n,
        {
            n -= 1;
            proof {
                crate::text::make::prefix_step(rows, n as int);
            }
            if self.counters[n].0 == kind {
                return self.counters[n].1;
            }
        }
        0
    }

    /// Gives out the next reference of a kind.
    pub fn next_ref(&mut self, kind: char) -> (r: String)
        requires
            old(self)@.valid(),
            counter(old(self)@.counters, kind) < u64::MAX,
        ensures
            r@ == seq![kind] + decimal((counter(old(self)@.counters, kind) + 1) as nat),
            final(self)@ == (StateView { counters: final(self)@.counters, ..old(self)@ }),
            final(self)@.valid(),
            forall|other: char| #[trigger]
                counter(final(self)@.counters, other) == if other == kind {
                    (counter(old(self)@.counters, kind) + 1) as u64
                } else {
                    counter(old(self)@.counters, other)
                },
    {
        let ghost rows = self.counters@;
        let mut found: Option<usize> = None;
        for i in 0..self.counters.len()
            invariant
                rows == self.counters@,
                *self == *old(self),
                match found {
                    Some(k) => k < i && rows[k as int].0 == kind,
                    None => forall|j: int| 0 <= j < i ==> (#[trigger] rows[j]).0 != kind,
                },
        {
            if self.counters[i].0 == kind {
                found = Some(i);
            }
        }
        let value: u64;
        match found {
            Some(k) => {
                proof {
                    counter_at(rows, k as int);
                }
                value = self.counters[k].1 + 1;
                self.counters.set(k, (kind, value));
                proof {
                    assert forall|other: char| #[trigger]
                        counter(self.counters@, other) == if other == kind {
                            value
                        } else {
                            counter(rows, other)
                        } by {
                        counter_updated(rows, k as int, value, other);
                    }
                }
            },
            None => {
                proof {
                    counter_absent(rows, kind);
                }
                value = 1;
                self.counters.push((kind, value));
                proof {
                    assert(self.counters@.drop_last() =~= rows);
                }
            },
        }
        let mut out = String::new();
        out.push(kind);
        let number = show(value);
        assert(out@ =~= seq![kind]);
        push_str(&mut out, number.as_str());
        out
    }

    /// Removes every check of a workspace.
    pub fn delete_checks(&mut self, workspace_ref: &str)
        requires
            old(self)@.valid(),
        ensures
            final(self)@ == (StateView {
                checks: checks_elsewhere(old(self)@.checks, workspace_ref@),
                ..old(self)@
            }),
            final(self)@.valid(),
    {
        let ghost rows = self@.checks;
        let mut kept: Vec<CheckRecord> = Vec::new();
        let total = self.checks.len();
        for i in 0..total
            invariant
                rows == check_rows(self.checks@),
                total == self.checks.len(),
                *self == *old(self),
                check_rows(kept@) == checks_elsewhere(rows.take(i as int), workspace_ref@),
        {
            proof {
                prefix_step(rows, i as int);
            }
            assert(rows[i as int] == self.checks[i as int]@);
            if !same(self.checks[i].workspace_ref.as_str(), workspace_ref) {
                let row = self.checks[i].copy();
                let ghost before = kept@;
                kept.push(row);
                assert(check_rows(kept@) =~= check_rows(before).push(row@));
            }
        }
        proof {
            prefix_all(rows);
            checks_elsewhere_sound(rows, workspace_ref@, self@.workspaces);
        }
        self.checks = kept;
    }

    fn admits(&self, w: &Workspace) -> (r: bool)
        ensures
            r == admissible(self@.workspaces, w@),
    {
        for i in 0..self.workspaces.len()
            invariant
                forall|j: int|
                    0 <= j < i ==> !collide((#[trigger] self@.workspaces[j]).workspace, w@),
        {
            let other = &self.workspaces[i].workspace;
            assert(self@.workspaces[i as int].workspace == other@);
            if same(other.reference.as_str(), w.reference.as_str()) || same(
                other.name.as_str(),
                w.name.as_str(),
            ) || same(other.path.as_str(), w.path.as_str()) {
                return false;
            }
        }
        true
    }

    /// Records a workspace, unless its reference, name or path is taken.
    pub fn add_workspace(&mut self, workspace: &Workspace, now: i64) -> (r: Result<(), Failure>)
        requires
            old(self)@.valid(),
        ensures
            final(self)@.valid(),
            r is Ok <==> admissible(old(self)@.workspaces, workspace@),
            r is Ok <==> forall|i: int|
                0 <= i < old(self)@.workspaces.len() ==> {
                    let taken = (#[trigger] old(self)@.workspaces[i]).workspace;
                    &&& taken.reference != workspace@.reference
                    &&& taken.name != workspace@.name
                    &&& taken.path != workspace@.path
                },
            r is Ok ==> final(self)@ == (StateView {
                workspaces: old(self)@.workspaces.push(
                    (WorkspaceRowView {
                        workspace: workspace@,
                        created_at: now,
                        last_active: now,
                        deleted_at: None,
                    }),
                ),
                ..old(self)@
            }),
            r matches Err(e) ==> e@ == "workspace already recorded"@ && final(self)@ == old(self)@,
    {
        if !self.admits(workspace) {
            return refuse("workspace already recorded");
        }
        let row = WorkspaceRow {
            workspace: workspace.copy(),
            created_at: now,
            last_active: now,
            deleted_at: None,
        };
        let ghost before = self.workspaces@;
        self.workspaces.push(row);
        proof {
            assert(workspace_rows(self.workspaces@) =~= workspace_rows(before).push(row@));
            still_sound(old(self)@, workspace_rows(self.workspaces@));
        }
        Ok(())
    }

    /// Deletes a workspace and its checks. Its row stays, under a name and a path that
    /// nothing else uses.
    pub fn remove_workspace(&mut self, reference: &str, now: i64) -> (r: Result<(), Failure>)
        requires
            old(self)@.valid(),
        ensures
            final(self)@.valid(),
            match active_at(old(self)@.workspaces, reference@) {
                None => r is Ok && final(self)@ == (StateView {
                    checks: checks_elsewhere(old(self)@.checks, reference@),
                    ..old(self)@
                }),
                Some(k) => {
                    let after = retired_at(old(self)@.workspaces, k, now);
                    &&& r is Ok <==> distinct_workspaces(after)
                    &&& r is Ok ==> final(self)@ == (StateView {
                        workspaces: after,
                        checks: checks_elsewhere(old(self)@.checks, reference@),
                        ..old(self)@
                    })
                    &&& r matches Err(e) ==> e@ == "deleted workspace already recorded"@
                        && final(self)@ == old(self)@
                },
            },
    {
        let ghost rows = self@.workspaces;
        let mut found: Option<usize> = None;
        let total = self.workspaces.len();
        for i in 0..total
            invariant
                total == self.workspaces.len(),
                rows == self@.workspaces,
                *self == *old(self),
                match found {
                    Some(k) => k < i && active_at(rows.take(i as int), reference@) == Some(
                        k as int,
                    ),
                    None => active_at(rows.take(i as int), reference@) is None,
                },
        {
            proof {
                prefix_step(rows, i as int);
            }
            assert(rows[i as int] == self.workspaces[i as int]@);
            if same(self.workspaces[i].workspace.reference.as_str(), reference)
                && self.workspaces[i].deleted_at.is_none() {
                found = Some(i);
            }
        }
        proof {
            prefix_all(rows);
            active_at_bounds(rows, reference@);
        }
        let k = match found {
            Some(k) => k,
            None => {
                self.delete_checks(reference);
                return Ok(());
            },
        };
        assert(rows[k as int] == self.workspaces[k as int]@);
        let ghost after = retired_at(rows, k as int, now);
        let name = cat3(self.workspaces[k].workspace.name.as_str(), "#deleted#", reference);
        let path = cat3("<deleted:", reference, ">");
        for i in 0..total
            invariant
                total == self.workspaces.len(),
                rows == self@.workspaces,
                *self == *old(self),
                self@.valid(),
                k < total,
                active_at(rows, reference@) == Some(k as int),
                after == retired_at(rows, k as int, now),
                after[k as int].workspace.name == name@,
                after[k as int].workspace.path == path@,
                forall|j: int|
                    0 <= j < i && j != k ==> (#[trigger] rows[j]).workspace.name != name@
                        && rows[j].workspace.path != path@,
        {
            assert(rows[i as int] == self.workspaces[i as int]@);
            if i != k && (same(self.workspaces[i].workspace.name.as_str(), name.as_str()) || same(
                self.workspaces[i].workspace.path.as_str(),
                path.as_str(),
            )) {
                proof {
                    assert(after[i as int] == rows[i as int]);
                    if i < k {
                        assert(collide(after[i as int].workspace, after[k as int].workspace));
                    } else {
                        assert(collide(after[k as int].workspace, after[i as int].workspace));
                    }
                }
                return refuse("deleted workspace already recorded");
            }
        }
        proof {
            assert forall|i: int, j: int| 0 <= i < j < after.len() implies !collide(
                (#[trigger] after[i]).workspace,
                (#[trigger] after[j]).workspace,
            ) by {
                assert(!collide(rows[i].workspace, rows[j].workspace));
            }
            still_sound(old(self)@, after);
            checks_elsewhere_sound(old(self)@.checks, reference@, after);
        }
        let row = WorkspaceRow {
            workspace: Workspace {
                reference: self.workspaces[k].workspace.reference.clone(),
                name,
                path,
                branch: own("<deleted>"),
            },
            created_at: self.workspaces[k].created_at,
            last_active: self.workspaces[k].last_active,
            deleted_at: Some(now),
        };
        self.delete_checks(reference);
        let ghost middle = self.workspaces@;
        self.workspaces.set(k, row);
        assert(workspace_rows(self.workspaces@) =~= after);
        Ok(())
    }

    /// Marks a workspace as active now.
    pub fn touch_workspace(&mut self, reference: &str, now: i64)
        requires
            old(self)@.valid(),
        ensures
            final(self)@.valid(),
            final(self)@ == (StateView {
                workspaces: old(self)@.workspaces.map_values(
                    |r: WorkspaceRowView|
                        if r.workspace.reference == reference@ {
                            WorkspaceRowView { last_active: now, ..r }
                        } else {
                            r
                        },
                ),
                ..old(self)@
            }),
    {
        let ghost rows = self@.workspaces;
        let ghost after = rows.map_values(
            |r: WorkspaceRowView|
                if r.workspace.reference == reference@ {
                    WorkspaceRowView { last_active: now, ..r }
                } else {
                    r
                },
        );
        let total = self.workspaces.len();
        let mut updated: Vec<WorkspaceRow> = Vec::new();
        for i in 0..total
            invariant
                total == self.workspaces.len(),
                rows == self@.workspaces,
                *self == *old(self),
                after == rows.map_values(
                    |r: WorkspaceRowView|
                        if r.workspace.reference == reference@ {
                            WorkspaceRowView { last_active: now, ..r }
                        } else {
                            r
                        },
                ),
                workspace_rows(updated@) == after.take(i as int),
        {
            let row = &self.workspaces[i];
            assert(rows[i as int] == row@);
            let active = if same(row.workspace.reference.as_str(), reference) {
                now
            } else {
                row.last_active
            };
            let next = WorkspaceRow {
                workspace: row.workspace.copy(),
                created_at: row.created_at,
                last_active: active,
                deleted_at: row.deleted_at,
            };
            proof {
                prefix_step(after, i as int);
            }
            let ghost before = updated@;
            updated.push(next);
            assert(workspace_rows(updated@) =~= workspace_rows(before).push(next@));
        }
        proof {
            prefix_all(after);
            assert forall|i: int, j: int| 0 <= i < j < after.len() implies !collide(
                (#[trigger] after[i]).workspace,
                (#[trigger] after[j]).workspace,
            ) by {
                assert(!collide(rows[i].workspace, rows[j].workspace));
            }
            still_sound(old(self)@, after);
        }
        self.workspaces = updated;
    }

    /// The workspaces that are not deleted, the oldest first.
    pub fn list_workspaces(&self) -> (r: Vec<Workspace>)
        ensures
            workspace_views(r@) == listed(self@.workspaces),
    {
        let ghost rows = self@.workspaces;
        let mut active: Vec<&WorkspaceRow> = Vec::new();
        let mut keys: Vec<Vec<u64>> = Vec::new();
        for i in 0..self.workspaces.len()
            invariant
                rows == self@.workspaces,
                keys.len() == active.len(),
                active@.map_values(|r: &WorkspaceRow| r@) == active_rows(rows.take(i as int)),
                key_list(keys@) == creation_keys(active_rows(rows.take(i as int))),
        {
            proof {
                prefix_step(rows, i as int);
            }
            let row = &self.workspaces[i];
            assert(rows[i as int] == row@);
            if row.deleted_at.is_none() {
                let ghost before = active@;
                let ghost old_keys = keys@;
                active.push(row);
                let key: u64 = (row.created_at as i128 + 0x8000_0000_0000_0000) as u64;
                let mut entry: Vec<u64> = Vec::new();
                entry.push(key);
                keys.push(entry);
                proof {
                    assert(active@.map_values(|r: &WorkspaceRow| r@) =~= before.map_values(
                        |r: &WorkspaceRow| r@,
                    ).push(row@));
                    assert(entry@ =~= seq![time_key(row@.created_at)]);
                    assert(key_list(keys@) =~= key_list(old_keys).push(entry@));
                    assert(creation_keys(active_rows(rows.take(i + 1))) =~= creation_keys(
                        active_rows(rows.take(i as int)),
                    ).push(seq![time_key(row@.created_at)]));
                }
            }
        }
        proof {
            prefix_all(rows);
        }
        let order = rank(&keys);
        let ghost kept = active_rows(rows);
        let mut out: Vec<Workspace> = Vec::new();
        for i in 0..order.len()
            invariant
                rows == self@.workspaces,
                kept == active_rows(rows),
                keys.len() == active.len(),
                order.len() == keys.len(),
                active@.map_values(|r: &WorkspaceRow| r@) == kept,
                positions(order@) == ranking(creation_keys(kept)),
                forall|j: int| 0 <= j < order.len() ==> (#[trigger] order@[j]) < keys.len(),
                workspace_views(out@) == listed(rows).take(i as int),
        {
            assert(kept.len() == active.len());
            assert(listed(rows).len() == kept.len());
            proof {
                prefix_step(listed(rows), i as int);
            }
            assert(positions(order@)[i as int] == order@[i as int]);
            let row = active[order[i]];
            assert(kept[order@[i as int] as int] == row@);
            let ghost before = out@;
            let copied = row.workspace.copy();
            out.push(copied);
            assert(workspace_views(out@) =~= workspace_views(before).push(copied@));
        }
        proof {
            assert(kept.len() == active.len());
            prefix_all(listed(rows));
        }
        out
    }

    /// The workspace of that name, if it is not deleted.
    pub fn workspace_named(&self, name: &str) -> (r: Option<Workspace>)
        requires
            self@.valid(),
        ensures
            match r {
                Some(w) => w@.name == name@ && exists|i: int|
                    0 <= i < self@.workspaces.len() && (#[trigger] self@.workspaces[i]).workspace
                        == w@ && self@.workspaces[i].deleted_at is None,
                None => forall|i: int|
                    0 <= i < self@.workspaces.len() ==> (
                    #[trigger] self@.workspaces[i]).workspace.name != name@
                        || self@.workspaces[i].deleted_at is Some,
            },
    {
        for i in 0..self.workspaces.len()
            invariant
                forall|j: int|
                    0 <= j < i ==> (#[trigger] self@.workspaces[j]).workspace.name != name@
                        || self@.workspaces[j].deleted_at is Some,
        {
            let row = &self.workspaces[i];
            assert(self@.workspaces[i as int] == row@);
            if same(row.workspace.name.as_str(), name) && row.deleted_at.is_none() {
                return Some(row.workspace.copy());
            }
        }
        None
    }

    /// The workspace that contains the directory `cwd`.
    pub fn workspace_for_path(&self, cwd: &str) -> (r: Result<Workspace, Failure>)
        ensures
            match deepest(listed(self@.workspaces), cwd@) {
                Some(k) => r matches Ok(w) && w@ == listed(self@.workspaces)[k],
                None => r matches Err(e) && e@
                    == "current directory is not inside a mathmux workspace"@,
            },
    {
        let list = self.list_workspaces();
        let ghost views = listed(self@.workspaces);
        assert(views.len() == list.len());
        let mut best: Option<usize> = None;
        for i in 0..list.len()
            invariant
                views == workspace_views(list@),
                match best {
                    Some(k) => k < i && deepest(views.take(i as int), cwd@) == Some(k as int),
                    None => deepest(views.take(i as int), cwd@) is None,
                },
        {
            proof {
                prefix_step(views, i as int);
            }
            assert(views[i as int] == list[i as int]@);
            if is_under(cwd, list[i].path.as_str()) {
                match best {
                    Some(k) => {
                        assert(views.take(i + 1)[k as int] == views[k as int]);
                        assert(views[k as int] == list[k as int]@);
                        if list[k].path.as_str().len() <= list[i].path.as_str().len() {
                            best = Some(i);
                        }
                    },
                    None => {
                        best = Some(i);
                    },
                }
            }
        }
        proof {
            prefix_all(views);
        }
        match best {
            Some(k) => {
                assert(views[k as int] == list[k as int]@);
                Ok(list[k].copy())
            },
            None => refuse("current directory is not inside a mathmux workspace"),
        }
    }

    /// Records a passed check of a recorded workspace.
    pub fn add_check(&mut self, check: &CheckRecord) -> (r: Result<(), Failure>)
        requires
            old(self)@.valid(),
        ensures
            final(self)@.valid(),
            r is Ok <==> known(old(self)@.workspaces, check@.workspace_ref) && (forall|i: int|
                0 <= i < old(self)@.checks.len() ==> (#[trigger] old(self)@.checks[i]).reference
                    != check@.reference),
            r is Ok ==> final(self)@ == (StateView {
                checks: old(self)@.checks.push(check@),
                ..old(self)@
            }),
            r matches Err(e) ==> e@ == "check cannot be recorded"@ && final(self)@ == old(self)@,
    {
        if !self.knows(check.workspace_ref.as_str()) {
            return refuse("check cannot be recorded");
        }
        let ghost rows = self@.checks;
        for i in 0..self.checks.len()
            invariant
                rows == self@.checks,
                *self == *old(self),
                self@.valid(),
                forall|j: int| 0 <= j < i ==> (#[trigger] rows[j]).reference != check@.reference,
        {
            assert(rows[i as int] == self.checks[i as int]@);
            if same(self.checks[i].reference.as_str(), check.reference.as_str()) {
                return refuse("check cannot be recorded");
            }
        }
        let ghost before = self.checks@;
        let copied = check.copy();
        self.checks.push(copied);
        assert(check_rows(self.checks@) =~= check_rows(before).push(check@));
        Ok(())
    }

    /// The newest check of a target in a workspace.
    pub fn latest_check(&self, workspace_ref: &str, target: &str) -> (r: Option<CheckRecord>)
        ensures
            match newest_check(self@.checks, workspace_ref@, target@) {
                Some(k) => r matches Some(c) && c@ == self@.checks[k],
                None => r is None,
            },
    {
        let ghost rows = self@.checks;
        let mut best: Option<usize> = None;
        for i in 0..self.checks.len()
            invariant
                rows == self@.checks,
                match best {
                    Some(k) => k < i && newest_check(rows.take(i as int), workspace_ref@, target@)
                        == Some(k as int),
                    None => newest_check(rows.take(i as int), workspace_ref@, target@) is None,
                },
        {
            proof {
                prefix_step(rows, i as int);
            }
            let row = &self.checks[i];
            assert(rows[i as int] == row@);
            if same(row.workspace_ref.as_str(), workspace_ref) && same(row.target.as_str(), target) {
                match best {
                    Some(k) => {
                        assert(rows.take(i + 1)[k as int] == rows[k as int]);
                        assert(rows[k as int] == self.checks[k as int]@);
                        if self.checks[k].created_at < row.created_at {
                            best = Some(i);
                        }
                    },
                    None => {
                        best = Some(i);
                    },
                }
            }
        }
        proof {
            prefix_all(rows);
        }
        match best {
            Some(k) => {
                assert(rows[k as int] == self.checks[k as int]@);
                Some(self.checks[k].copy())
            },
            None => None,
        }
    }

    /// The checks of a workspace, the newest first.
    pub fn checks_for_workspace(&self, workspace_ref: &str) -> (r: Vec<CheckRecord>)
        ensures
            check_rows(r@) == recent_checks(self@.checks, workspace_ref@),
    {
        let ghost rows = self@.checks;
        let mut here: Vec<&CheckRecord> = Vec::new();
        let mut keys: Vec<Vec<u64>> = Vec::new();
        for i in 0..self.checks.len()
            invariant
                rows == self@.checks,
                keys.len() == here.len(),
                here@.map_values(|r: &CheckRecord| r@) == checks_here(
                    rows.take(i as int),
                    workspace_ref@,
                ),
                key_list(keys@) == recency_keys(checks_here(rows.take(i as int), workspace_ref@)),
        {
            proof {
                prefix_step(rows, i as int);
            }
            let row = &self.checks[i];
            assert(rows[i as int] == row@);
            if same(row.workspace_ref.as_str(), workspace_ref) {
                let ghost before = here@;
                let ghost old_keys = keys@;
                here.push(row);
                let key: u64 = (row.created_at as i128 + 0x8000_0000_0000_0000) as u64;
                let mut entry: Vec<u64> = Vec::new();
                entry.push(u64::MAX - key);
                keys.push(entry);
                proof {
                    assert(here@.map_values(|r: &CheckRecord| r@) =~= before.map_values(
                        |r: &CheckRecord| r@,
                    ).push(row@));
                    assert(entry@ =~= seq![(u64::MAX - time_key(row@.created_at)) as u64]);
                    assert(key_list(keys@) =~= key_list(old_keys).push(entry@));
                    assert(recency_keys(checks_here(rows.take(i + 1), workspace_ref@))
                        =~= recency_keys(checks_here(rows.take(i as int), workspace_ref@)).push(
                        entry@,
                    ));
                }
            }
        }
        proof {
            prefix_all(rows);
        }
        let order = rank(&keys);
        let ghost kept = checks_here(rows, workspace_ref@);
        let ghost result = recent_checks(rows, workspace_ref@);
        let mut out: Vec<CheckRecord> = Vec::new();
        for i in 0..order.len()
            invariant
                kept == checks_here(rows, workspace_ref@),
                result == recent_checks(rows, workspace_ref@),
                keys.len() == here.len(),
                order.len() == keys.len(),
                here@.map_values(|r: &CheckRecord| r@) == kept,
                positions(order@) == ranking(recency_keys(kept)),
                forall|j: int| 0 <= j < order.len() ==> (#[trigger] order@[j]) < keys.len(),
                check_rows(out@) == result.take(i as int),
        {
            assert(kept.len() == here.len());
            proof {
                prefix_step(result, i as int);
            }
            assert(positions(order@)[i as int] == order@[i as int]);
            let row = here[order[i]];
            assert(kept[order@[i as int] as int] == row@);
            let ghost before = out@;
            let copied = row.copy();
            out.push(copied);
            assert(check_rows(out@) =~= check_rows(before).push(copied@));
        }
        proof {
            assert(kept.len() == here.len());
            prefix_all(result);
        }
        out
    }

    /// Records a submission of a recorded workspace.
    pub fn add_submission(&mut self, submission: &Submission) -> (r: Result<(), Failure>)
        requires
            old(self)@.valid(),
        ensures
            final(self)@.valid(),
            r is Ok <==> known(old(self)@.workspaces, submission@.workspace_ref) && (forall|i: int|
                0 <= i < old(self)@.submissions.len() ==> (
                #[trigger] old(self)@.submissions[i]).reference != submission@.reference),
            r is Ok ==> final(self)@ == (StateView {
                submissions: old(self)@.submissions.push(submission@),
                ..old(self)@
            }),
            r matches Err(e) ==> e@ == "submission cannot be recorded"@ && final(self)@ == old(
                self,
            )@,
    {
        if !self.knows(submission.workspace_ref.as_str()) {
            return refuse("submission cannot be recorded");
        }
        let ghost rows = self@.submissions;
        for i in 0..self.submissions.len()
            invariant
                rows == self@.submissions,
                *self == *old(self),
                self@.valid(),
                forall|j: int|
                    0 <= j < i ==> (#[trigger] rows[j]).reference != submission@.reference,
        {
            assert(rows[i as int] == self.submissions[i as int]@);
            if same(self.submissions[i].reference.as_str(), submission.reference.as_str()) {
                return refuse("submission cannot be recorded");
            }
        }
        let ghost before = self.submissions@;
        let copied = submission.copy();
        self.submissions.push(copied);
        assert(submission_rows(self.submissions@) =~= submission_rows(before).push(submission@));
        Ok(())
    }

    /// Records a synchronisation of a recorded workspace under the next reference of
    /// its kind, which is used up in any case.
    pub fn add_sync(&mut self, workspace_ref: &str, status: &str, detail: &str, now: i64) -> (r:
        Result<String, Failure>)
        requires
            old(self)@.valid(),
            counter(old(self)@.counters, 'u') < u64::MAX,
        ensures
            final(self)@.valid(),
            counter(final(self)@.counters, 'u') == counter(old(self)@.counters, 'u') + 1,
            forall|other: char|
                other != 'u' ==> #[trigger] counter(final(self)@.counters, other) == counter(
                    old(self)@.counters,
                    other,
                ),
            ({
                let reference = seq!['u'] + decimal(
                    (counter(old(self)@.counters, 'u') + 1) as nat,
                );
                &&& r is Ok <==> known(old(self)@.workspaces, workspace_ref@) && (forall|i: int|
                    0 <= i < old(self)@.syncs.len() ==> (#[trigger] old(self)@.syncs[i]).reference
                        != reference)
                &&& r matches Ok(given) ==> given@ == reference && final(self)@ == (StateView {
                    counters: final(self)@.counters,
                    syncs: old(self)@.syncs.push(
                        (SyncRecordView {
                            reference,
                            workspace_ref: workspace_ref@,
                            status: status@,
                            detail: detail@,
                            created_at: now,
                        }),
                    ),
                    ..old(self)@
                })
                &&& r matches Err(e) ==> e@ == "synchronisation cannot be recorded"@ && final(self)@
                    == (StateView { counters: final(self)@.counters, ..old(self)@ })
            }),
    {
        let reference = self.next_ref('u');
        let ghost middle = self@;
        if !self.knows(workspace_ref) {
            return refuse("synchronisation cannot be recorded");
        }
        let ghost rows = self@.syncs;
        for i in 0..self.syncs.len()
            invariant
                rows == self@.syncs,
                self@ == middle,
                middle == (StateView { counters: middle.counters, ..old(self)@ }),
                middle.valid(),
                counter(middle.counters, 'u') == counter(old(self)@.counters, 'u') + 1,
                forall|other: char|
                    other != 'u' ==> #[trigger] counter(middle.counters, other) == counter(
                        old(self)@.counters,
                        other,
                    ),
                reference@ == seq!['u'] + decimal((counter(old(self)@.counters, 'u') + 1) as nat),
                forall|j: int| 0 <= j < i ==> (#[trigger] rows[j]).reference != reference@,
        {
            assert(rows[i as int] == self.syncs[i as int]@);
            if same(self.syncs[i].reference.as_str(), reference.as_str()) {
                return refuse("synchronisation cannot be recorded");
            }
        }
        let row = SyncRecord {
            reference: reference.clone(),
            workspace_ref: own(workspace_ref),
            status: own(status),
            detail: own(detail),
            created_at: now,
        };
        let ghost before = self.syncs@;
        self.syncs.push(row);
        assert(sync_rows(self.syncs@) =~= sync_rows(before).push(row@));
        Ok(reference)
    }

    /// Shows what a reference names.
    pub fn show(&self, reference: &str) -> (r: Result<String, Failure>)
        requires
            self@.valid(),
        ensures
            match r {
                Ok(text) => shows(self@, reference@, text@),
                Err(e) => e@ == show_refusal(reference@) && forall|text: Seq<char>|
                    !shows(self@, reference@, text),
            },
    {
        let kind = match validate_reference(reference) {
            Ok(kind) => kind,
            Err(e) => {
                return Err(e);
            },
        };
        if kind == 'w' {
            for i in 0..self.workspaces.len()
                invariant
                    kind == 'w',
                    reference_letter(reference@) == Ok::<char, Seq<char>>(kind),
                    forall|j: int|
                        0 <= j < i ==> (#[trigger] self@.workspaces[j]).workspace.reference
                            != reference@,
            {
                let row = &self.workspaces[i];
                assert(self@.workspaces[i as int] == row@);
                if same(row.workspace.reference.as_str(), reference) {
                    return Ok(render_workspace(row));
                }
            }
        } else if kind == 'c' {
            for i in 0..self.checks.len()
                invariant
                    kind == 'c',
                    reference_letter(reference@) == Ok::<char, Seq<char>>(kind),
                    forall|j: int|
                        0 <= j < i ==> (#[trigger] self@.checks[j]).reference != reference@,
            {
                let row = &self.checks[i];
                assert(self@.checks[i as int] == row@);
                if same(row.reference.as_str(), reference) {
                    return Ok(render_check(row));
                }
            }
        } else if kind == 's' {
            for i in 0..self.submissions.len()
                invariant
                    kind == 's',
                    reference_letter(reference@) == Ok::<char, Seq<char>>(kind),
                    forall|j: int|
                        0 <= j < i ==> (#[trigger] self@.submissions[j]).reference != reference@,
            {
                let row = &self.submissions[i];
                assert(self@.submissions[i as int] == row@);
                if same(row.reference.as_str(), reference) {
                    return Ok(render_submission_row(row));
                }
            }
        } else if kind == 'u' {
            for i in 0..self.syncs.len()
                invariant
                    kind == 'u',
                    reference_letter(reference@) == Ok::<char, Seq<char>>(kind),
                    forall|j: int|
                        0 <= j < i ==> (#[trigger] self@.syncs[j]).reference != reference@,
            {
                let row = &self.syncs[i];
                assert(self@.syncs[i as int] == row@);
                if same(row.reference.as_str(), reference) {
                    return Ok(render_sync(row));
                }
            }
        } else {
            let mut letter = String::new();
            letter.push(kind);
            assert(letter@ =~= seq![kind]);
            return refuse(cat2("unknown reference type ", letter.as_str()).as_str());
        }
        refuse(cat2("unknown reference ", reference).as_str())
    }
}

fn render_workspace(row: &WorkspaceRow) -> (r: String)
    ensures
        r@ == workspace_text(row@),
{
    let name: String = if row.deleted_at.is_none() {
        row.workspace.name.clone()
    } else {
        match split_once(row.workspace.name.as_str(), "#deleted#") {
            Some(sides) => own(sides.0),
            None => String::new(),
        }
    };
    let mut out = cat5(
        row.workspace.reference.as_str(),
        " workspace ",
        name.as_str(),
        "\npath: ",
        row.workspace.path.as_str(),
    );
    push_str(&mut out, "\nbranch: ");
    push_str(&mut out, row.workspace.branch.as_str());
    push_str(&mut out, "\ncreated: ");
    push_str(&mut out, show_signed(row.created_at).as_str());
    push_str(&mut out, "\nlast active: ");
    push_str(&mut out, show_signed(row.last_active).as_str());
    push_str(&mut out, "\nstatus: ");
    push_str(&mut out, if row.deleted_at.is_some() { "deleted" } else { "active" });
    out
}

fn render_check(row: &CheckRecord) -> (r: String)
    ensures
        r@ == check_text(row@),
{
    let mut out = cat5(
        row.reference.as_str(),
        " check passed\nworkspace: ",
        row.workspace_ref.as_str(),
        "\ntarget: ",
        row.target.as_str(),
    );
    push_str(&mut out, "\nsource version: ");
    push_str(&mut out, show(row.source_version).as_str());
    push_str(&mut out, "\nfingerprint: ");
    push_str(&mut out, row.fingerprint.as_str());
    push_str(&mut out, "\ndependencies: ");
    push_str(&mut out, to_json_list(&row.dependencies).as_str());
    push_str(&mut out, "\ncreated: ");
    push_str(&mut out, show_signed(row.created_at).as_str());
    out
}

fn text_or_empty(text: &Option<String>) -> (r: String)
    ensures
        r@ == or_empty(opt_string(*text)),
{
    match text {
        Some(t) => t.clone(),
        None => String::new(),
    }
}

fn render_submission_row(row: &Submission) -> (r: String)
    ensures
        r@ == submission_text(row@),
{
    let mut out = cat5(
        row.reference.as_str(),
        " submission\nworkspace: ",
        row.workspace_ref.as_str(),
        "\nworkspace commit: ",
        row.workspace_commit.as_str(),
    );
    push_str(&mut out, "\nmain commit: ");
    push_str(&mut out, row.main_commit.as_str());
    push_str(&mut out, "\nbase: ");
    push_str(&mut out, row.base_commit.as_str());
    push_str(&mut out, "\nchecks: ");
    push_str(&mut out, to_json_list(&row.checks).as_str());
    push_str(&mut out, "\nvalidation: ");
    push_str(&mut out, row.validation_status.as_str());
    push_str(&mut out, "\ndetail: ");
    push_str(&mut out, text_or_empty(&row.validation_detail).as_str());
    push_str(&mut out, "\nvalidated by: ");
    push_str(&mut out, text_or_empty(&row.validated_by).as_str());
    push_str(&mut out, "\ncreated: ");
    push_str(&mut out, show_signed(row.created_at).as_str());
    out
}

fn render_sync(row: &SyncRecord) -> (r: String)
    ensures
        r@ == sync_text(row@),
{
    let mut out = cat5(
        row.reference.as_str(),
        " sync ",
        row.status.as_str(),
        "\nworkspace: ",
        row.workspace_ref.as_str(),
    );
    push_str(&mut out, "\ndetail: ");
    push_str(&mut out, row.detail.as_str());
    push_str(&mut out, "\ncreated: ");
    push_str(&mut out, show_signed(row.created_at).as_str());
    out
}

} // verus!

//! What the record keeps: what is written is read back, and what is deleted is gone.
use crate::order::{ranking, ranking_is_permutation, ranking_is_sorted};
use crate::path::lies_under;
use crate::reference::reference_letter;
use crate::state::records::{
    CheckRecordView, SubmissionView, SyncRecordView, WorkspaceRowView, WorkspaceView,
};
use crate::state::store::{
    active_rows, admissible, check_text, checks_elsewhere, checks_here, coalesced, collide,
    creation_keys, deepest, distinct_workspaces, listed, newest_check, newest_queued,
    newest_queued_is_newest, or_empty, recency_keys, recent_checks, requeued, retired_at,
    show_refusal, shown_name, shows, submission_text, sync_text, time_key, workspace_text,
    StateView,
};
use crate::text::make::byte_length;
use crate::text::number::{decimal, decimal_reads_back, signed_decimal};
use crate::text::scan::{
    begins, ends, find_from_is_first, find_iff_has, find_text, found_between, has_text, occurs_at,
};
use crate::text::json::json_list;
use crate::text::chain::{chain, chain_pair, chain_push, chain_tells, label_begins, part_ends};
use vstd::prelude::*;

verus! {

/// Two references are the same only where their kind and their number are: since the
/// numbers of a kind increase, none is given out twice.
pub proof fn references_never_repeat(kind: char, m: nat, other: char, n: nat)
    ensures
        seq![kind] + decimal(m) == seq![other] + decimal(n) <==> kind == other && m == n,
{
    let a = seq![kind] + decimal(m);
    let b = seq![other] + decimal(n);
    if a == b {
        assert(a[0] == kind && b[0] == other);
        assert(a.skip(1) =~= decimal(m));
        assert(b.skip(1) =~= decimal(n));
        let limit = if m <= n {
            n
        } else {
            m
        };
        decimal_reads_back(m, limit);
        decimal_reads_back(n, limit);
    }
}

proof fn active_rows_hold(rows: Seq<WorkspaceRowView>, i: int) -> (k: int)
    requires
        0 <= i < rows.len(),
        rows[i].deleted_at is None,
    ensures
        0 <= k < active_rows(rows).len(),
        active_rows(rows)[k] == rows[i],
    decreases rows.len(),
{
    if i == rows.len() - 1 {
        active_rows(rows).len() - 1
    } else {
        active_rows_hold(rows.drop_last(), i)
    }
}

proof fn active_rows_are_rows(rows: Seq<WorkspaceRowView>, k: int) -> (i: int)
    requires
        0 <= k < active_rows(rows).len(),
    ensures
        0 <= i < rows.len(),
        rows[i].deleted_at is None,
        active_rows(rows)[k] == rows[i],
    decreases rows.len(),
{
    if rows.last().deleted_at is None && k == active_rows(rows).len() - 1 {
        rows.len() - 1
    } else {
        active_rows_are_rows(rows.drop_last(), k)
    }
}

/// The workspaces that are listed are just those that are not deleted.
pub proof fn active_workspaces_are_listed(rows: Seq<WorkspaceRowView>, w: WorkspaceView)
    ensures
        listed(rows).contains(w) <==> exists|i: int|
            0 <= i < rows.len() && (#[trigger] rows[i]).workspace == w && rows[i].deleted_at
                is None,
{
    let active = active_rows(rows);
    let order = ranking(creation_keys(active));
    ranking_is_permutation(creation_keys(active));
    if listed(rows).contains(w) {
        let j = listed(rows).index_of(w);
        let i = active_rows_are_rows(rows, order[j]);
        assert(rows[i].workspace == w);
    }
    if exists|i: int|
        0 <= i < rows.len() && (#[trigger] rows[i]).workspace == w && rows[i].deleted_at is None {
        let i = choose|i: int|
            0 <= i < rows.len() && (#[trigger] rows[i]).workspace == w && rows[i].deleted_at
                is None;
        let k = active_rows_hold(rows, i);
        assert(order.contains(k));
        let j = order.index_of(k);
        assert(listed(rows)[j] == w);
    }
}

/// A workspace that has been recorded is listed, is the only one of its name, and the
/// others stay listed.
pub proof fn recorded_workspaces_are_found(
    rows: Seq<WorkspaceRowView>,
    w: WorkspaceView,
    now: i64,
    other: WorkspaceView,
)
    requires
        admissible(rows, w),
    ensures
        ({
            let row = WorkspaceRowView {
                workspace: w,
                created_at: now,
                last_active: now,
                deleted_at: None,
            };
            let after = rows.push(row);
            &&& listed(after).contains(w)
            &&& listed(rows).contains(other) ==> listed(after).contains(other)
            &&& forall|i: int|
                0 <= i < after.len() && (#[trigger] after[i]).workspace.name == w.name
                    ==> after[i] == row
        }),
{
    let row = WorkspaceRowView {
        workspace: w,
        created_at: now,
        last_active: now,
        deleted_at: None,
    };
    let after = rows.push(row);
    active_workspaces_are_listed(after, w);
    active_workspaces_are_listed(rows, other);
    active_workspaces_are_listed(after, other);
    assert(after[rows.len() as int] == row);
    if listed(rows).contains(other) {
        let i = choose|i: int|
            0 <= i < rows.len() && (#[trigger] rows[i]).workspace == other && rows[i].deleted_at
                is None;
        assert(after[i].workspace == other);
    }
    assert forall|i: int|
        0 <= i < after.len() && (#[trigger] after[i]).workspace.name == w.name implies after[i]
        == row by {
        if i < rows.len() {
            assert(!collide(rows[i].workspace, w));
        }
    }
}

/// A deleted workspace is no longer listed, and every other one still is.
pub proof fn deleted_workspaces_are_hidden(
    rows: Seq<WorkspaceRowView>,
    k: int,
    now: i64,
    other: WorkspaceView,
)
    requires
        distinct_workspaces(rows),
        0 <= k < rows.len(),
        rows[k].deleted_at is None,
    ensures
        listed(retired_at(rows, k, now)).contains(other) <==> listed(rows).contains(other) && other
            != rows[k].workspace,
{
    let after = retired_at(rows, k, now);
    active_workspaces_are_listed(rows, other);
    active_workspaces_are_listed(after, other);
    if listed(after).contains(other) {
        let i = choose|i: int|
            0 <= i < after.len() && (#[trigger] after[i]).workspace == other
                && after[i].deleted_at is None;
        assert(i != k);
        assert(rows[i].workspace == other);
        if i < k {
            assert(!collide(rows[i].workspace, rows[k].workspace));
        } else {
            assert(!collide(rows[k].workspace, rows[i].workspace));
        }
    }
    if listed(rows).contains(other) && other != rows[k].workspace {
        let i = choose|i: int|
            0 <= i < rows.len() && (#[trigger] rows[i]).workspace == other && rows[i].deleted_at
                is None;
        assert(after[i].workspace == other);
    }
}

/// Deleting the checks of a workspace removes all of them, and no check of another.
pub proof fn only_its_checks_are_deleted(
    rows: Seq<CheckRecordView>,
    workspace_ref: Seq<char>,
    check: CheckRecordView,
)
    ensures
        checks_elsewhere(rows, workspace_ref).contains(check) <==> rows.contains(check)
            && check.workspace_ref != workspace_ref,
    decreases rows.len(),
{
    if rows.len() > 0 {
        let shorter = rows.drop_last();
        let earlier = checks_elsewhere(shorter, workspace_ref);
        only_its_checks_are_deleted(shorter, workspace_ref, check);
        if rows.contains(check) {
            let i = rows.index_of(check);
            if i < rows.len() - 1 {
                assert(shorter[i] == check);
            }
        }
        if shorter.contains(check) {
            assert(rows[shorter.index_of(check)] == check);
        }
        if rows.last().workspace_ref != workspace_ref {
            let all = earlier.push(rows.last());
            if earlier.contains(check) {
                assert(all[earlier.index_of(check)] == check);
            }
            if all.contains(check) {
                let i = all.index_of(check);
                if i < earlier.len() {
                    assert(earlier[i] == check);
                } else {
                    assert(rows[rows.len() - 1] == check);
                }
            }
            if check == rows.last() {
                assert(all[earlier.len() as int] == check);
            }
        }
    }
}

/// A check of a target in a workspace.
pub open spec fn checks_target(
    check: CheckRecordView,
    workspace_ref: Seq<char>,
    target: Seq<char>,
) -> bool {
    check.workspace_ref == workspace_ref && check.target == target
}

/// The latest check of a target is found exactly where there is one, and none of that
/// target was created later.
pub proof fn latest_check_is_latest(
    rows: Seq<CheckRecordView>,
    workspace_ref: Seq<char>,
    target: Seq<char>,
)
    ensures
        match newest_check(rows, workspace_ref, target) {
            Some(k) => 0 <= k < rows.len() && checks_target(rows[k], workspace_ref, target)
                && forall|i: int|
                0 <= i < rows.len() && checks_target(#[trigger] rows[i], workspace_ref, target)
                    ==> rows[i].created_at <= rows[k].created_at,
            None => forall|i: int|
                0 <= i < rows.len() ==> !checks_target(#[trigger] rows[i], workspace_ref, target),
        },
    decreases rows.len(),
{
    if rows.len() > 0 {
        let shorter = rows.drop_last();
        latest_check_is_latest(shorter, workspace_ref, target);
        assert forall|i: int| 0 <= i < rows.len() - 1 implies rows[i] == #[trigger] shorter[i] by {}
        match newest_check(rows, workspace_ref, target) {
            Some(k) => {
                assert forall|i: int|
                    0 <= i < rows.len() && checks_target(
                        #[trigger] rows[i],
                        workspace_ref,
                        target,
                    ) implies rows[i].created_at <= rows[k].created_at by {
                    if i < rows.len() - 1 {
                        assert(checks_target(shorter[i], workspace_ref, target));
                    }
                }
            },
            None => {
                assert forall|i: int| 0 <= i < rows.len() implies !checks_target(
                    #[trigger] rows[i],
                    workspace_ref,
                    target,
                ) by {
                    if i < rows.len() - 1 {
                        assert(!checks_target(shorter[i], workspace_ref, target));
                    }
                }
            },
        }
    }
}

/// A check that is newer than those before is the latest of its target.
pub proof fn recorded_checks_are_latest(rows: Seq<CheckRecordView>, check: CheckRecordView)
    requires
        forall|i: int|
            0 <= i < rows.len() && checks_target(
                #[trigger] rows[i],
                check.workspace_ref,
                check.target,
            ) ==> rows[i].created_at < check.created_at,
    ensures
        newest_check(rows.push(check), check.workspace_ref, check.target) == Some(
            rows.len() as int,
        ),
{
    latest_check_is_latest(rows, check.workspace_ref, check.target);
    assert(rows.push(check).drop_last() =~= rows);
    if let Some(k) = newest_check(rows, check.workspace_ref, check.target) {
        assert(rows.push(check)[k] == rows[k]);
    }
}

/// A directory belongs to a listed workspace exactly where it lies in one, and no other
/// that it lies in has a longer path.
pub proof fn directories_belong_to_the_deepest(list: Seq<WorkspaceView>, cwd: Seq<char>)
    ensures
        match deepest(list, cwd) {
            Some(k) => 0 <= k < list.len() && lies_under(cwd, list[k].path) && forall|i: int|
                0 <= i < list.len() && lies_under(cwd, (#[trigger] list[i]).path) ==> byte_length(
                    list[i].path,
                ) <= byte_length(list[k].path),
            None => forall|i: int|
                0 <= i < list.len() ==> !lies_under(cwd, (#[trigger] list[i]).path),
        },
    decreases list.len(),
{
    if list.len() > 0 {
        let shorter = list.drop_last();
        directories_belong_to_the_deepest(shorter, cwd);
        match deepest(list, cwd) {
            Some(k) => {
                assert forall|i: int|
                    0 <= i < list.len() && lies_under(
                        cwd,
                        (#[trigger] list[i]).path,
                    ) implies byte_length(list[i].path) <= byte_length(list[k].path) by {
                    if i < list.len() - 1 {
                        assert(lies_under(cwd, shorter[i].path));
                    }
                }
            },
            None => {
                assert forall|i: int| 0 <= i < list.len() implies !lies_under(
                    cwd,
                    (#[trigger] list[i]).path,
                ) by {
                    if i < list.len() - 1 {
                        assert(!lies_under(cwd, shorter[i].path));
                    }
                }
            },
        }
    }
}

/// A reference shows one text.
pub proof fn references_show_one_text(
    s: StateView,
    reference: Seq<char>,
    a: Seq<char>,
    b: Seq<char>,
)
    requires
        s.valid(),
        shows(s, reference, a),
        shows(s, reference, b),
    ensures
        a == b,
{
    let kind = reference_letter(reference)->Ok_0;
    if kind == 'w' {
        let i = choose|i: int|
            0 <= i < s.workspaces.len() && (#[trigger] s.workspaces[i]).workspace.reference
                == reference && a == workspace_text(s.workspaces[i]);
        let j = choose|j: int|
            0 <= j < s.workspaces.len() && (#[trigger] s.workspaces[j]).workspace.reference
                == reference && b == workspace_text(s.workspaces[j]);
        if i < j {
            assert(!collide(s.workspaces[i].workspace, s.workspaces[j].workspace));
        } else if j < i {
            assert(!collide(s.workspaces[j].workspace, s.workspaces[i].workspace));
        }
    } else if kind == 'c' {
        let i = choose|i: int|
            0 <= i < s.checks.len() && (#[trigger] s.checks[i]).reference == reference && a
                == check_text(s.checks[i]);
        let j = choose|j: int|
            0 <= j < s.checks.len() && (#[trigger] s.checks[j]).reference == reference && b
                == check_text(s.checks[j]);
        assert(i == j);
    } else if kind == 's' {
        let i = choose|i: int|
            0 <= i < s.submissions.len() && (#[trigger] s.submissions[i]).reference == reference
                && a == submission_text(s.submissions[i]);
        let j = choose|j: int|
            0 <= j < s.submissions.len() && (#[trigger] s.submissions[j]).reference == reference
                && b == submission_text(s.submissions[j]);
        assert(i == j);
    } else {
        let i = choose|i: int|
            0 <= i < s.syncs.len() && (#[trigger] s.syncs[i]).reference == reference && a
                == sync_text(s.syncs[i]);
        let j = choose|j: int|
            0 <= j < s.syncs.len() && (#[trigger] s.syncs[j]).reference == reference && b
                == sync_text(s.syncs[j]);
        assert(i == j);
    }
}

/// What has been recorded is shown under its reference.
pub proof fn recorded_rows_are_shown(
    s: StateView,
    check: CheckRecordView,
    submission: SubmissionView,
    sync: SyncRecordView,
)
    requires
        reference_letter(check.reference) == Ok::<char, Seq<char>>('c'),
        reference_letter(submission.reference) == Ok::<char, Seq<char>>('s'),
        reference_letter(sync.reference) == Ok::<char, Seq<char>>('u'),
    ensures
        shows(
            StateView { checks: s.checks.push(check), ..s },
            check.reference,
            check_text(check),
        ),
        shows(
            StateView { submissions: s.submissions.push(submission), ..s },
            submission.reference,
            submission_text(submission),
        ),
        shows(
            StateView { syncs: s.syncs.push(sync), ..s },
            sync.reference,
            sync_text(sync),
        ),
{
    let checked = StateView { checks: s.checks.push(check), ..s };
    assert(checked.checks[s.checks.len() as int] == check);
    let submitted = StateView { submissions: s.submissions.push(submission), ..s };
    assert(submitted.submissions[s.submissions.len() as int] == submission);
    let synced = StateView { syncs: s.syncs.push(sync), ..s };
    assert(synced.syncs[s.syncs.len() as int] == sync);
}

/// Once a validation has started, the newest queued submission runs, and every other
/// queued one is skipped and says that it is validated by that one. Nothing else of them
/// changes, and no other submission does.
pub proof fn started_validations_cover_the_rest(rows: Seq<SubmissionView>, i: int)
    requires
        newest_queued(rows) is Some,
        0 <= i < rows.len(),
    ensures
        ({
            let k = newest_queued(rows)->0;
            let after = coalesced(rows, k)[i];
            &&& coalesced(rows, k).len() == rows.len()
            &&& i == k ==> after == (SubmissionView { validation_status: "running"@, ..rows[i] })
            &&& i != k && rows[i].validation_status == "queued"@ ==> after == (SubmissionView {
                validation_status: "skipped"@,
                validated_by: Some(rows[k].reference),
                ..rows[i]
            })
            &&& rows[i].validation_status != "queued"@ ==> after == rows[i]
        }),
{
    newest_queued_is_newest(rows);
}

/// The submission that is validated next is queued, was created no earlier than any other
/// queued one, and is the last recorded of those created at the same time.
pub proof fn the_newest_is_validated_next(rows: Seq<SubmissionView>, i: int)
    requires
        0 <= i < rows.len(),
        rows[i].validation_status == "queued"@,
    ensures
        newest_queued(rows) matches Some(k) && 0 <= k < rows.len() && rows[k].validation_status
            == "queued"@ && rows[i].created_at <= rows[k].created_at && (i > k
            ==> rows[i].created_at < rows[k].created_at),
    decreases rows.len(),
{
    let shorter = rows.drop_last();
    newest_queued_is_newest(rows);
    newest_queued_is_newest(shorter);
    if i < shorter.len() {
        the_newest_is_validated_next(shorter, i);
    }
}

/// After an interruption every submission whose validation ran is queued again, and
/// nothing else changes.
pub proof fn interrupted_validations_are_queued(rows: Seq<SubmissionView>, i: int)
    requires
        0 <= i < rows.len(),
    ensures
        requeued(rows).len() == rows.len(),
        rows[i].validation_status == "running"@ ==> requeued(rows)[i] == (SubmissionView {
            validation_status: "queued"@,
            ..rows[i]
        }),
        rows[i].validation_status != "running"@ ==> requeued(rows)[i] == rows[i],
{
}

/// Of the checks of a target that were created last, the first recorded is the latest.
pub proof fn first_of_the_latest_checks(
    rows: Seq<CheckRecordView>,
    workspace_ref: Seq<char>,
    target: Seq<char>,
    i: int,
)
    requires
        newest_check(rows, workspace_ref, target) matches Some(k) && 0 <= i < k,
        rows[i].workspace_ref == workspace_ref,
        rows[i].target == target,
    ensures
        rows[i].created_at < rows[newest_check(rows, workspace_ref, target)->0].created_at,
    decreases rows.len(),
{
    let shorter = rows.drop_last();
    latest_check_is_latest(rows, workspace_ref, target);
    latest_check_is_latest(shorter, workspace_ref, target);
    let k = newest_check(rows, workspace_ref, target)->0;
    if k < rows.len() - 1 {
        first_of_the_latest_checks(shorter, workspace_ref, target, i);
    } else {
        assert(checks_target(shorter[i], workspace_ref, target));
    }
}

proof fn checks_here_stand(
    rows: Seq<CheckRecordView>,
    workspace_ref: Seq<char>,
    check: CheckRecordView,
)
    ensures
        checks_here(rows, workspace_ref).contains(check) <==> rows.contains(check)
            && check.workspace_ref == workspace_ref,
    decreases rows.len(),
{
    if rows.len() > 0 {
        let shorter = rows.drop_last();
        let earlier = checks_here(shorter, workspace_ref);
        let all = checks_here(rows, workspace_ref);
        checks_here_stand(shorter, workspace_ref, check);
        if rows.contains(check) {
            let i = rows.index_of(check);
            if i < rows.len() - 1 {
                assert(shorter[i] == check);
                assert(shorter.contains(check));
            } else if check.workspace_ref == workspace_ref {
                assert(all[earlier.len() as int] == check);
            }
        }
        if shorter.contains(check) {
            assert(rows[shorter.index_of(check)] == check);
        }
        if earlier.contains(check) {
            assert(all[earlier.index_of(check)] == check);
        }
        if all.contains(check) {
            let i = all.index_of(check);
            if i < earlier.len() {
                assert(earlier[i] == check);
                assert(earlier.contains(check));
            } else {
                assert(rows[rows.len() - 1] == check);
            }
        }
    }
}

/// The checks of a workspace are listed all, and no others, the newest first.
pub proof fn checks_are_listed_newest_first(
    rows: Seq<CheckRecordView>,
    workspace_ref: Seq<char>,
    check: CheckRecordView,
    i: int,
    j: int,
)
    ensures
        recent_checks(rows, workspace_ref).contains(check) <==> rows.contains(check)
            && check.workspace_ref == workspace_ref,
        0 <= i < j < recent_checks(rows, workspace_ref).len() ==> recent_checks(
            rows,
            workspace_ref,
        )[i].created_at >= recent_checks(rows, workspace_ref)[j].created_at,
{
    let here = checks_here(rows, workspace_ref);
    let keys = recency_keys(here);
    let order = ranking(keys);
    let list = recent_checks(rows, workspace_ref);
    ranking_is_permutation(keys);
    checks_here_stand(rows, workspace_ref, check);
    if list.contains(check) {
        let k = list.index_of(check);
        assert(here[order[k]] == check);
    }
    if here.contains(check) {
        let k = here.index_of(check);
        assert(order.contains(k));
        assert(list[order.index_of(k)] == check);
    }
    if 0 <= i < j < list.len() {
        ranking_is_sorted(keys, i, j);
        let a = order[i];
        let b = order[j];
        assert(keys[a][0] == (u64::MAX - time_key(here[a].created_at)) as u64);
        assert(keys[b][0] == (u64::MAX - time_key(here[b].created_at)) as u64);
    }
}

/// Workspaces are listed by when they were created, the oldest first.
pub proof fn workspaces_are_listed_by_age(rows: Seq<WorkspaceRowView>, i: int, j: int)
    requires
        distinct_workspaces(rows),
        0 <= i < j < listed(rows).len(),
    ensures
        exists|a: int, b: int|
            0 <= a < rows.len() && 0 <= b < rows.len() && (#[trigger] rows[a]).workspace == listed(
                rows,
            )[i] && (#[trigger] rows[b]).workspace == listed(rows)[j] && rows[a].created_at
                <= rows[b].created_at,
{
    let active = active_rows(rows);
    let keys = creation_keys(active);
    let order = ranking(keys);
    ranking_is_permutation(keys);
    ranking_is_sorted(keys, i, j);
    let a = active_rows_are_rows(rows, order[i]);
    let b = active_rows_are_rows(rows, order[j]);
    assert(keys[order[i]][0] == time_key(active[order[i]].created_at));
    assert(keys[order[j]][0] == time_key(active[order[j]].created_at));
    assert(rows[a].workspace == listed(rows)[i] && rows[b].workspace == listed(rows)[j]);
}

/// A deleted workspace keeps its reference, when it was created and when it was last
/// active, and says since when it is deleted; and it is shown under the name that it had,
/// unless that holds the mark of a deleted name.
pub proof fn deleted_workspaces_stay_recorded(rows: Seq<WorkspaceRowView>, k: int, now: i64, i: int)
    requires
        0 <= k < rows.len(),
        0 <= i < rows.len(),
        !has_text(rows[k].workspace.name + "#deleted#"@.drop_last(), "#deleted#"@),
    ensures
        ({
            let after = retired_at(rows, k, now);
            &&& after.len() == rows.len()
            &&& i != k ==> after[i] == rows[i]
            &&& after[k].workspace.reference == rows[k].workspace.reference
            &&& after[k].created_at == rows[k].created_at
            &&& after[k].last_active == rows[k].last_active
            &&& after[k].deleted_at == Some(now)
            &&& shown_name(after[k]) == rows[k].workspace.name
        }),
{
    let name = rows[k].workspace.name;
    let mark = "#deleted#"@;
    let text = name + mark + rows[k].workspace.reference;
    reveal_strlit("#deleted#");
    let n = name.len() as int;
    assert(text.subrange(n, n + mark.len()) =~= mark);
    assert(occurs_at(text, mark, n));
    find_iff_has(text, mark);
    find_from_is_first(text, mark, 0);
    let at = find_text(text, mark)->0;
    if at < n {
        let short = name + mark.drop_last();
        assert(short.subrange(at, at + mark.len()) =~= text.subrange(at, at + mark.len()));
        assert(occurs_at(short, mark, at));
    }
    assert(at == n);
    assert(text.take(n) =~= name);
}

/// What is shown of a submission begins with its reference, and tells its workspace, its
/// commits, its checks, how its validation stands, with its detail, and what validated it.
pub proof fn shown_submissions_tell_everything(row: SubmissionView)
    ensures
        ({
            let text = submission_text(row);
            &&& begins(text, row.reference + " submission\n"@)
            &&& has_text(text, "\nworkspace: "@ + row.workspace_ref + "\nworkspace commit: "@)
            &&& has_text(text, "\nworkspace commit: "@ + row.workspace_commit + "\nmain commit: "@)
            &&& has_text(text, "\nmain commit: "@ + row.main_commit + "\nbase: "@)
            &&& has_text(text, "\nbase: "@ + row.base_commit + "\nchecks: "@)
            &&& has_text(text, "\nchecks: "@ + json_list(row.checks) + "\nvalidation: "@)
            &&& has_text(text, "\nvalidation: "@ + row.validation_status + "\ndetail: "@)
            &&& row.validation_detail matches Some(detail) ==> has_text(
                text,
                "\ndetail: "@ + detail + "\nvalidated by: "@,
            )
            &&& row.validated_by matches Some(by) ==> has_text(
                text,
                "\nvalidated by: "@ + by + "\ncreated: "@,
            )
            &&& ends(text, "\ncreated: "@ + signed_decimal(row.created_at as int))
        }),
{
    let text = submission_text(row);
    let head = row.reference + " submission"@;
    reveal_strlit(" submission\nworkspace: ");
    reveal_strlit(" submission\n");
    reveal_strlit(" submission");
    reveal_strlit("\nworkspace: ");
    let p0 = seq![head];
    assert(p0.drop_last() =~= Seq::empty());
    assert(chain(p0) =~= head) by {
        reveal_with_fuel(chain, 2);
    }
    let p1 = p0.push("\nworkspace: "@ + row.workspace_ref);
    chain_pair(p0, "\nworkspace: "@, row.workspace_ref);
    assert(chain(p1) =~= row.reference + " submission\nworkspace: "@ + row.workspace_ref);
    let p2 = p1.push("\nworkspace commit: "@ + row.workspace_commit);
    chain_pair(p1, "\nworkspace commit: "@, row.workspace_commit);
    let p3 = p2.push("\nmain commit: "@ + row.main_commit);
    chain_pair(p2, "\nmain commit: "@, row.main_commit);
    let p4 = p3.push("\nbase: "@ + row.base_commit);
    chain_pair(p3, "\nbase: "@, row.base_commit);
    let p5 = p4.push("\nchecks: "@ + json_list(row.checks));
    chain_pair(p4, "\nchecks: "@, json_list(row.checks));
    let p6 = p5.push("\nvalidation: "@ + row.validation_status);
    chain_pair(p5, "\nvalidation: "@, row.validation_status);
    let p7 = p6.push("\ndetail: "@ + or_empty(row.validation_detail));
    chain_pair(p6, "\ndetail: "@, or_empty(row.validation_detail));
    let p8 = p7.push("\nvalidated by: "@ + or_empty(row.validated_by));
    chain_pair(p7, "\nvalidated by: "@, or_empty(row.validated_by));
    let created = "\ncreated: "@ + signed_decimal(row.created_at as int);
    let p9 = p8.push(created);
    chain_pair(p8, "\ncreated: "@, signed_decimal(row.created_at as int));
    chain_push(p8, created);
    assert(text == chain(p9));
    label_begins("\nworkspace commit: "@, row.workspace_commit);
    label_begins("\nmain commit: "@, row.main_commit);
    label_begins("\nbase: "@, row.base_commit);
    label_begins("\nchecks: "@, json_list(row.checks));
    label_begins("\nvalidation: "@, row.validation_status);
    label_begins("\ndetail: "@, or_empty(row.validation_detail));
    label_begins("\nvalidated by: "@, or_empty(row.validated_by));
    label_begins("\ncreated: "@, signed_decimal(row.created_at as int));
    chain_tells(p9, 1, "\nworkspace commit: "@);
    chain_tells(p9, 2, "\nmain commit: "@);
    chain_tells(p9, 3, "\nbase: "@);
    chain_tells(p9, 4, "\nchecks: "@);
    chain_tells(p9, 5, "\nvalidation: "@);
    chain_tells(p9, 6, "\ndetail: "@);
    chain_tells(p9, 7, "\nvalidated by: "@);
    chain_tells(p9, 8, "\ncreated: "@);
    part_ends(chain(p8), created);
    submission_begins(row);
}

proof fn submission_begins(row: SubmissionView)
    ensures
        begins(submission_text(row), row.reference + " submission\n"@),
{
    let text = submission_text(row);
    let first = row.reference + " submission\n"@;
    reveal_strlit(" submission\nworkspace: ");
    reveal_strlit(" submission\n");
    assert(text.take(first.len() as int) =~= first);
}

proof fn labelled(label: Seq<char>, value: Seq<char>)
    ensures
        begins(label + value, label),
{
    assert((label + value).take(label.len() as int) =~= label);
}

proof fn told_in_turn(
    before: Seq<char>,
    part: Seq<char>,
    next: Seq<char>,
    mark: Seq<char>,
    after: Seq<char>,
    text: Seq<char>,
)
    requires
        text =~= before + part + next + after,
        begins(next, mark),
    ensures
        has_text(text, part + mark),
{
    let rest = next.skip(mark.len() as int);
    assert(next =~= mark + rest) by {
        assert(next.take(mark.len() as int) == mark);
        assert(next =~= next.take(mark.len() as int) + rest);
    }
    assert(text =~= before + (part + mark) + (rest + after));
    found_between(before, part + mark, rest + after);
}

/// What is shown of a workspace begins with its reference and its name, and tells its path,
/// its branch, when it was created and last active, and whether it is deleted.
pub proof fn shown_workspaces_tell_everything(row: WorkspaceRowView)
    ensures
        ({
            let text = workspace_text(row);
            &&& begins(text, row.workspace.reference + " workspace "@ + shown_name(row))
            &&& has_text(text, "\npath: "@ + row.workspace.path + "\nbranch: "@)
            &&& has_text(text, "\nbranch: "@ + row.workspace.branch + "\ncreated: "@)
            &&& has_text(
                text,
                "\ncreated: "@ + signed_decimal(row.created_at as int) + "\nlast active: "@,
            )
            &&& has_text(
                text,
                "\nlast active: "@ + signed_decimal(row.last_active as int) + "\nstatus: "@,
            )
            &&& row.deleted_at is Some ==> ends(text, "\nstatus: deleted"@)
            &&& row.deleted_at is None ==> ends(text, "\nstatus: active"@) && shown_name(row)
                == row.workspace.name
        }),
{
    let text = workspace_text(row);
    let first = row.workspace.reference + " workspace "@ + shown_name(row);
    let p = "\npath: "@ + row.workspace.path;
    let b = "\nbranch: "@ + row.workspace.branch;
    let c = "\ncreated: "@ + signed_decimal(row.created_at as int);
    let a = "\nlast active: "@ + signed_decimal(row.last_active as int);
    let status = if row.deleted_at is Some {
        "deleted"@
    } else {
        "active"@
    };
    let s = "\nstatus: "@ + status;
    reveal_strlit("\nstatus: ");
    reveal_strlit("deleted");
    reveal_strlit("active");
    reveal_strlit("\nstatus: deleted");
    reveal_strlit("\nstatus: active");
    assert(text =~= first + p + b + c + a + s);
    assert(text.take(first.len() as int) =~= first);
    labelled("\nbranch: "@, row.workspace.branch);
    labelled("\ncreated: "@, signed_decimal(row.created_at as int));
    labelled("\nlast active: "@, signed_decimal(row.last_active as int));
    labelled("\nstatus: "@, status);
    told_in_turn(first, p, b, "\nbranch: "@, c + a + s, text);
    told_in_turn(first + p, b, c, "\ncreated: "@, a + s, text);
    told_in_turn(first + p + b, c, a, "\nlast active: "@, s, text);
    told_in_turn(first + p + b + c, a, s, "\nstatus: "@, Seq::empty(), text);
    assert(text.skip(text.len() - s.len()) =~= s);
    if row.deleted_at is Some {
        assert(s =~= "\nstatus: deleted"@);
    } else {
        assert(s =~= "\nstatus: active"@);
    }
}

/// What is shown of a check begins with its reference and that it passed, and tells its
/// workspace, its target, the version and fingerprint of what was checked, and what that
/// depends on.
pub proof fn shown_checks_tell_everything(row: CheckRecordView)
    ensures
        ({
            let text = check_text(row);
            &&& begins(text, row.reference + " check passed"@)
            &&& has_text(text, "\nworkspace: "@ + row.workspace_ref + "\ntarget: "@)
            &&& has_text(text, "\ntarget: "@ + row.target + "\nsource version: "@)
            &&& has_text(
                text,
                "\nsource version: "@ + decimal(row.source_version as nat) + "\nfingerprint: "@,
            )
            &&& has_text(text, "\nfingerprint: "@ + row.fingerprint + "\ndependencies: "@)
            &&& has_text(text, "\ndependencies: "@ + json_list(row.dependencies) + "\ncreated: "@)
            &&& ends(text, "\ncreated: "@ + signed_decimal(row.created_at as int))
        }),
{
    let text = check_text(row);
    let first = row.reference + " check passed"@;
    let w = "\nworkspace: "@ + row.workspace_ref;
    let t = "\ntarget: "@ + row.target;
    let v = "\nsource version: "@ + decimal(row.source_version as nat);
    let f = "\nfingerprint: "@ + row.fingerprint;
    let d = "\ndependencies: "@ + json_list(row.dependencies);
    let c = "\ncreated: "@ + signed_decimal(row.created_at as int);
    reveal_strlit(" check passed\nworkspace: ");
    reveal_strlit(" check passed");
    reveal_strlit("\nworkspace: ");
    assert(" check passed\nworkspace: "@ =~= " check passed"@ + "\nworkspace: "@);
    assert(text =~= first + w + t + v + f + d + c);
    assert(text.take(first.len() as int) =~= first);
    labelled("\ntarget: "@, row.target);
    labelled("\nsource version: "@, decimal(row.source_version as nat));
    labelled("\nfingerprint: "@, row.fingerprint);
    labelled("\ndependencies: "@, json_list(row.dependencies));
    labelled("\ncreated: "@, signed_decimal(row.created_at as int));
    told_in_turn(first, w, t, "\ntarget: "@, v + f + d + c, text);
    told_in_turn(first + w, t, v, "\nsource version: "@, f + d + c, text);
    told_in_turn(first + w + t, v, f, "\nfingerprint: "@, d + c, text);
    told_in_turn(first + w + t + v, f, d, "\ndependencies: "@, c, text);
    told_in_turn(first + w + t + v + f, d, c, "\ncreated: "@, Seq::empty(), text);
    assert(text.skip(text.len() - c.len()) =~= c);
}

/// What is shown of a synchronisation begins with its reference and its status, and tells
/// its workspace and its detail.
pub proof fn shown_syncs_tell_everything(row: SyncRecordView)
    ensures
        ({
            let text = sync_text(row);
            &&& begins(text, row.reference + " sync "@ + row.status + "\nworkspace: "@)
            &&& has_text(text, "\nworkspace: "@ + row.workspace_ref + "\ndetail: "@)
            &&& has_text(text, "\ndetail: "@ + row.detail + "\ncreated: "@)
            &&& ends(text, "\ncreated: "@ + signed_decimal(row.created_at as int))
        }),
{
    let text = sync_text(row);
    let first = row.reference + " sync "@ + row.status;
    let w = "\nworkspace: "@ + row.workspace_ref;
    let d = "\ndetail: "@ + row.detail;
    let c = "\ncreated: "@ + signed_decimal(row.created_at as int);
    let start = row.reference + " sync "@ + row.status + "\nworkspace: "@;
    assert(text =~= first + w + d + c);
    assert(text.take(start.len() as int) =~= start);
    labelled("\ndetail: "@, row.detail);
    labelled("\ncreated: "@, signed_decimal(row.created_at as int));
    told_in_turn(first, w, d, "\ndetail: "@, c, text);
    told_in_turn(first + w, d, c, "\ncreated: "@, Seq::empty(), text);
    assert(text.skip(text.len() - c.len()) =~= c);
}

/// A reference that names nothing is refused by name, and one of a kind that nothing is
/// recorded under by its kind.
pub proof fn unknown_references_are_refused_by_name(reference: Seq<char>)
    requires
        reference_letter(reference) is Ok,
    ensures
        ({
            let kind = reference_letter(reference)->Ok_0;
            &&& "wcsu"@.contains(kind) ==> show_refusal(reference) == "unknown reference "@
                + reference
            &&& !"wcsu"@.contains(kind) ==> show_refusal(reference)
                == "unknown reference type "@.push(kind)
        }),
{
    let kind = reference_letter(reference)->Ok_0;
    reveal_strlit("wcsu");
    assert("wcsu"@[0] == 'w' && "wcsu"@[1] == 'c' && "wcsu"@[2] == 's' && "wcsu"@[3] == 'u');
    if "wcsu"@.contains(kind) {
        let i = "wcsu"@.index_of(kind);
        assert("wcsu"@[i] == kind);
    }
    assert("unknown reference type "@ + seq![kind] =~= "unknown reference type "@.push(kind));
}

} // verus!

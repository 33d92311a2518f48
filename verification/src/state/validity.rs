//! Whether a record that was read can be worked with.
use crate::state::records::{CheckRecord, Submission, SyncRecord, WorkspaceRow};
use crate::state::store::{
    check_rows, collide, distinct_workspaces, known, single_counters, sound_checks,
    sound_submissions, sound_syncs, submission_rows, sync_rows, workspace_rows, State,
};
use crate::text::make::{same, strs, strs_push};
use vstd::prelude::*;

verus! {

broadcast use strs_push;

/// No text occurs twice.
pub open spec fn once_each(list: Seq<Seq<char>>) -> bool {
    forall|i: int, j: int| 0 <= i < j < list.len() ==> #[trigger] list[i] != #[trigger] list[j]
}

/// Every text is the reference of a recorded workspace.
pub open spec fn all_known(
    workspaces: Seq<crate::state::records::WorkspaceRowView>,
    list: Seq<Seq<char>>,
) -> bool {
    forall|i: int| 0 <= i < list.len() ==> known(workspaces, #[trigger] list[i])
}

fn occur_once(list: &Vec<&str>) -> (r: bool)
    ensures
        r == once_each(strs(list@)),
{
    let ghost views = strs(list@);
    assert(views.len() == list.len());
    for j in 0..list.len()
        invariant
            views == strs(list@),
            views.len() == list.len(),
            forall|a: int, b: int|
                0 <= a < b < j ==> #[trigger] views[a] != #[trigger] views[b],
    {
        assert(views[j as int] == list@[j as int]@);
        for i in 0..j
            invariant
                j < list.len(),
                views == strs(list@),
                views.len() == list.len(),
                views[j as int] == list@[j as int]@,
                forall|a: int| 0 <= a < i ==> #[trigger] views[a] != views[j as int],
        {
            assert(views[i as int] == list@[i as int]@);
            if same(list[i], list[j]) {
                assert(views[i as int] == views[j as int]);
                return false;
            }
        }
    }
    true
}

fn is_known(workspaces: &Vec<WorkspaceRow>, reference: &str) -> (r: bool)
    ensures
        r == known(workspace_rows(workspaces@), reference@),
{
    let ghost rows = workspace_rows(workspaces@);
    for i in 0..workspaces.len()
        invariant
            rows == workspace_rows(workspaces@),
            forall|j: int| 0 <= j < i ==> (#[trigger] rows[j]).workspace.reference != reference@,
    {
        assert(rows[i as int] == workspaces@[i as int]@);
        if same(workspaces[i].workspace.reference.as_str(), reference) {
            assert(rows[i as int].workspace.reference == reference@);
            return true;
        }
    }
    false
}

fn are_known(workspaces: &Vec<WorkspaceRow>, list: &Vec<&str>) -> (r: bool)
    ensures
        r == all_known(workspace_rows(workspaces@), strs(list@)),
{
    let ghost views = strs(list@);
    assert(views.len() == list.len());
    for i in 0..list.len()
        invariant
            views == strs(list@),
            views.len() == list.len(),
            forall|j: int|
                0 <= j < i ==> known(workspace_rows(workspaces@), #[trigger] views[j]),
    {
        assert(views[i as int] == list@[i as int]@);
        if !is_known(workspaces, list[i]) {
            assert(!known(workspace_rows(workspaces@), views[i as int]));
            return false;
        }
    }
    true
}

fn counters_are_single(rows: &Vec<(char, u64)>) -> (r: bool)
    ensures
        r == single_counters(rows@),
{
    for j in 0..rows.len()
        invariant
            forall|a: int, b: int|
                0 <= a < b < j ==> (#[trigger] rows@[a]).0 != (#[trigger] rows@[b]).0,
    {
        for i in 0..j
            invariant
                j < rows.len(),
                forall|a: int| 0 <= a < i ==> (#[trigger] rows@[a]).0 != rows@[j as int].0,
        {
            if rows[i].0 == rows[j].0 {
                assert(rows@[i as int].0 == rows@[j as int].0);
                return false;
            }
        }
    }
    true
}

fn workspaces_are_distinct(rows: &Vec<WorkspaceRow>) -> (r: bool)
    ensures
        r == distinct_workspaces(workspace_rows(rows@)),
{
    let ghost views = workspace_rows(rows@);
    assert(views.len() == rows.len());
    for j in 0..rows.len()
        invariant
            views == workspace_rows(rows@),
            views.len() == rows.len(),
            forall|a: int, b: int|
                0 <= a < b < j ==> !collide(
                    (#[trigger] views[a]).workspace,
                    (#[trigger] views[b]).workspace,
                ),
    {
        assert(views[j as int] == rows@[j as int]@);
        for i in 0..j
            invariant
                j < rows.len(),
                views == workspace_rows(rows@),
                views.len() == rows.len(),
                views[j as int] == rows@[j as int]@,
                forall|a: int|
                    0 <= a < i ==> !collide(
                        (#[trigger] views[a]).workspace,
                        views[j as int].workspace,
                    ),
        {
            assert(views[i as int] == rows@[i as int]@);
            let a = &rows[i].workspace;
            let b = &rows[j].workspace;
            if same(a.reference.as_str(), b.reference.as_str()) || same(
                a.name.as_str(),
                b.name.as_str(),
            ) || same(a.path.as_str(), b.path.as_str()) {
                assert(collide(views[i as int].workspace, views[j as int].workspace));
                return false;
            }
        }
    }
    true
}

fn checks_are_sound(rows: &Vec<CheckRecord>, workspaces: &Vec<WorkspaceRow>) -> (r: bool)
    ensures
        r == sound_checks(check_rows(rows@), workspace_rows(workspaces@)),
{
    let ghost views = check_rows(rows@);
    assert(views.len() == rows.len());
    let mut references: Vec<&str> = Vec::new();
    let mut owners: Vec<&str> = Vec::new();
    for i in 0..rows.len()
        invariant
            views == check_rows(rows@),
            strs(references@).len() == i,
            strs(owners@).len() == i,
            forall|j: int| 0 <= j < i ==> #[trigger] strs(references@)[j] == views[j].reference,
            forall|j: int| 0 <= j < i ==> #[trigger] strs(owners@)[j] == views[j].workspace_ref,
    {
        assert(views[i as int] == rows@[i as int]@);
        references.push(rows[i].reference.as_str());
        owners.push(rows[i].workspace_ref.as_str());
    }
    let ghost refs = strs(references@);
    let ghost owned = strs(owners@);
    let r = occur_once(&references) && are_known(workspaces, &owners);
    proof {
        let known_rows = workspace_rows(workspaces@);
        if sound_checks(views, known_rows) {
            assert(once_each(refs));
            assert(all_known(known_rows, owned));
        }
        if once_each(refs) && all_known(known_rows, owned) {
            assert forall|a: int, b: int| 0 <= a < b < views.len() implies (
            #[trigger] views[a]).reference != (#[trigger] views[b]).reference by {
                assert(refs[a] != refs[b]);
            }
            assert forall|a: int| 0 <= a < views.len() implies known(
                known_rows,
                (#[trigger] views[a]).workspace_ref,
            ) by {
                assert(known(known_rows, owned[a]));
            }
        }
    }
    r
}

fn syncs_are_sound(rows: &Vec<SyncRecord>, workspaces: &Vec<WorkspaceRow>) -> (r: bool)
    ensures
        r == sound_syncs(sync_rows(rows@), workspace_rows(workspaces@)),
{
    let ghost views = sync_rows(rows@);
    assert(views.len() == rows.len());
    let mut references: Vec<&str> = Vec::new();
    let mut owners: Vec<&str> = Vec::new();
    for i in 0..rows.len()
        invariant
            views == sync_rows(rows@),
            strs(references@).len() == i,
            strs(owners@).len() == i,
            forall|j: int| 0 <= j < i ==> #[trigger] strs(references@)[j] == views[j].reference,
            forall|j: int| 0 <= j < i ==> #[trigger] strs(owners@)[j] == views[j].workspace_ref,
    {
        assert(views[i as int] == rows@[i as int]@);
        references.push(rows[i].reference.as_str());
        owners.push(rows[i].workspace_ref.as_str());
    }
    let ghost refs = strs(references@);
    let ghost owned = strs(owners@);
    let r = occur_once(&references) && are_known(workspaces, &owners);
    proof {
        let known_rows = workspace_rows(workspaces@);
        if sound_syncs(views, known_rows) {
            assert(once_each(refs));
            assert(all_known(known_rows, owned));
        }
        if once_each(refs) && all_known(known_rows, owned) {
            assert forall|a: int, b: int| 0 <= a < b < views.len() implies (
            #[trigger] views[a]).reference != (#[trigger] views[b]).reference by {
                assert(refs[a] != refs[b]);
            }
            assert forall|a: int| 0 <= a < views.len() implies known(
                known_rows,
                (#[trigger] views[a]).workspace_ref,
            ) by {
                assert(known(known_rows, owned[a]));
            }
        }
    }
    r
}

fn submissions_are_sound(rows: &Vec<Submission>, workspaces: &Vec<WorkspaceRow>) -> (r: bool)
    ensures
        r == sound_submissions(submission_rows(rows@), workspace_rows(workspaces@)),
{
    let ghost views = submission_rows(rows@);
    assert(views.len() == rows.len());
    let mut references: Vec<&str> = Vec::new();
    let mut owners: Vec<&str> = Vec::new();
    for i in 0..rows.len()
        invariant
            views == submission_rows(rows@),
            strs(references@).len() == i,
            strs(owners@).len() == i,
            forall|j: int| 0 <= j < i ==> #[trigger] strs(references@)[j] == views[j].reference,
            forall|j: int| 0 <= j < i ==> #[trigger] strs(owners@)[j] == views[j].workspace_ref,
    {
        assert(views[i as int] == rows@[i as int]@);
        references.push(rows[i].reference.as_str());
        owners.push(rows[i].workspace_ref.as_str());
    }
    let ghost refs = strs(references@);
    let ghost owned = strs(owners@);
    let r = occur_once(&references) && are_known(workspaces, &owners);
    proof {
        let known_rows = workspace_rows(workspaces@);
        if sound_submissions(views, known_rows) {
            assert(once_each(refs));
            assert(all_known(known_rows, owned));
        }
        if once_each(refs) && all_known(known_rows, owned) {
            assert forall|a: int, b: int| 0 <= a < b < views.len() implies (
            #[trigger] views[a]).reference != (#[trigger] views[b]).reference by {
                assert(refs[a] != refs[b]);
            }
            assert forall|a: int| 0 <= a < views.len() implies known(
                known_rows,
                (#[trigger] views[a]).workspace_ref,
            ) by {
                assert(known(known_rows, owned[a]));
            }
        }
    }
    r
}

impl State {
    /// Whether no two rows of a table share what identifies them, and every row belongs to
    /// a recorded workspace.
    pub fn is_valid(&self) -> (r: bool)
        ensures
            r == self@.valid(),
    {
        counters_are_single(&self.counters) && workspaces_are_distinct(&self.workspaces)
            && checks_are_sound(&self.checks, &self.workspaces) && syncs_are_sound(
            &self.syncs,
            &self.workspaces,
        ) && submissions_are_sound(&self.submissions, &self.workspaces)
    }
}

} // verus!

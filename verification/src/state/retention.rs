//! Dropping old build outputs from the record.
use crate::order::{key_list, positions, rank, ranking, ranking_is_permutation};
use crate::search::exact::codes_of;
use crate::search::rank::codes;
use crate::state::build_logs::{
    after_dropping, distinct_logs, dropping_twice_is_dropping_once, enriched,
    enriched_validation_detail, expired, expired_build_logs, kept_logs, kept_outputs_are_recent,
    kept_outputs_fit_the_budget, log_bytes, log_rows, recent_log, retention, summary_of,
    BuildLogSummary, LogRow, LogRowView, RAW_LOG_BUDGET,
};
use crate::state::records::{Submission, SubmissionView};
use crate::state::store::{same_owners, submission_rows, State, StateView};
use crate::text::make::{byte_length, prefix_all, prefix_step, same, strings};
use crate::text::pieces::has_string;
use vstd::prelude::*;

verus! {

/// A validation that has an outcome.
pub open spec fn finished(s: SubmissionView) -> bool {
    s.validation_status == "passed"@ || s.validation_status == "failed"@
}

fn is_finished(s: &Submission) -> (r: bool)
    ensures
        r == finished(s@),
{
    same(s.validation_status.as_str(), "passed") || same(s.validation_status.as_str(), "failed")
}

/// A time as a number that orders alike.
pub open spec fn time_code(t: i64) -> u64 {
    (t - i64::MIN) as u64
}

/// Submissions are placed by their time, then by their reference.
pub open spec fn submission_key(s: SubmissionView) -> Seq<u64> {
    seq![time_code(s.created_at)] + codes(s.reference)
}

/// The places of submissions, the newest first.
pub open spec fn newest_first(rows: Seq<SubmissionView>) -> Seq<int> {
    ranking(rows.map_values(|s: SubmissionView| submission_key(s))).reverse()
}

/// What a finished validation has of build output.
pub open spec fn log_row(s: SubmissionView) -> LogRowView {
    LogRowView {
        reference: s.reference,
        failed: s.validation_status == "failed"@,
        size: match s.build_output {
            Some(output) => Some(byte_length(output) as u64),
            None => None,
        },
    }
}

/// The finished validations among the submissions at some places.
pub open spec fn finished_at(rows: Seq<SubmissionView>, places: Seq<int>) -> Seq<LogRowView>
    decreases places.len(),
{
    if places.len() == 0 {
        Seq::empty()
    } else {
        let before = finished_at(rows, places.drop_last());
        let s = rows[places.last()];
        if finished(s) {
            before.push(log_row(s))
        } else {
            before
        }
    }
}

/// The finished validations, the newest first.
pub open spec fn finished_logs(rows: Seq<SubmissionView>) -> Seq<LogRowView> {
    finished_at(rows, newest_first(rows))
}

/// A submission once its build output has been summarised, and dropped unless it is kept.
pub open spec fn pruned_row(s: SubmissionView, kept: Seq<Seq<char>>) -> SubmissionView {
    if finished(s) && s.build_output is Some {
        SubmissionView {
            build_summary: if s.build_summary is None {
                Some(summary_of(s.build_output->0))
            } else {
                s.build_summary
            },
            validation_detail: if s.build_summary is None {
                enriched(s.validation_detail, s.build_output)
            } else {
                s.validation_detail
            },
            build_output: if kept.contains(s.reference) {
                s.build_output
            } else {
                None
            },
            ..s
        }
    } else {
        s
    }
}

/// Submissions once the build outputs that do not fit the budget have been dropped.
pub open spec fn pruned(rows: Seq<SubmissionView>, budget: nat) -> Seq<SubmissionView> {
    rows.map_values(
        |s: SubmissionView| pruned_row(s, retention(finished_logs(rows), budget).kept),
    )
}

fn collect_finished(rows: &Vec<Submission>) -> (r: Vec<LogRow>)
    ensures
        log_rows(r@) == finished_logs(submission_rows(rows@)),
{
    let ghost views = submission_rows(rows@);
    let ghost wanted = views.map_values(|s: SubmissionView| submission_key(s));
    let mut keys: Vec<Vec<u64>> = Vec::new();
    assert(key_list(keys@) =~= wanted.take(0));
    for i in 0..rows.len()
        invariant
            views == submission_rows(rows@),
            wanted == views.map_values(|s: SubmissionView| submission_key(s)),
            keys.len() == i,
            key_list(keys@) == wanted.take(i as int),
    {
        proof {
            prefix_step(wanted, i as int);
        }
        assert(views[i as int] == rows@[i as int]@);
        let mut key: Vec<u64> = Vec::new();
        key.push((rows[i].created_at as i128 - i64::MIN as i128) as u64);
        let mut rest = codes_of(rows[i].reference.as_str());
        key.append(&mut rest);
        assert(key@ =~= wanted[i as int]);
        let ghost before = key_list(keys@);
        keys.push(key);
        assert(key_list(keys@) =~= before.push(wanted[i as int]));
    }
    proof {
        prefix_all(wanted);
    }
    let order = rank(&keys);
    let total = order.len();
    let ghost places = newest_first(views);
    assert(positions(order@).len() == total);
    assert(places.len() == total);
    let mut out: Vec<LogRow> = Vec::new();
    assert(log_rows(out@) =~= finished_at(views, places.take(0)));
    for k in 0..total
        invariant
            views == submission_rows(rows@),
            total == order.len(),
            total == keys.len(),
            rows.len() == keys.len(),
            places.len() == total,
            forall|j: int| 0 <= j < total ==> (#[trigger] order@[j]) < keys.len(),
            places == positions(order@).reverse(),
            log_rows(out@) == finished_at(views, places.take(k as int)),
    {
        proof {
            prefix_step(places, k as int);
        }
        let i = order[total - 1 - k];
        assert(places[k as int] == positions(order@)[total - 1 - k]);
        assert(places[k as int] == i);
        let s = &rows[i];
        assert(views[i as int] == s@);
        if is_finished(s) {
            let row = LogRow {
                reference: s.reference.clone(),
                failed: same(s.validation_status.as_str(), "failed"),
                size: match &s.build_output {
                    Some(output) => Some(output.as_str().len() as u64),
                    None => None,
                },
            };
            assert(row@ == log_row(s@));
            let ghost before = log_rows(out@);
            out.push(row);
            assert(log_rows(out@) =~= before.push(row@));
        }
    }
    proof {
        prefix_all(places);
    }
    out
}

fn prune_row(s: &Submission, kept: &Vec<String>) -> (r: Submission)
    ensures
        r@ == pruned_row(s@, strings(kept@)),
{
    let mut row = s.copy();
    if is_finished(s) {
        if let Some(output) = &s.build_output {
            if row.build_summary.is_none() {
                row.build_summary = Some(BuildLogSummary::from_output(output.as_str()));
                row.validation_detail = enriched_validation_detail(
                    &s.validation_detail,
                    &s.build_output,
                );
            }
            if !has_string(kept, s.reference.as_str()) {
                row.build_output = None;
            }
        }
    }
    row
}

impl State {
    /// Keeps a summary of every build output, and drops those that do not fit a budget or
    /// are not recent. Tells how many were dropped.
    pub fn prune_build_logs_with_budget(&mut self, budget: u64) -> (r: usize)
        requires
            old(self)@.valid(),
        ensures
            final(self)@.valid(),
            final(self)@ == (StateView {
                submissions: pruned(old(self)@.submissions, budget as nat),
                ..old(self)@
            }),
            r == expired(
                finished_logs(old(self)@.submissions),
                retention(finished_logs(old(self)@.submissions), budget as nat).kept,
            ).len(),
    {
        let ghost rows = self@.submissions;
        let ghost after = pruned(rows, budget as nat);
        let logs = collect_finished(&self.submissions);
        let kept = kept_logs(&logs, budget);
        let dropped = expired_build_logs(&logs, budget);
        assert(strings(dropped@).len() == dropped.len());
        let total = self.submissions.len();
        let mut updated: Vec<Submission> = Vec::new();
        assert(submission_rows(updated@) =~= after.take(0));
        for i in 0..total
            invariant
                rows == submission_rows(self.submissions@),
                total == self.submissions.len(),
                *self == *old(self),
                after == pruned(rows, budget as nat),
                strings(kept@) == retention(finished_logs(rows), budget as nat).kept,
                submission_rows(updated@) == after.take(i as int),
        {
            assert(rows[i as int] == self.submissions@[i as int]@);
            let row = prune_row(&self.submissions[i], &kept);
            proof {
                prefix_step(after, i as int);
            }
            let ghost before = updated@;
            updated.push(row);
            assert(submission_rows(updated@) =~= submission_rows(before).push(row@));
        }
        proof {
            prefix_all(after);
            same_owners(rows, after, self@.workspaces);
        }
        self.submissions = updated;
        dropped.len()
    }

    /// Keeps a bounded recent window of build outputs, see
    /// [`State::prune_build_logs_with_budget`].
    pub fn prune_build_logs(&mut self) -> (r: usize)
        requires
            old(self)@.valid(),
        ensures
            final(self)@.valid(),
            final(self)@ == (StateView {
                submissions: pruned(old(self)@.submissions, RAW_LOG_BUDGET as nat),
                ..old(self)@
            }),
            r == expired(
                finished_logs(old(self)@.submissions),
                retention(finished_logs(old(self)@.submissions), RAW_LOG_BUDGET as nat).kept,
            ).len(),
    {
        self.prune_build_logs_with_budget(RAW_LOG_BUDGET)
    }
}

/// Whatever becomes of its build output, a submission keeps its commits, checks, status,
/// axioms and open declarations; and one that had an output has a summary.
pub proof fn pruning_keeps_evidence(rows: Seq<SubmissionView>, budget: nat, i: int)
    requires
        0 <= i < rows.len(),
    ensures
        pruned(rows, budget).len() == rows.len(),
        pruned(rows, budget)[i] == (SubmissionView {
            build_output: pruned(rows, budget)[i].build_output,
            build_summary: pruned(rows, budget)[i].build_summary,
            validation_detail: pruned(rows, budget)[i].validation_detail,
            ..rows[i]
        }),
        finished(rows[i]) && rows[i].build_output is Some ==> pruned(rows, budget)[i].build_summary
            is Some,
        !finished(rows[i]) ==> pruned(rows, budget)[i] == rows[i],
        rows[i].build_summary is Some ==> pruned(rows, budget)[i].build_summary
            == rows[i].build_summary,
{
}

/// No two submissions share a reference.
pub open spec fn distinct_submissions(rows: Seq<SubmissionView>) -> bool {
    forall|i: int, j: int|
        0 <= i < j < rows.len() ==> (#[trigger] rows[i]).reference != (#[trigger] rows[j]).reference
}

proof fn finished_stand_somewhere(rows: Seq<SubmissionView>, places: Seq<int>, k: int) -> (p: int)
    requires
        0 <= k < finished_at(rows, places).len(),
    ensures
        0 <= p < places.len(),
        finished_at(rows, places)[k] == log_row(rows[places[p]]),
    decreases places.len(),
{
    let shorter = places.drop_last();
    if k < finished_at(rows, shorter).len() {
        let p = finished_stand_somewhere(rows, shorter, k);
        assert(shorter[p] == places[p]);
        p
    } else {
        places.len() - 1
    }
}

proof fn finished_are_distinct(rows: Seq<SubmissionView>, places: Seq<int>)
    requires
        distinct_submissions(rows),
        places.no_duplicates(),
        forall|k: int| 0 <= k < places.len() ==> 0 <= #[trigger] places[k] < rows.len(),
    ensures
        distinct_logs(finished_at(rows, places)),
    decreases places.len(),
{
    if places.len() > 0 {
        let shorter = places.drop_last();
        finished_are_distinct(rows, shorter);
        let before = finished_at(rows, shorter);
        let all = finished_at(rows, places);
        assert forall|i: int, j: int| 0 <= i < j < all.len() implies (#[trigger] all[i]).reference
            != (#[trigger] all[j]).reference by {
            if j == before.len() {
                let p = finished_stand_somewhere(rows, shorter, i);
                assert(before[i] == all[i]);
                let a = shorter[p];
                let b = places.last();
                assert(places[p] == a);
                assert(a != b);
                if a < b {
                    assert(rows[a].reference != rows[b].reference);
                } else {
                    assert(rows[b].reference != rows[a].reference);
                }
            } else {
                assert(before[i] == all[i]);
                assert(before[j] == all[j]);
            }
        }
    }
}

proof fn places_are_places(rows: Seq<SubmissionView>)
    ensures
        newest_first(rows).no_duplicates(),
        forall|k: int|
            0 <= k < newest_first(rows).len() ==> 0 <= #[trigger] newest_first(rows)[k]
                < rows.len(),
{
    let keys = rows.map_values(|s: SubmissionView| submission_key(s));
    let order = ranking(keys);
    ranking_is_permutation(keys);
    let places = newest_first(rows);
    assert forall|i: int, j: int|
        0 <= i < places.len() && 0 <= j < places.len() && i != j implies places[i] != places[j] by {
        assert(places[i] == order[order.len() - 1 - i]);
        assert(places[j] == order[order.len() - 1 - j]);
    }
    assert forall|k: int| 0 <= k < places.len() implies 0 <= #[trigger] places[k] < rows.len() by {
        assert(places[k] == order[order.len() - 1 - k]);
    }
}

/// Every finished validation counts once.
pub proof fn finished_count_once(rows: Seq<SubmissionView>)
    requires
        distinct_submissions(rows),
    ensures
        distinct_logs(finished_logs(rows)),
{
    places_are_places(rows);
    finished_are_distinct(rows, newest_first(rows));
}

proof fn pruned_at(
    rows: Seq<SubmissionView>,
    after: Seq<SubmissionView>,
    kept: Seq<Seq<char>>,
    places: Seq<int>,
)
    requires
        after == rows.map_values(|s: SubmissionView| pruned_row(s, kept)),
        forall|k: int| 0 <= k < places.len() ==> 0 <= #[trigger] places[k] < rows.len(),
    ensures
        finished_at(after, places) == finished_at(rows, places).map_values(
            |r: LogRowView|
                LogRowView {
                    size: if kept.contains(r.reference) {
                        r.size
                    } else {
                        None
                    },
                    ..r
                },
        ),
    decreases places.len(),
{
    let dropped = |r: LogRowView|
        LogRowView {
            size: if kept.contains(r.reference) {
                r.size
            } else {
                None
            },
            ..r
        };
    if places.len() > 0 {
        pruned_at(rows, after, kept, places.drop_last());
        let i = places[places.len() - 1];
        assert(after[i] == pruned_row(rows[i], kept));
        assert(finished(after[i]) == finished(rows[i]));
        if finished(rows[i]) {
            assert(log_row(after[i]) == dropped(log_row(rows[i])));
        }
    }
    assert(finished_at(after, places) =~= finished_at(rows, places).map_values(dropped));
}

proof fn pruning_drops_logs(rows: Seq<SubmissionView>, budget: nat)
    ensures
        finished_logs(pruned(rows, budget)) == after_dropping(finished_logs(rows), budget),
{
    let after = pruned(rows, budget);
    let kept = retention(finished_logs(rows), budget).kept;
    assert(after =~= rows.map_values(|s: SubmissionView| pruned_row(s, kept)));
    assert(after.map_values(|s: SubmissionView| submission_key(s)) =~= rows.map_values(
        |s: SubmissionView| submission_key(s),
    ));
    places_are_places(rows);
    pruned_at(rows, after, kept, newest_first(rows));
    assert(finished_logs(after) =~= after_dropping(finished_logs(rows), budget));
}

/// After build outputs have been dropped, those that are left are among the ten newest or
/// the ten newest failures, and take no more than the budget.
pub proof fn left_outputs_are_recent_and_fit(rows: Seq<SubmissionView>, budget: nat, k: int)
    requires
        distinct_submissions(rows),
        0 <= k < finished_logs(rows).len(),
    ensures
        finished_logs(pruned(rows, budget)).len() == finished_logs(rows).len(),
        finished_logs(pruned(rows, budget))[k].size is Some ==> recent_log(finished_logs(rows), k),
        log_bytes(finished_logs(pruned(rows, budget))) <= budget,
{
    finished_count_once(rows);
    pruning_drops_logs(rows, budget);
    let logs = finished_logs(rows);
    kept_outputs_fit_the_budget(logs, budget);
    if retention(logs, budget).kept.contains(logs[k].reference) {
        kept_outputs_are_recent(logs, budget, k);
    }
}

/// Dropping build outputs a second time with the same budget drops none.
pub proof fn pruning_twice_is_pruning_once(rows: Seq<SubmissionView>, budget: nat)
    requires
        distinct_submissions(rows),
    ensures
        expired(
            finished_logs(pruned(rows, budget)),
            retention(finished_logs(pruned(rows, budget)), budget).kept,
        ).len() == 0,
{
    finished_count_once(rows);
    pruning_drops_logs(rows, budget);
    dropping_twice_is_dropping_once(finished_logs(rows), budget);
}

/// In a valid record the outputs that are left after a pass are recent and fit the budget,
/// and a second pass drops none.
pub proof fn valid_records_settle(state: StateView, budget: nat)
    requires
        state.valid(),
    ensures
        ({
            let logs = finished_logs(state.submissions);
            let left = finished_logs(pruned(state.submissions, budget));
            &&& left.len() == logs.len()
            &&& forall|k: int|
                0 <= k < left.len() && (#[trigger] left[k]).size is Some ==> recent_log(logs, k)
            &&& log_bytes(left) <= budget
            &&& expired(left, retention(left, budget).kept).len() == 0
        }),
{
    let rows = state.submissions;
    finished_count_once(rows);
    pruning_drops_logs(rows, budget);
    kept_outputs_fit_the_budget(finished_logs(rows), budget);
    pruning_twice_is_pruning_once(rows, budget);
    let left = finished_logs(pruned(rows, budget));
    assert forall|k: int| 0 <= k < left.len() && (#[trigger] left[k]).size is Some implies recent_log(
        finished_logs(rows),
        k,
    ) by {
        left_outputs_are_recent_and_fit(rows, budget, k);
    }
}

} // verus!

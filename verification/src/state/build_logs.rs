//! Which build outputs are kept, and what remains of the others.
use crate::state::display::{count_warnings, warning_count};
use crate::text::layout::{front, sublist, take_front};
use crate::text::make::{
    byte_length, cat2, copy_opt, join_strs, joined, prefix_all, prefix_step, same, strings,
    strings_push, strs, to_chars,
};
use crate::text::pieces::{has_string, line_list, lines};
use crate::text::scan::{
    bare, bare_start, begins, contains, has_text, opt_string, starts_with, trim, trim_start,
    up_to, width, strip_prefix, after_prefix,
};
use crate::text::utf8::{char_width, utf8_length, utf8_length_counts_bytes};
use vstd::prelude::*;

verus! {

broadcast use strings_push;

/// How many bytes of diagnostics a summary keeps.
pub const SUMMARY_BYTES: usize = 8192;

/// How many bytes of raw build outputs are kept.
pub const RAW_LOG_BUDGET: u64 = 268_435_456;

/// What remains of a build output.
#[derive(Debug)]
pub struct BuildLogSummary {
    pub original_bytes: u64,
    pub warnings: usize,
    pub diagnostics: String,
}

/// The contents of a [`BuildLogSummary`].
pub struct SummaryView {
    pub original_bytes: u64,
    pub warnings: usize,
    pub diagnostics: Seq<char>,
}

impl View for BuildLogSummary {
    type V = SummaryView;

    open spec fn view(&self) -> SummaryView {
        SummaryView {
            original_bytes: self.original_bytes,
            warnings: self.warnings,
            diagnostics: self.diagnostics@,
        }
    }
}

/// The view of an optional summary.
pub open spec fn opt_summary(summary: Option<BuildLogSummary>) -> Option<SummaryView> {
    match summary {
        Some(s) => Some(s@),
        None => None,
    }
}

/// A copy of an optional summary.
pub fn copy_summary(summary: &Option<BuildLogSummary>) -> (r: Option<BuildLogSummary>)
    ensures
        opt_summary(r) == opt_summary(*summary),
{
    match summary {
        Some(s) => Some(
            BuildLogSummary {
                original_bytes: s.original_bytes,
                warnings: s.warnings,
                diagnostics: s.diagnostics.clone(),
            },
        ),
        None => None,
    }
}

/// What remains of a build output: its size, how many warnings it has, and its
/// diagnostics, see [`excerpt`].
pub open spec fn summary_of(output: Seq<char>) -> SummaryView {
    SummaryView {
        original_bytes: byte_length(output) as u64,
        warnings: warning_count(line_list(output)) as usize,
        diagnostics: excerpt(output),
    }
}

/// A line that reports an error.
pub open spec fn error_line(line: Seq<char>) -> bool {
    begins(bare_start(line), "error:"@) || has_text(line, " error:"@)
}

/// The first position from `i` on with an error, or the number of lines.
pub open spec fn error_from(list: Seq<Seq<char>>, i: int) -> int
    decreases list.len() - i,
{
    if i >= list.len() || error_line(list[i]) {
        i
    } else {
        error_from(list, i + 1)
    }
}

/// The first position from `i` on with a warning, or the number of lines.
pub open spec fn warning_from(list: Seq<Seq<char>>, i: int) -> int
    decreases list.len() - i,
{
    if i >= list.len() || begins(bare_start(list[i]), "warning:"@) {
        i
    } else {
        warning_from(list, i + 1)
    }
}

/// Where the diagnostics of a build output begin: at the first error, else at the first
/// warning, else ten lines from the end.
pub open spec fn diagnostics_start(list: Seq<Seq<char>>) -> int {
    if error_from(list, 0) < list.len() {
        error_from(list, 0)
    } else if warning_from(list, 0) < list.len() {
        warning_from(list, 0)
    } else if list.len() > 10 {
        list.len() - 10
    } else {
        0
    }
}

fn find_error(list: &Vec<&str>) -> (r: usize)
    ensures
        r == error_from(strs(list@), 0),
        r <= list.len(),
{
    for i in 0..list.len()
        invariant
            error_from(strs(list@), 0) == error_from(strs(list@), i as int),
    {
        assert(strs(list@)[i as int] == list@[i as int]@);
        if starts_with(trim_start(list[i]), "error:") || contains(list[i], " error:") {
            return i;
        }
    }
    list.len()
}

fn find_warning(list: &Vec<&str>) -> (r: usize)
    ensures
        r == warning_from(strs(list@), 0),
        r <= list.len(),
{
    for i in 0..list.len()
        invariant
            warning_from(strs(list@), 0) == warning_from(strs(list@), i as int),
    {
        assert(strs(list@)[i as int] == list@[i as int]@);
        if starts_with(trim_start(list[i]), "warning:") {
            return i;
        }
    }
    list.len()
}

/// How many characters, counted from position `i` with `used` bytes before it, fit in
/// a number of bytes.
pub open spec fn fitting_from(text: Seq<char>, bytes: nat, i: int, used: nat) -> int
    decreases text.len() - i,
{
    if i < text.len() && used + width(text[i]) <= bytes {
        fitting_from(text, bytes, i + 1, used + width(text[i]))
    } else {
        i
    }
}

/// The longest beginning of a text that fits in a number of bytes.
pub open spec fn fitting(text: Seq<char>, bytes: nat) -> Seq<char> {
    text.take(fitting_from(text, bytes, 0, 0))
}

fn fit<'a>(text: &'a str, bytes: usize) -> (r: &'a str)
    requires
        bytes <= 0x1000_0000,
    ensures
        r@ == fitting(text@, bytes as nat),
{
    let chars = to_chars(text);
    let mut i: usize = 0;
    let mut used: usize = 0;
    while i < chars.len() && used + char_width(chars[i]) <= bytes
        invariant
            chars@ == text@,
            i <= chars.len(),
            used <= bytes <= 0x1000_0000,
            fitting_from(text@, bytes as nat, 0, 0) == fitting_from(
                text@,
                bytes as nat,
                i as int,
                used as nat,
            ),
        decreases chars.len() - i,
    {
        used += char_width(chars[i]);
        i += 1;
    }
    up_to(text, i)
}

/// A text that was cut to fit takes no more than the bytes it was given.
pub proof fn fitting_fits(text: Seq<char>, bytes: nat)
    ensures
        utf8_length(fitting(text, bytes)) <= bytes,
        vstd::utf8::encode_utf8(fitting(text, bytes)).len() <= bytes,
{
    utf8_length_counts_bytes(fitting(text, bytes));
    assert(text.take(0) =~= Seq::empty());
    fitting_from_fits(text, bytes, 0, 0);
}

proof fn fitting_from_fits(text: Seq<char>, bytes: nat, i: int, used: nat)
    requires
        0 <= i <= text.len(),
        used <= bytes,
        used == utf8_length(text.take(i)),
    ensures
        i <= fitting_from(text, bytes, i, used) <= text.len(),
        utf8_length(text.take(fitting_from(text, bytes, i, used))) <= bytes,
    decreases text.len() - i,
{
    if i < text.len() && used + width(text[i]) <= bytes {
        prefix_step(text, i);
        fitting_from_fits(text, bytes, i + 1, used + width(text[i]));
    }
}

/// The diagnostics of a build output: up to twenty lines, cut to a number of bytes.
pub open spec fn excerpt(output: Seq<char>) -> Seq<char> {
    let list = line_list(output);
    let text = joined(front(list.skip(diagnostics_start(list)), 20), "\n"@);
    if byte_length(text) > SUMMARY_BYTES {
        fitting(text, SUMMARY_BYTES as nat) + "\n[diagnostic excerpt truncated]"@
    } else {
        text
    }
}

impl BuildLogSummary {
    /// Computes [`summary_of`].
    pub fn from_output(output: &str) -> (r: Self)
        ensures
            r@ == summary_of(output@),
            r.warnings == warning_count(line_list(output@)),
    {
        let list = lines(output);
        assert(strs(list@).len() == list.len());
        let error = find_error(&list);
        let start: usize = if error < list.len() {
            error
        } else {
            let warning = find_warning(&list);
            if warning < list.len() {
                warning
            } else if list.len() > 10 {
                list.len() - 10
            } else {
                0
            }
        };
        let rest = sublist(&list, start, list.len());
        assert(strs(list@).subrange(start as int, list.len() as int) =~= strs(list@).skip(
            start as int,
        ));
        let text = join_strs(&take_front(&rest, 20), "\n");
        let diagnostics = if text.as_str().len() > SUMMARY_BYTES {
            cat2(fit(text.as_str(), SUMMARY_BYTES), "\n[diagnostic excerpt truncated]")
        } else {
            text
        };
        BuildLogSummary {
            original_bytes: output.len() as u64,
            warnings: count_warnings(output),
            diagnostics,
        }
    }
}

/// A finished validation with the size of the build output that is still kept.
#[derive(Debug)]
pub struct LogRow {
    pub reference: String,
    pub failed: bool,
    pub size: Option<u64>,
}

/// The contents of a [`LogRow`].
pub struct LogRowView {
    pub reference: Seq<char>,
    pub failed: bool,
    pub size: Option<u64>,
}

impl View for LogRow {
    type V = LogRowView;

    open spec fn view(&self) -> LogRowView {
        LogRowView { reference: self.reference@, failed: self.failed, size: self.size }
    }
}

/// The contents of a list of finished validations.
pub open spec fn log_rows(rows: Seq<LogRow>) -> Seq<LogRowView> {
    rows.map_values(|r: LogRow| r@)
}

/// What is kept of the newest validations: their references, how many of them failed,
/// and how many bytes are kept.
pub struct Retention {
    pub kept: Seq<Seq<char>>,
    pub failures: nat,
    pub bytes: nat,
}

/// A build output is kept among the ten newest, or among the ten newest failures, where
/// it fits in what is left of the budget.
pub open spec fn retention(rows: Seq<LogRowView>, budget: nat) -> Retention
    decreases rows.len(),
{
    if rows.len() == 0 {
        Retention { kept: Seq::empty(), failures: 0, bytes: 0 }
    } else {
        let before = retention(rows.drop_last(), budget);
        let row = rows.last();
        let failures = if row.failed {
            before.failures + 1
        } else {
            before.failures
        };
        let recent = rows.len() <= 10 || (row.failed && failures <= 10);
        if recent && row.size is Some && before.bytes + row.size->0 <= budget {
            Retention {
                kept: before.kept.push(row.reference),
                failures,
                bytes: before.bytes + row.size->0 as nat,
            }
        } else {
            Retention { failures, ..before }
        }
    }
}

/// The build outputs to drop.
pub open spec fn expired(rows: Seq<LogRowView>, kept: Seq<Seq<char>>) -> Seq<Seq<char>>
    decreases rows.len(),
{
    if rows.len() == 0 {
        Seq::empty()
    } else {
        let before = expired(rows.drop_last(), kept);
        if rows.last().size is Some && !kept.contains(rows.last().reference) {
            before.push(rows.last().reference)
        } else {
            before
        }
    }
}

/// Which build outputs to keep: `rows` lists the finished validations, the newest first.
pub fn kept_logs(rows: &Vec<LogRow>, budget: u64) -> (r: Vec<String>)
    ensures
        strings(r@) == retention(log_rows(rows@), budget as nat).kept,
{
    let ghost views = log_rows(rows@);
    let mut kept: Vec<String> = Vec::new();
    let mut failures: usize = 0;
    let mut bytes: u64 = 0;
    assert(strings(kept@) =~= Seq::empty());
    for i in 0..rows.len()
        invariant
            views == log_rows(rows@),
            failures <= i,
            bytes <= budget,
            strings(kept@) == retention(views.take(i as int), budget as nat).kept,
            failures == retention(views.take(i as int), budget as nat).failures,
            bytes == retention(views.take(i as int), budget as nat).bytes,
    {
        proof {
            prefix_step(views, i as int);
        }
        assert(views[i as int] == rows@[i as int]@);
        let row = &rows[i];
        if row.failed {
            failures += 1;
        }
        if i < 10 || (row.failed && failures <= 10) {
            if let Some(size) = row.size {
                if size <= budget - bytes {
                    kept.push(row.reference.clone());
                    bytes += size;
                }
            }
        }
    }
    proof {
        prefix_all(views);
    }
    kept
}

/// Which build outputs to drop: `rows` lists the finished validations, the newest first.
pub fn expired_build_logs(rows: &Vec<LogRow>, budget: u64) -> (r: Vec<String>)
    ensures
        strings(r@) == expired(log_rows(rows@), retention(log_rows(rows@), budget as nat).kept),
{
    let ghost views = log_rows(rows@);
    let kept = kept_logs(rows, budget);
    let mut out: Vec<String> = Vec::new();
    for i in 0..rows.len()
        invariant
            views == log_rows(rows@),
            strings(out@) == expired(views.take(i as int), strings(kept@)),
    {
        proof {
            prefix_step(views, i as int);
        }
        assert(views[i as int] == rows@[i as int]@);
        if rows[i].size.is_some() && !has_string(&kept, rows[i].reference.as_str()) {
            out.push(rows[i].reference.clone());
        }
    }
    proof {
        prefix_all(views);
    }
    out
}

/// What is kept stays within the budget, and is at most twenty build outputs.
pub proof fn retention_is_bounded(rows: Seq<LogRowView>, budget: nat)
    ensures
        retention(rows, budget).bytes <= budget,
        retention(rows, budget).kept.len() <= 20,
{
    retention_counts(rows, budget);
}

proof fn retention_counts(rows: Seq<LogRowView>, budget: nat)
    ensures
        retention(rows, budget).bytes <= budget,
        retention(rows, budget).failures <= rows.len(),
        retention(rows, budget).kept.len() <= (if rows.len() < 10 {
            rows.len()
        } else {
            10
        }) + (if retention(rows, budget).failures < 10 {
            retention(rows, budget).failures
        } else {
            10
        }),
    decreases rows.len(),
{
    if rows.len() > 0 {
        retention_counts(rows.drop_last(), budget);
    }
}

proof fn retention_grows(rows: Seq<LogRowView>, budget: nat, i: int)
    requires
        0 <= i <= rows.len(),
    ensures
        retention(rows.take(i), budget).bytes <= retention(rows, budget).bytes,
        forall|t: Seq<char>|
            retention(rows.take(i), budget).kept.contains(t) ==> #[trigger] retention(
                rows,
                budget,
            ).kept.contains(t),
    decreases rows.len(),
{
    if i == rows.len() {
        assert(rows.take(i) =~= rows);
    } else {
        let shorter = rows.drop_last();
        assert(shorter.take(i) =~= rows.take(i));
        retention_grows(shorter, budget, i);
        let before = retention(shorter, budget);
        let after = retention(rows, budget);
        assert forall|t: Seq<char>| before.kept.contains(t) implies #[trigger] after.kept.contains(
            t,
        ) by {
            let k = choose|k: int| 0 <= k < before.kept.len() && before.kept[k] == t;
            assert(after.kept[k] == t);
        }
        assert forall|t: Seq<char>|
            retention(rows.take(i), budget).kept.contains(t) implies #[trigger] after.kept.contains(
            t,
        ) by {
            assert(before.kept.contains(t));
        }
    }
}

/// Each of the ten newest build outputs is kept where all of them up to it fit.
pub proof fn recent_outputs_are_kept(rows: Seq<LogRowView>, budget: nat, i: int)
    requires
        0 <= i < rows.len(),
        i < 10,
        rows[i].size is Some,
        retention(rows.take(i), budget).bytes + rows[i].size->0 <= budget,
    ensures
        retention(rows, budget).kept.contains(rows[i].reference),
{
    prefix_step(rows, i);
    let next = rows.take(i + 1);
    let kept = retention(next, budget).kept;
    assert(kept[kept.len() - 1] == rows[i].reference);
    assert(kept.contains(rows[i].reference));
    retention_grows(rows, budget, i + 1);
}

/// No two validations share a reference.
pub open spec fn distinct_logs(rows: Seq<LogRowView>) -> bool {
    forall|i: int, j: int|
        0 <= i < j < rows.len() ==> (#[trigger] rows[i]).reference != (#[trigger] rows[j]).reference
}

/// How many validations failed.
pub open spec fn failed_count(rows: Seq<LogRowView>) -> nat
    decreases rows.len(),
{
    if rows.len() == 0 {
        0
    } else {
        failed_count(rows.drop_last()) + if rows.last().failed {
            1nat
        } else {
            0nat
        }
    }
}

/// A validation is among the first ten, or among the first ten that failed.
pub open spec fn recent_log(rows: Seq<LogRowView>, i: int) -> bool {
    i < 10 || (rows[i].failed && failed_count(rows.take(i + 1)) <= 10)
}

/// A build output is kept for its place, and fits.
spec fn log_fits(rows: Seq<LogRowView>, budget: nat, i: int) -> bool {
    &&& recent_log(rows, i)
    &&& rows[i].size is Some
    &&& retention(rows.take(i), budget).bytes + rows[i].size->0 <= budget
}

proof fn retention_counts_failures(rows: Seq<LogRowView>, budget: nat)
    ensures
        retention(rows, budget).failures == failed_count(rows),
    decreases rows.len(),
{
    if rows.len() > 0 {
        retention_counts_failures(rows.drop_last(), budget);
    }
}

proof fn kept_logs_fit(rows: Seq<LogRowView>, budget: nat, t: Seq<char>) -> (i: int)
    requires
        retention(rows, budget).kept.contains(t),
    ensures
        0 <= i < rows.len(),
        rows[i].reference == t,
        log_fits(rows, budget, i),
    decreases rows.len(),
{
    let shorter = rows.drop_last();
    let before = retention(shorter, budget).kept;
    let after = retention(rows, budget).kept;
    if before.contains(t) {
        let i = kept_logs_fit(shorter, budget, t);
        assert(shorter.take(i) =~= rows.take(i));
        assert(shorter.take(i + 1) =~= rows.take(i + 1));
        assert(shorter[i] == rows[i]);
        i
    } else {
        let k = after.index_of(t);
        if k < before.len() {
            assert(before[k] == t);
        }
        let i = rows.len() - 1;
        assert(rows.take(i) =~= shorter);
        assert(rows.take(i + 1) =~= rows);
        retention_counts_failures(rows, budget);
        i
    }
}

proof fn fitting_logs_are_kept(rows: Seq<LogRowView>, budget: nat, i: int)
    requires
        0 <= i < rows.len(),
        log_fits(rows, budget, i),
    ensures
        retention(rows, budget).kept.contains(rows[i].reference),
{
    prefix_step(rows, i);
    let next = rows.take(i + 1);
    retention_counts_failures(next, budget);
    let kept = retention(next, budget).kept;
    assert(kept[kept.len() - 1] == rows[i].reference);
    assert(kept.contains(rows[i].reference));
    retention_grows(rows, budget, i + 1);
}

proof fn kept_iff_fits(rows: Seq<LogRowView>, budget: nat, i: int)
    requires
        distinct_logs(rows),
        0 <= i < rows.len(),
    ensures
        retention(rows, budget).kept.contains(rows[i].reference) <==> log_fits(rows, budget, i),
{
    if log_fits(rows, budget, i) {
        fitting_logs_are_kept(rows, budget, i);
    }
    if retention(rows, budget).kept.contains(rows[i].reference) {
        let j = kept_logs_fit(rows, budget, rows[i].reference);
        assert(rows[i].reference == rows[j].reference);
    }
}

/// A build output is only kept among the ten newest, or among the ten newest failures.
pub proof fn kept_outputs_are_recent(rows: Seq<LogRowView>, budget: nat, i: int)
    requires
        distinct_logs(rows),
        0 <= i < rows.len(),
        retention(rows, budget).kept.contains(rows[i].reference),
    ensures
        recent_log(rows, i),
{
    kept_iff_fits(rows, budget, i);
}

/// The validations once the build outputs that are not kept have been dropped.
pub open spec fn after_dropping(rows: Seq<LogRowView>, budget: nat) -> Seq<LogRowView> {
    rows.map_values(
        |r: LogRowView|
            LogRowView {
                size: if retention(rows, budget).kept.contains(r.reference) {
                    r.size
                } else {
                    None
                },
                ..r
            },
    )
}

/// How many bytes of build outputs there are.
pub open spec fn log_bytes(rows: Seq<LogRowView>) -> nat
    decreases rows.len(),
{
    if rows.len() == 0 {
        0
    } else {
        log_bytes(rows.drop_last()) + match rows.last().size {
            Some(size) => size as nat,
            None => 0,
        }
    }
}

proof fn dropping_changes_nothing_kept(rows: Seq<LogRowView>, budget: nat, n: int)
    requires
        distinct_logs(rows),
        0 <= n <= rows.len(),
    ensures
        retention(after_dropping(rows, budget).take(n), budget) == retention(
            rows.take(n),
            budget,
        ),
        log_bytes(after_dropping(rows, budget).take(n)) == retention(rows.take(n), budget).bytes,
    decreases n,
{
    let after = after_dropping(rows, budget);
    if n > 0 {
        let i = n - 1;
        dropping_changes_nothing_kept(rows, budget, i);
        kept_iff_fits(rows, budget, i);
        prefix_step(rows, i);
        prefix_step(after, i);
        retention_counts_failures(rows.take(n), budget);
        assert(after[i].failed == rows[i].failed);
        assert(after[i].reference == rows[i].reference);
        assert(after[i].size == if log_fits(rows, budget, i) {
            rows[i].size
        } else {
            None
        });
        let a = retention(after.take(n), budget);
        let b = retention(rows.take(n), budget);
        assert(a.kept =~= b.kept);
    }
}

/// The build outputs that are left take no more than the budget.
pub proof fn kept_outputs_fit_the_budget(rows: Seq<LogRowView>, budget: nat)
    requires
        distinct_logs(rows),
    ensures
        log_bytes(after_dropping(rows, budget)) <= budget,
{
    dropping_changes_nothing_kept(rows, budget, rows.len() as int);
    prefix_all(rows);
    prefix_all(after_dropping(rows, budget));
    retention_is_bounded(rows, budget);
}

proof fn nothing_expires(rows: Seq<LogRowView>, kept: Seq<Seq<char>>)
    requires
        forall|i: int|
            0 <= i < rows.len() ==> ((#[trigger] rows[i]).size is Some ==> kept.contains(
                rows[i].reference,
            )),
    ensures
        expired(rows, kept).len() == 0,
    decreases rows.len(),
{
    if rows.len() > 0 {
        assert(rows.last() == rows[rows.len() - 1]);
        let shorter = rows.drop_last();
        assert forall|i: int|
            0 <= i < shorter.len() && (#[trigger] shorter[i]).size is Some implies kept.contains(
            shorter[i].reference,
        ) by {
            assert(shorter[i] == rows[i]);
        }
        nothing_expires(shorter, kept);
    }
}

/// A second pass over the build outputs drops nothing.
pub proof fn dropping_twice_is_dropping_once(rows: Seq<LogRowView>, budget: nat)
    requires
        distinct_logs(rows),
    ensures
        expired(
            after_dropping(rows, budget),
            retention(after_dropping(rows, budget), budget).kept,
        ).len() == 0,
        after_dropping(after_dropping(rows, budget), budget) == after_dropping(rows, budget),
{
    let after = after_dropping(rows, budget);
    dropping_changes_nothing_kept(rows, budget, rows.len() as int);
    prefix_all(rows);
    prefix_all(after);
    assert forall|i: int|
        0 <= i < after.len() && (#[trigger] after[i]).size is Some implies retention(
        after,
        budget,
    ).kept.contains(after[i].reference) by {
        assert(after[i].reference == rows[i].reference);
    }
    nothing_expires(after, retention(after, budget).kept);
    assert(after_dropping(after, budget) =~= after);
}

/// The detail of a validation with the first error of its build, where the detail itself
/// says no more than that the build failed.
pub open spec fn enriched(detail: Option<Seq<char>>, output: Option<Seq<char>>) -> Option<
    Seq<char>,
> {
    if detail is Some && bare(detail->0) == "build failed"@ && output is Some {
        let list = line_list(output->0);
        let at = first_error(list, 0);
        if at < list.len() {
            Some("build failed: "@ + bare(after_prefix(bare_start(list[at]), "error:"@)->0))
        } else {
            detail
        }
    } else {
        detail
    }
}

/// The first position from `i` on of a line that begins with an error.
pub open spec fn first_error(list: Seq<Seq<char>>, i: int) -> int
    decreases list.len() - i,
{
    if i >= list.len() || begins(bare_start(list[i]), "error:"@) {
        i
    } else {
        first_error(list, i + 1)
    }
}

/// Computes [`enriched`].
pub fn enriched_validation_detail(detail: &Option<String>, output: &Option<String>) -> (r: Option<
    String,
>)
    ensures
        opt_string(r) == enriched(opt_string(*detail), opt_string(*output)),
{
    if let Some(text) = detail {
        if same(trim(text.as_str()), "build failed") {
            if let Some(log) = output {
                let list = lines(log.as_str());
                let ghost views = strs(list@);
                assert(views.len() == list.len());
                for i in 0..list.len()
                    invariant
                        views == strs(list@),
                        views == line_list(log@),
                        views.len() == list.len(),
                        opt_string(*detail) is Some,
                        bare(opt_string(*detail)->0) == "build failed"@,
                        opt_string(*output) == Some(log@),
                        first_error(views, 0) == first_error(views, i as int),
                {
                    assert(views[i as int] == list@[i as int]@);
                    if let Some(rest) = strip_prefix(trim_start(list[i]), "error:") {
                        return Some(cat2("build failed: ", trim(rest)));
                    }
                }
            }
        }
    }
    copy_opt(detail)
}

} // verus!

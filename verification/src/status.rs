//! The state of a project, and its description for publication.
use crate::activity::{
    add_bounded, agent_views, bounded_sum, event_views, AgentStatus, AgentView, ContextEvent, EventView,
};
use crate::search::exact::{sort_texts, sorted_texts};
use crate::search::score::{narrow, narrowed};
use crate::search::tokens::{distinct, without_repeats};
use crate::state::build_logs::{enriched, enriched_validation_detail};
use crate::state::records::{Submission, SubmissionView};
use crate::text::class::{digit, is_digit};
use crate::text::json::{json_text, to_json_text};
use crate::text::layout::{
    brief_hash, one_line, short_hash, shortened, single_line, truncate_line,
};
use crate::text::make::{
    byte_length, cat2, cat3, join, joined, lower, own, prefix_all, prefix_step, push_str, same,
    strings, strings_push, strs, to_chars, to_lower,
};
use crate::text::number::{
    align_left, align_right, decimal, left_aligned, number, pad, padded, parse_i64, parse_u64,
    right_aligned, show, show_size, show_with_sign, signed_number, with_sign,
};
use crate::text::pieces::{line_list, lines, pieces, split};
use crate::text::class::Class;
use crate::text::scan::{
    after_prefix, contains, cut, has_text, opt_str, opt_string, split_once, strip_prefix,
};
use vstd::prelude::*;

verus! {

broadcast use strings_push;

/// The contents of a list of submissions.
pub open spec fn submission_views(list: Seq<Submission>) -> Seq<SubmissionView> {
    list.map_values(|s: Submission| s@)
}

/// The contents of an optional submission.
pub open spec fn opt_submission(o: Option<&Submission>) -> Option<SubmissionView> {
    match o {
        Some(s) => Some(s@),
        None => None,
    }
}

/// The states of submissions that wait for their validation.
pub open spec fn pending_text(list: Seq<SubmissionView>) -> Seq<char>
    decreases list.len(),
{
    if list.len() == 0 {
        Seq::empty()
    } else {
        pending_text(list.drop_last()) + " "@ + list.last().reference + ":"@
            + list.last().validation_status
    }
}

/// What a failed validation says.
pub open spec fn failure_text(s: SubmissionView, mark: Seq<char>, limit: nat) -> Seq<char> {
    s.reference + ":failed; show "@ + s.reference + " --all"@ + match enriched(
        s.validation_detail,
        s.build_output,
    ) {
        Some(detail) => mark + shortened(one_line(detail), limit),
        None => ""@,
    }
}

fn render_failure(s: &Submission, mark: &str, limit: usize) -> (r: String)
    ensures
        r@ == failure_text(s@, mark@, limit as nat),
{
    let mut out = cat3(s.reference.as_str(), ":failed; show ", s.reference.as_str());
    push_str(&mut out, " --all");
    match enriched_validation_detail(&s.validation_detail, &s.build_output) {
        Some(detail) => {
            let line = truncate_line(single_line(detail.as_str()).as_str(), limit);
            push_str(&mut out, cat2(mark, line.as_str()).as_str());
        },
        None => push_str(&mut out, ""),
    }
    out
}

/// The latest validation, where it failed.
pub open spec fn latest_failure(latest: Option<SubmissionView>) -> Option<SubmissionView> {
    match latest {
        Some(s) => if s.validation_status == "failed"@ {
            Some(s)
        } else {
            None
        },
        None => None,
    }
}

/// The state of the validations: a failure of the latest one stays visible while others
/// wait.
pub open spec fn validation_text(
    pending: Seq<SubmissionView>,
    latest: Option<SubmissionView>,
) -> Seq<char> {
    if pending.len() > 0 {
        "\nvalidation"@ + pending_text(pending) + match latest_failure(latest) {
            Some(s) => "\n  latest result "@ + failure_text(s, "\n    "@, 236),
            None => ""@,
        }
    } else {
        match latest_failure(latest) {
            Some(s) => "\nvalidation "@ + failure_text(s, "\n  "@, 240),
            None => "\nvalidation idle"@,
        }
    }
}

fn failure_of<'a>(latest: Option<&'a Submission>) -> (r: Option<&'a Submission>)
    ensures
        opt_submission(r) == latest_failure(opt_submission(latest)),
{
    match latest {
        Some(s) => if same(s.validation_status.as_str(), "failed") {
            Some(s)
        } else {
            None
        },
        None => None,
    }
}

/// Appends [`validation_text`].
pub fn render_validation_status(
    output: &mut String,
    pending: &Vec<Submission>,
    latest_completed: Option<&Submission>,
)
    ensures
        final(output)@ == old(output)@ + validation_text(
            submission_views(pending@),
            opt_submission(latest_completed),
        ),
{
    let ghost views = submission_views(pending@);
    assert(views.len() == pending.len());
    let failure = failure_of(latest_completed);
    let text = if pending.len() > 0 {
        let mut list = String::new();
        for i in 0..pending.len()
            invariant
                views == submission_views(pending@),
                list@ == pending_text(views.take(i as int)),
        {
            proof {
                prefix_step(views, i as int);
            }
            assert(views[i as int] == pending@[i as int]@);
            push_str(&mut list, " ");
            push_str(&mut list, pending[i].reference.as_str());
            push_str(&mut list, ":");
            push_str(&mut list, pending[i].validation_status.as_str());
        }
        proof {
            prefix_all(views);
        }
        let mut text = cat2("\nvalidation", list.as_str());
        match failure {
            Some(s) => {
                let told = cat2(
                    "\n  latest result ",
                    render_failure(s, "\n    ", 236).as_str(),
                );
                push_str(&mut text, told.as_str());
            },
            None => push_str(&mut text, ""),
        }
        text
    } else {
        match failure {
            Some(s) => cat2("\nvalidation ", render_failure(s, "\n  ", 240).as_str()),
            None => own("\nvalidation idle"),
        }
    };
    push_str(output, text.as_str());
}

/// A failed validation is named for as long as no later one has finished.
pub proof fn failures_stay_visible(pending: Seq<SubmissionView>, latest: SubmissionView)
    requires
        latest.validation_status == "failed"@,
    ensures
        exists|before: Seq<char>, after: Seq<char>|
            validation_text(pending, Some(latest)) == #[trigger] (before + (latest.reference
                + ":failed; show "@ + latest.reference + " --all"@) + after),
{
    let said = latest.reference + ":failed; show "@ + latest.reference + " --all"@;
    let mark = if pending.len() > 0 {
        "\n    "@
    } else {
        "\n  "@
    };
    let limit: nat = if pending.len() > 0 {
        236
    } else {
        240
    };
    let after = match enriched(latest.validation_detail, latest.build_output) {
        Some(detail) => mark + shortened(one_line(detail), limit),
        None => ""@,
    };
    let before = if pending.len() > 0 {
        "\nvalidation"@ + pending_text(pending) + "\n  latest result "@
    } else {
        "\nvalidation "@
    };
    assert(failure_text(latest, mark, limit) =~= said + after);
    assert(validation_text(pending, Some(latest)) =~= before + said + after);
}

/// How many line breaks bytes hold.
pub open spec fn newline_count(source: Seq<u8>) -> nat
    decreases source.len(),
{
    if source.len() == 0 {
        0
    } else {
        newline_count(source.drop_last()) + if source.last() == 10u8 {
            1nat
        } else {
            0nat
        }
    }
}

/// How many lines a file has, a last line without a line break included.
pub open spec fn line_count(source: Seq<u8>) -> nat {
    newline_count(source) + if source.len() > 0 && source.last() != 10u8 {
        1nat
    } else {
        0nat
    }
}

proof fn newlines_at_most(source: Seq<u8>)
    ensures
        newline_count(source) <= source.len(),
        source.len() > 0 && source.last() != 10u8 ==> newline_count(source) < source.len(),
    decreases source.len(),
{
    if source.len() > 0 {
        newlines_at_most(source.drop_last());
    }
}

/// Computes [`line_count`].
pub fn physical_lines(source: &[u8]) -> (r: usize)
    ensures
        r == line_count(source@),
{
    let mut count: usize = 0;
    let length = source.len();
    for i in 0..length
        invariant
            length == source@.len(),
            count <= i,
            count == newline_count(source@.take(i as int)),
    {
        proof {
            prefix_step(source@, i as int);
        }
        if source[i] == 10u8 {
            count += 1;
        }
    }
    proof {
        prefix_all(source@);
        newlines_at_most(source@);
    }
    if length > 0 && source[length - 1] != 10u8 {
        count + 1
    } else {
        count
    }
}

/// A final line break does not change how many lines a file has.
pub proof fn final_break_does_not_count(source: Seq<u8>)
    requires
        source.len() > 0,
        source.last() != 10u8,
    ensures
        line_count(source.push(10u8)) == line_count(source),
{
    assert(source.push(10u8).drop_last() =~= source);
}

/// How long ago something was.
pub open spec fn age_text(seconds: i64) -> Seq<char> {
    let s: nat = if seconds < 0 {
        0
    } else {
        seconds as nat
    };
    if s < 60 {
        decimal(s) + "s"@
    } else if s < 3600 {
        decimal(s / 60) + "m"@
    } else if s < 86_400 {
        decimal(s / 3600) + "h"@
    } else {
        decimal(s / 86_400) + "d"@
    }
}

/// Computes [`age_text`].
pub fn format_age(seconds: i64) -> (r: String)
    ensures
        r@ == age_text(seconds),
{
    let s: u64 = if seconds < 0 {
        0
    } else {
        seconds as u64
    };
    if s < 60 {
        cat2(show(s).as_str(), "s")
    } else if s < 3600 {
        cat2(show(s / 60).as_str(), "m")
    } else if s < 86_400 {
        cat2(show(s / 3600).as_str(), "h")
    } else {
        cat2(show(s / 86_400).as_str(), "d")
    }
}

/// The time between two moments, within 64 bits.
pub open spec fn elapsed(now: i64, then: i64) -> i64 {
    crate::activity::bounded_difference(now, then) as i64
}

fn time_since(now: i64, before: i64) -> (r: i64)
    ensures
        r == elapsed(now, before),
{
    let difference = now as i128 - before as i128;
    if difference > i64::MAX as i128 {
        i64::MAX
    } else if difference < i64::MIN as i128 {
        i64::MIN
    } else {
        difference as i64
    }
}

/// How many agents are in a state.
pub open spec fn agents_in(list: Seq<AgentView>, state: Seq<char>) -> nat
    decreases list.len(),
{
    if list.len() == 0 {
        0
    } else {
        agents_in(list.drop_last(), state) + if list.last().state == state {
            1nat
        } else {
            0nat
        }
    }
}

fn count_agents(list: &Vec<AgentStatus>, state: &str) -> (r: usize)
    ensures
        r == agents_in(agent_views(list@), state@),
{
    let ghost views = agent_views(list@);
    let mut count: usize = 0;
    for i in 0..list.len()
        invariant
            views == agent_views(list@),
            count <= i,
            count == agents_in(views.take(i as int), state@),
    {
        proof {
            prefix_step(views, i as int);
        }
        assert(views[i as int] == list@[i as int]@);
        if same(list[i].state.as_str(), state) {
            count += 1;
        }
    }
    proof {
        prefix_all(views);
    }
    count
}

/// One agent on one line.
pub open spec fn agent_line(a: AgentView, now: i64) -> Seq<char> {
    "\n"@ + padded(a.id as nat, 3) + " "@ + left_aligned(a.workspace, 10) + " "@ + left_aligned(
        a.model,
        16,
    ) + " "@ + left_aligned(a.state, 7) + " last "@ + age_text(elapsed(now, a.last_active)) + if a.dirty
        > 0 {
        " dirty:"@ + decimal(a.dirty as nat)
    } else {
        ""@
    }
}

fn render_agent(a: &AgentStatus, now: i64) -> (r: String)
    ensures
        r@ == agent_line(a@, now),
{
    let mut out = cat3("\n", pad(a.id, 3).as_str(), " ");
    push_str(&mut out, align_left(a.workspace.as_str(), 10).as_str());
    push_str(&mut out, " ");
    push_str(&mut out, align_left(a.model.as_str(), 16).as_str());
    push_str(&mut out, " ");
    push_str(&mut out, align_left(a.state.as_str(), 7).as_str());
    push_str(&mut out, " last ");
    push_str(&mut out, format_age(time_since(now, a.last_active)).as_str());
    if a.dirty > 0 {
        push_str(&mut out, cat2(" dirty:", show_size(a.dirty).as_str()).as_str());
    } else {
        push_str(&mut out, "");
    }
    out
}

/// Agents, each on a line.
pub open spec fn agent_lines(list: Seq<AgentView>, now: i64) -> Seq<char>
    decreases list.len(),
{
    if list.len() == 0 {
        Seq::empty()
    } else {
        agent_lines(list.drop_last(), now) + agent_line(list.last(), now)
    }
}

/// The agents at work.
pub open spec fn agents_text(list: Seq<AgentView>, now: i64) -> Seq<char> {
    "\nagents "@ + decimal(list.len()) + " ("@ + decimal(agents_in(list, "active"@)) + " active, "@
        + decimal(agents_in(list, "idle"@)) + " idle)"@ + agent_lines(list, now)
}

/// Appends [`agents_text`].
pub fn render_agents(output: &mut String, agents: &Vec<AgentStatus>, now: i64)
    ensures
        final(output)@ == old(output)@ + agents_text(agent_views(agents@), now),
{
    let ghost views = agent_views(agents@);
    assert(views.len() == agents.len());
    let mut text = cat3("\nagents ", show_size(agents.len()).as_str(), " (");
    push_str(&mut text, show_size(count_agents(agents, "active")).as_str());
    push_str(&mut text, " active, ");
    push_str(&mut text, show_size(count_agents(agents, "idle")).as_str());
    push_str(&mut text, " idle)");
    let mut list = String::new();
    for i in 0..agents.len()
        invariant
            views == agent_views(agents@),
            list@ == agent_lines(views.take(i as int), now),
    {
        proof {
            prefix_step(views, i as int);
        }
        assert(views[i as int] == agents@[i as int]@);
        push_str(&mut list, render_agent(&agents[i], now).as_str());
    }
    proof {
        prefix_all(views);
    }
    push_str(&mut text, list.as_str());
    push_str(output, text.as_str());
}

/// What was checked, built and submitted in some time.
#[derive(Debug)]
pub struct ActivityMetrics {
    pub checks: u64,
    pub failed_checks: u64,
    pub builds: u64,
    pub submissions: u64,
    /// The average durations as they are shown.
    pub average_check: String,
    pub average_build: String,
}

/// The contents of an [`ActivityMetrics`].
pub struct MetricsView {
    pub checks: u64,
    pub failed_checks: u64,
    pub builds: u64,
    pub submissions: u64,
    pub average_check: Seq<char>,
    pub average_build: Seq<char>,
}

impl View for ActivityMetrics {
    type V = MetricsView;

    open spec fn view(&self) -> MetricsView {
        MetricsView {
            checks: self.checks,
            failed_checks: self.failed_checks,
            builds: self.builds,
            submissions: self.submissions,
            average_check: self.average_check@,
            average_build: self.average_build@,
        }
    }
}

/// What was checked, built and submitted, on one line.
pub open spec fn tooling_text(m: MetricsView) -> Seq<char> {
    let passed: nat = if m.checks > m.failed_checks {
        (m.checks - m.failed_checks) as nat
    } else {
        0
    };
    "checks "@ + decimal(m.checks as nat) + " ("@ + decimal(passed) + " ok/"@ + decimal(
        m.failed_checks as nat,
    ) + " err) avg "@ + m.average_check + "  builds "@ + decimal(m.builds as nat) + " avg "@
        + m.average_build + "  submits "@ + decimal(m.submissions as nat)
}

/// Appends [`tooling_text`].
pub fn render_tooling(output: &mut String, metrics: &ActivityMetrics)
    ensures
        final(output)@ == old(output)@ + tooling_text(metrics@),
{
    let passed: u64 = if metrics.checks > metrics.failed_checks {
        metrics.checks - metrics.failed_checks
    } else {
        0
    };
    let mut text = cat3("checks ", show(metrics.checks).as_str(), " (");
    push_str(&mut text, show(passed).as_str());
    push_str(&mut text, " ok/");
    push_str(&mut text, show(metrics.failed_checks).as_str());
    push_str(&mut text, " err) avg ");
    push_str(&mut text, metrics.average_check.as_str());
    push_str(&mut text, "  builds ");
    push_str(&mut text, show(metrics.builds).as_str());
    push_str(&mut text, " avg ");
    push_str(&mut text, metrics.average_build.as_str());
    push_str(&mut text, "  submits ");
    push_str(&mut text, show(metrics.submissions).as_str());
    push_str(output, text.as_str());
}

/// What was merged in some time.
#[derive(Debug)]
pub struct Progress {
    pub label: String,
    pub lines: i64,
    /// Lines for each hour, as shown.
    pub rate: String,
    /// Lines for each hour of an agent and those hours, as shown.
    pub agent_rate: Option<(String, String)>,
    /// Calls and output for each line, as shown.
    pub context: Option<(String, String)>,
    pub tooling: ActivityMetrics,
}

/// The contents of a [`Progress`].
pub struct ProgressView {
    pub label: Seq<char>,
    pub lines: i64,
    pub rate: Seq<char>,
    pub agent_rate: Option<(Seq<char>, Seq<char>)>,
    pub context: Option<(Seq<char>, Seq<char>)>,
    pub tooling: MetricsView,
}

/// The contents of an optional pair of texts.
pub open spec fn opt_two(o: Option<(String, String)>) -> Option<(Seq<char>, Seq<char>)> {
    match o {
        Some(p) => Some((p.0@, p.1@)),
        None => None,
    }
}

impl View for Progress {
    type V = ProgressView;

    open spec fn view(&self) -> ProgressView {
        ProgressView {
            label: self.label@,
            lines: self.lines,
            rate: self.rate@,
            agent_rate: opt_two(self.agent_rate),
            context: opt_two(self.context),
            tooling: self.tooling@,
        }
    }
}

/// The contents of a list of progress.
pub open spec fn progress_views(list: Seq<Progress>) -> Seq<ProgressView> {
    list.map_values(|p: Progress| p@)
}

/// What was merged in some time, on one line.
pub open spec fn progress_line(p: ProgressView) -> Seq<char> {
    "\n"@ + right_aligned(p.label, 3) + " "@ + with_sign(p.lines as int) + " lines  "@ + p.rate
        + "/h"@ + (match p.agent_rate {
        Some(rate) => "  "@ + rate.0 + "/agent-h ("@ + rate.1 + " agent-h)"@,
        None => ""@,
    }) + (match p.context {
        Some(context) => "  context/loc "@ + context.0 + " mux calls + "@ + context.1 + " output"@,
        None => ""@,
    })
}

fn render_progress_line(p: &Progress) -> (r: String)
    ensures
        r@ == progress_line(p@),
{
    let mut out = cat3("\n", align_right(p.label.as_str(), 3).as_str(), " ");
    push_str(&mut out, show_with_sign(p.lines).as_str());
    push_str(&mut out, " lines  ");
    push_str(&mut out, p.rate.as_str());
    push_str(&mut out, "/h");
    match &p.agent_rate {
        Some(rate) => {
            let mut part = cat3("  ", rate.0.as_str(), "/agent-h (");
            push_str(&mut part, rate.1.as_str());
            push_str(&mut part, " agent-h)");
            push_str(&mut out, part.as_str());
        },
        None => push_str(&mut out, ""),
    }
    match &p.context {
        Some(context) => {
            let mut part = cat3("  context/loc ", context.0.as_str(), " mux calls + ");
            push_str(&mut part, context.1.as_str());
            push_str(&mut part, " output");
            push_str(&mut out, part.as_str());
        },
        None => push_str(&mut out, ""),
    }
    out
}

/// What was merged, a line for each time.
pub open spec fn progress_lines(list: Seq<ProgressView>) -> Seq<char>
    decreases list.len(),
{
    if list.len() == 0 {
        Seq::empty()
    } else {
        progress_lines(list.drop_last()) + progress_line(list.last())
    }
}

/// What was checked, built and submitted, a line for each time.
pub open spec fn tooling_lines(list: Seq<ProgressView>) -> Seq<char>
    decreases list.len(),
{
    if list.len() == 0 {
        Seq::empty()
    } else {
        tooling_lines(list.drop_last()) + ("\n"@ + right_aligned(list.last().label, 3) + " "@)
            + tooling_text(list.last().tooling)
    }
}

/// What the state of a project is told from.
#[derive(Debug)]
pub struct StatusReport {
    pub project: String,
    pub revision: String,
    pub now: i64,
    pub agents: Vec<AgentStatus>,
    pub files: usize,
    pub lines: u64,
    pub sorries: Option<usize>,
    pub progress: Vec<Progress>,
    pub pending: Vec<Submission>,
    pub latest_completed: Option<Submission>,
}

/// The contents of a [`StatusReport`].
pub struct ReportView {
    pub project: Seq<char>,
    pub revision: Seq<char>,
    pub now: i64,
    pub agents: Seq<AgentView>,
    pub files: usize,
    pub lines: u64,
    pub sorries: Option<usize>,
    pub progress: Seq<ProgressView>,
    pub pending: Seq<SubmissionView>,
    pub latest_completed: Option<SubmissionView>,
}

/// The contents of an optional owned submission.
pub open spec fn owned_submission(o: Option<Submission>) -> Option<SubmissionView> {
    match o {
        Some(s) => Some(s@),
        None => None,
    }
}

impl View for StatusReport {
    type V = ReportView;

    open spec fn view(&self) -> ReportView {
        ReportView {
            project: self.project@,
            revision: self.revision@,
            now: self.now,
            agents: agent_views(self.agents@),
            files: self.files,
            lines: self.lines,
            sorries: self.sorries,
            progress: progress_views(self.progress@),
            pending: submission_views(self.pending@),
            latest_completed: owned_submission(self.latest_completed),
        }
    }
}

/// The state of a project.
pub open spec fn status_text(s: ReportView) -> Seq<char> {
    s.project + " "@ + brief_hash(s.revision) + agents_text(s.agents, s.now) + "\ncode "@ + padded(
        s.lines as nat,
        7,
    ) + " Lean lines in "@ + decimal(s.files as nat) + " files  sorry declarations "@ + (
    match s.sorries {
        Some(count) => decimal(count as nat),
        None => "unknown"@,
    }) + "\nmerged progress"@ + progress_lines(s.progress) + "\ntooling"@ + tooling_lines(
        s.progress,
    ) + validation_text(s.pending, s.latest_completed)
}

/// Computes [`status_text`].
pub fn render(report: &StatusReport) -> (r: String)
    ensures
        r@ == status_text(report@),
{
    let mut out = cat3(report.project.as_str(), " ", short_hash(report.revision.as_str()));
    render_agents(&mut out, &report.agents, report.now);
    push_str(&mut out, "\ncode ");
    push_str(&mut out, pad(report.lines, 7).as_str());
    push_str(&mut out, " Lean lines in ");
    push_str(&mut out, show_size(report.files).as_str());
    push_str(&mut out, " files  sorry declarations ");
    match report.sorries {
        Some(count) => push_str(&mut out, show_size(count).as_str()),
        None => push_str(&mut out, "unknown"),
    }
    push_str(&mut out, "\nmerged progress");
    let ghost views = progress_views(report.progress@);
    let mut merged = String::new();
    let mut tooling = String::new();
    for i in 0..report.progress.len()
        invariant
            views == progress_views(report.progress@),
            merged@ == progress_lines(views.take(i as int)),
            tooling@ == tooling_lines(views.take(i as int)),
    {
        proof {
            prefix_step(views, i as int);
        }
        let p = &report.progress[i];
        assert(views[i as int] == p@);
        push_str(&mut merged, render_progress_line(p).as_str());
        let head = cat3("\n", align_right(p.label.as_str(), 3).as_str(), " ");
        push_str(&mut tooling, head.as_str());
        render_tooling(&mut tooling, &p.tooling);
    }
    proof {
        prefix_all(views);
    }
    push_str(&mut out, merged.as_str());
    push_str(&mut out, "\ntooling");
    push_str(&mut out, tooling.as_str());
    let latest = match &report.latest_completed {
        Some(s) => Some(s),
        None => None,
    };
    render_validation_status(&mut out, &report.pending, latest);
    out
}

/// A character in the name of a model.
pub open spec fn model_char(c: char) -> bool {
    digit(c) || 'a' <= c <= 'z' || 'A' <= c <= 'Z' || c == '-' || c == '_' || c == '.' || c == '/'
        || c == ':'
}

fn is_model_char(c: char) -> (r: bool)
    ensures
        r == model_char(c),
{
    is_digit(c) || ('a' <= c && c <= 'z') || ('A' <= c && c <= 'Z') || c == '-' || c == '_' || c
        == '.' || c == '/' || c == ':'
}

/// The name of a model that may be published.
pub open spec fn publishable(model: Seq<char>) -> bool {
    0 < byte_length(model) <= 128 && forall|i: int|
        0 <= i < model.len() ==> model_char(#[trigger] model[i])
}

/// Decides [`publishable`].
pub fn publication_model(model: &str) -> (r: bool)
    ensures
        r == publishable(model@),
{
    if model.len() == 0 || model.len() > 128 {
        return false;
    }
    let chars = to_chars(model);
    for i in 0..chars.len()
        invariant
            chars@ == model@,
            forall|j: int| 0 <= j < i ==> model_char(#[trigger] model@[j]),
    {
        if !is_model_char(chars[i]) {
            return false;
        }
    }
    true
}

/// The models that may be published, in order and each once.
pub open spec fn published_models(models: Seq<Seq<char>>) -> Seq<Seq<char>> {
    distinct(sorted_texts(publishable_of(models)))
}

/// The models of a list that may be published.
pub open spec fn publishable_of(models: Seq<Seq<char>>) -> Seq<Seq<char>>
    decreases models.len(),
{
    if models.len() == 0 {
        Seq::empty()
    } else if publishable(models.last()) {
        publishable_of(models.drop_last()).push(models.last())
    } else {
        publishable_of(models.drop_last())
    }
}

/// Computes [`published_models`].
pub fn select_models(models: &Vec<String>) -> (r: Vec<String>)
    ensures
        strings(r@) == published_models(strings(models@)),
{
    let ghost views = strings(models@);
    let mut kept: Vec<String> = Vec::new();
    for i in 0..models.len()
        invariant
            views == strings(models@),
            strings(kept@) == publishable_of(views.take(i as int)),
    {
        proof {
            prefix_step(views, i as int);
        }
        assert(views[i as int] == models@[i as int]@);
        if publication_model(models[i].as_str()) {
            kept.push(models[i].clone());
        }
    }
    proof {
        prefix_all(views);
    }
    without_repeats(&sort_texts(&kept))
}

/// Texts as JSON strings.
pub open spec fn quoted_all(list: Seq<Seq<char>>) -> Seq<Seq<char>> {
    list.map_values(|t: Seq<char>| json_text(t))
}

fn quote_all(list: &Vec<String>) -> (r: Vec<String>)
    ensures
        strings(r@) == quoted_all(strings(list@)),
{
    let ghost wanted = quoted_all(strings(list@));
    let mut out: Vec<String> = Vec::new();
    for i in 0..list.len()
        invariant
            wanted == quoted_all(strings(list@)),
            strings(out@) == wanted.take(i as int),
    {
        proof {
            prefix_step(wanted, i as int);
        }
        out.push(to_json_text(list[i].as_str()));
    }
    proof {
        prefix_all(wanted);
    }
    out
}

/// How the work was automated, in the description for publication.
pub open spec fn automation_text(models: Seq<Seq<char>>, hours: Option<Seq<char>>) -> Seq<char> {
    if models.len() == 0 && hours is None {
        "    - method: other # TODO: choose the accurate method\n"@
    } else {
        "    - method: agent\n"@ + (if models.len() > 0 {
            "      models: ["@ + joined(quoted_all(models), ", "@) + "]\n"@
        } else {
            ""@
        }) + (match hours {
            Some(h) => "      cost:\n        wall_time: \""@ + h
                + " recorded agent-hours (approx.)\"\n"@,
            None => ""@,
        })
    }
}

/// The empty list of those who carry out an activity.
pub open spec fn nobody_yet(activity: Seq<char>) -> Seq<char> {
    "  "@ + activity + "ers: []\n"@
}

fn name_nobody(activity: &str) -> (r: String)
    ensures
        r@ == nobody_yet(activity@),
{
    cat3("  ", activity, "ers: []\n")
}

/// The description of a project for publication. What only its authors know is left
/// for them.
pub open spec fn yaml_text(
    project: Seq<char>,
    license: Option<Seq<char>>,
    sorries: Option<usize>,
    models: Seq<Seq<char>>,
    hours: Option<Seq<char>>,
) -> Seq<char> {
    "# Generated by mathmux. TODO fields require human or project-author review.\n# Do not publish this draft until every TODO has been resolved.\n# yaml-language-server: $schema=https://raw.githubusercontent.com/mathlib-initiative/formalization.yaml/main/schema/formalization.schema.json\nversion: \"v0.4\"\nproject:\n  name: "@
        + json_text(project)
        + "\n  description: \"TODO\" # mathematical content and principal results\n  authors: [\"TODO\"] # formalization authors\n  responsible_maintainers: [] # TODO\n"@
        + (match license {
        Some(name) => "  license: "@ + json_text(name) + "\n"@,
        None => "  license: \"TODO\" # SPDX identifier\n"@,
    })
        + "sources:\n  - title: \"TODO\" # source or original-proof description\nrelated_formalizations: []\nclassification:\n  arxiv: [] # TODO if applicable\n  msc2020: [] # TODO if applicable\nstatus:\n  scope: \"TODO\"\n"@
        + (match sorries {
        Some(count) => "  sorry_count: "@ + decimal(count as nat)
            + " # latest compiler-audited declaration count\n"@ + if count == 0 {
            "  sorry_in_definitions: 0\n"@
        } else {
            ""@
        },
        None => ""@,
    }) + "  main_results: [] # TODO: curated declarations\nautomation:\n  methods:\n"@
        + automation_text(models, hours)
        + "review:\n  status: unchecked # TODO: update after review\n"@ + nobody_yet("review"@)
        + "fidelity:\n  divergences: \"\" # TODO if applicable\nalignment: {} # TODO if maintained\nacknowledgements: \"\" # TODO"@
}

fn render_automation(models: &Vec<String>, hours: Option<&str>) -> (r: String)
    ensures
        r@ == automation_text(strings(models@), opt_str(hours)),
{
    assert(strings(models@).len() == models.len());
    if models.len() == 0 && hours.is_none() {
        return own("    - method: other # TODO: choose the accurate method\n");
    }
    let mut out = own("    - method: agent\n");
    if models.len() > 0 {
        let list = join(&quote_all(models), ", ");
        push_str(&mut out, cat3("      models: [", list.as_str(), "]\n").as_str());
    } else {
        push_str(&mut out, "");
    }
    match hours {
        Some(h) => push_str(
            &mut out,
            cat3(
                "      cost:\n        wall_time: \"",
                h,
                " recorded agent-hours (approx.)\"\n",
            ).as_str(),
        ),
        None => push_str(&mut out, ""),
    }
    out
}

/// Computes [`yaml_text`].
pub fn publication_yaml(
    project: &str,
    license: Option<&str>,
    sorries: Option<usize>,
    models: &Vec<String>,
    agent_hours: Option<&str>,
) -> (r: String)
    ensures
        r@ == yaml_text(
            project@,
            opt_str(license),
            sorries,
            strings(models@),
            opt_str(agent_hours),
        ),
{
    let mut out = own(
        "# Generated by mathmux. TODO fields require human or project-author review.\n# Do not publish this draft until every TODO has been resolved.\n# yaml-language-server: $schema=https://raw.githubusercontent.com/mathlib-initiative/formalization.yaml/main/schema/formalization.schema.json\nversion: \"v0.4\"\nproject:\n  name: ",
    );
    push_str(&mut out, to_json_text(project).as_str());
    push_str(
        &mut out,
        "\n  description: \"TODO\" # mathematical content and principal results\n  authors: [\"TODO\"] # formalization authors\n  responsible_maintainers: [] # TODO\n",
    );
    match license {
        Some(name) => push_str(
            &mut out,
            cat3("  license: ", to_json_text(name).as_str(), "\n").as_str(),
        ),
        None => push_str(&mut out, "  license: \"TODO\" # SPDX identifier\n"),
    }
    push_str(
        &mut out,
        "sources:\n  - title: \"TODO\" # source or original-proof description\nrelated_formalizations: []\nclassification:\n  arxiv: [] # TODO if applicable\n  msc2020: [] # TODO if applicable\nstatus:\n  scope: \"TODO\"\n",
    );
    match sorries {
        Some(count) => {
            let mut part = cat3(
                "  sorry_count: ",
                show_size(count).as_str(),
                " # latest compiler-audited declaration count\n",
            );
            if count == 0 {
                push_str(&mut part, "  sorry_in_definitions: 0\n");
            } else {
                push_str(&mut part, "");
            }
            push_str(&mut out, part.as_str());
        },
        None => push_str(&mut out, ""),
    }
    push_str(
        &mut out,
        "  main_results: [] # TODO: curated declarations\nautomation:\n  methods:\n",
    );
    push_str(&mut out, render_automation(models, agent_hours).as_str());
    push_str(&mut out, "review:\n  status: unchecked # TODO: update after review\n");
    push_str(&mut out, name_nobody("review").as_str());
    push_str(
        &mut out,
        "fidelity:\n  divergences: \"\" # TODO if applicable\nalignment: {} # TODO if maintained\nacknowledgements: \"\" # TODO",
    );
    out
}

/// What the description for publication is told from.
#[derive(Debug)]
pub struct PublicationReport {
    pub project: String,
    pub license: Option<String>,
    pub sorries: Option<usize>,
    /// The models recorded for the workspaces.
    pub models: Vec<String>,
    /// The recorded hours of agents as they are shown, where there are any.
    pub agent_hours: Option<String>,
}

fn opt_as_str<'a>(text: &'a Option<String>) -> (r: Option<&'a str>)
    ensures
        opt_str(r) == opt_string(*text),
{
    match text {
        Some(t) => Some(t.as_str()),
        None => None,
    }
}

/// The description of a project for publication, with the models that may be named.
pub fn render_formalization_yaml(report: &PublicationReport) -> (r: String)
    ensures
        r@ == yaml_text(
            report.project@,
            opt_string(report.license),
            report.sorries,
            published_models(strings(report.models@)),
            opt_string(report.agent_hours),
        ),
{
    let models = select_models(&report.models);
    publication_yaml(
        report.project.as_str(),
        opt_as_str(&report.license),
        report.sorries,
        &models,
        opt_as_str(&report.agent_hours),
    )
}

/// The name of a file that holds a license.
pub open spec fn license_name(t: Seq<char>) -> bool {
    ||| t == "license"@ || t == "license.md"@ || t == "license.txt"@ || t == "licence"@
    ||| t == "licence.md"@ || t == "licence.txt"@ || t == "copying"@ || t == "copying.md"@
    ||| t == "copying.txt"@
}

/// Decides [`license_name`].
pub fn is_license_name(t: &str) -> (r: bool)
    ensures
        r == license_name(t@),
{
    same(t, "license")
        || same(t, "license.md")
        || same(t, "license.txt")
        || same(t, "licence")
        || same(t, "licence.md")
        || same(t, "licence.txt")
        || same(t, "copying")
        || same(t, "copying.md")
        || same(t, "copying.txt")
}

/// Decides whether a file holds a license by its name, whatever its case.
pub fn is_license_file(name: &str) -> (r: bool)
    ensures
        r == license_name(lower(name@)),
{
    is_license_name(to_lower(name).as_str())
}

/// The license that a text grants, by its SPDX identifier.
pub open spec fn license_id(text: Seq<char>) -> Option<Seq<char>> {
    if has_text(text, "Apache License"@) && has_text(text, "Version 2.0"@) {
        Some("Apache-2.0"@)
    } else if has_text(text, "Permission is hereby granted, free of charge"@) && has_text(
        text,
        "THE SOFTWARE IS PROVIDED \"AS IS\""@,
    ) {
        Some("MIT"@)
    } else {
        None
    }
}

/// Computes [`license_id`].
pub fn license_of(text: &str) -> (r: Option<&'static str>)
    ensures
        opt_str(r) == license_id(text@),
{
    if contains(text, "Apache License") && contains(text, "Version 2.0") {
        Some("Apache-2.0")
    } else if contains(text, "Permission is hereby granted, free of charge") && contains(
        text,
        "THE SOFTWARE IS PROVIDED \"AS IS\"",
    ) {
        Some("MIT")
    } else {
        None
    }
}

/// The lines that a row of added and deleted lines adds.
pub open spec fn row_change(line: Seq<char>) -> int {
    let parts = pieces(line, Class::Is('\t'));
    if parts.len() >= 2 && signed_number(parts[0]) is Some && signed_number(parts[1]) is Some {
        signed_number(parts[0])->0 - signed_number(parts[1])->0
    } else {
        0
    }
}

/// The lines that a change adds, over all its rows.
pub open spec fn net_change(list: Seq<Seq<char>>) -> int
    decreases list.len(),
{
    if list.len() == 0 {
        0
    } else {
        bounded_sum(net_change(list.drop_last()), row_change(list.last()))
    }
}

fn change_of_row(line: &str) -> (r: i128)
    ensures
        r == row_change(line@),
{
    let parts = split(line, Class::Is('\t'));
    assert(strs(parts@).len() == parts.len());
    if parts.len() < 2 {
        return 0;
    }
    assert(strs(parts@)[0] == parts@[0]@);
    assert(strs(parts@)[1] == parts@[1]@);
    match (parse_i64(parts[0]), parse_i64(parts[1])) {
        (Some(added), Some(deleted)) => added as i128 - deleted as i128,
        _ => 0,
    }
}

/// The lines that a change adds, as a table of added and deleted lines tells it, within
/// 64 bits.
pub fn net_lines(table: &str) -> (r: i64)
    ensures
        r == narrowed(net_change(line_list(table@))),
{
    let list = lines(table);
    let ghost views = strs(list@);
    let mut total: i128 = 0;
    for i in 0..list.len()
        invariant
            views == strs(list@),
            total == net_change(views.take(i as int)),
    {
        proof {
            prefix_step(views, i as int);
        }
        assert(views[i as int] == list@[i as int]@);
        total = add_bounded(total, change_of_row(list[i]));
    }
    proof {
        prefix_all(views);
    }
    narrow(total)
}

/// The added lines of each listed commit: a line behind two at signs names a commit, and
/// the rows behind it count for it.
pub open spec fn added_lines(list: Seq<Seq<char>>) -> (Seq<(Seq<char>, u64)>, Option<int>)
    decreases list.len(),
{
    if list.len() == 0 {
        (Seq::empty(), None)
    } else {
        let (totals, current) = added_lines(list.drop_last());
        let line = list.last();
        match after_prefix(line, "@@"@) {
            Some(hash) => {
                let at = commit_place(totals, hash, 0);
                if at < totals.len() {
                    (totals, Some(at))
                } else {
                    (totals.push((hash, 0)), Some(at))
                }
            },
            None => if current is Some && number(pieces(line, Class::Is('\t'))[0], u64::MAX as nat)
                is Some {
                let at = current->0;
                let more = number(pieces(line, Class::Is('\t'))[0], u64::MAX as nat)->0;
                let sum = totals[at].1 + more;
                (
                    totals.update(
                        at,
                        (
                            totals[at].0,
                            if sum > u64::MAX {
                                u64::MAX
                            } else {
                                sum as u64
                            },
                        ),
                    ),
                    current,
                )
            } else {
                (totals, current)
            },
        }
    }
}

/// The first place of a commit from `i` on, or the number of commits.
pub open spec fn commit_place(totals: Seq<(Seq<char>, u64)>, hash: Seq<char>, i: int) -> int
    decreases totals.len() - i,
{
    if i >= totals.len() || totals[i].0 == hash {
        i
    } else {
        commit_place(totals, hash, i + 1)
    }
}

/// The contents of a list of commits with their lines.
pub open spec fn commit_views(list: Seq<(String, u64)>) -> Seq<(Seq<char>, u64)> {
    list.map_values(|c: (String, u64)| (c.0@, c.1))
}

fn find_commit(totals: &Vec<(String, u64)>, hash: &str) -> (r: usize)
    ensures
        r == commit_place(commit_views(totals@), hash@, 0),
        r <= totals.len(),
{
    for i in 0..totals.len()
        invariant
            commit_place(commit_views(totals@), hash@, 0) == commit_place(
                commit_views(totals@),
                hash@,
                i as int,
            ),
    {
        assert(commit_views(totals@)[i as int].0 == totals@[i as int].0@);
        if same(totals[i].0.as_str(), hash) {
            return i;
        }
    }
    totals.len()
}

/// The added lines of each commit in a listing, see [`added_lines`].
pub fn submitted_lines(listing: &str) -> (r: Vec<(String, u64)>)
    ensures
        commit_views(r@) == added_lines(line_list(listing@)).0,
{
    let list = lines(listing);
    let ghost views = strs(list@);
    let mut totals: Vec<(String, u64)> = Vec::new();
    let mut current: Option<usize> = None;
    assert(commit_views(totals@) =~= Seq::empty());
    for i in 0..list.len()
        invariant
            views == strs(list@),
            current is Some ==> current->0 < totals.len(),
            commit_views(totals@) == added_lines(views.take(i as int)).0,
            crate::search::rank::opt_index(current) == added_lines(views.take(i as int)).1,
    {
        proof {
            prefix_step(views, i as int);
        }
        assert(views[i as int] == list@[i as int]@);
        let ghost before = commit_views(totals@);
        assert(before.len() == totals.len());
        match strip_prefix(list[i], "@@") {
            Some(hash) => {
                let at = find_commit(&totals, hash);
                if at >= totals.len() {
                    totals.push((own(hash), 0));
                    assert(commit_views(totals@) =~= before.push((hash@, 0)));
                }
                current = Some(at);
            },
            None => if let Some(at) = current {
                let parts = split(list[i], Class::Is('\t'));
                assert(strs(parts@)[0] == parts@[0]@);
                if let Some(added) = parse_u64(parts[0]) {
                    assert(before[at as int] == (totals@[at as int].0@, totals@[at as int].1));
                    let sum = totals[at].1.saturating_add(added);
                    let name = totals[at].0.clone();
                    totals.set(at, (name, sum));
                    assert(commit_views(totals@) =~= before.update(at as int, (name@, sum)));
                }
            },
        }
    }
    proof {
        prefix_all(views);
    }
    totals
}

/// What one submission cost.
#[derive(Clone, Copy, Debug, PartialEq, Eq, Structural)]
pub struct SubmissionContext {
    pub created_at: i64,
    pub lines: u64,
    pub calls: u64,
    pub output_bytes: u64,
}

/// A submission with the one before it in the same workspace.
#[derive(Debug)]
pub struct SubmissionInterval {
    pub reference: String,
    pub workspace_ref: String,
    pub workspace_commit: String,
    pub created_at: i64,
    pub previous_reference: Option<String>,
    pub previous_created_at: i64,
}

/// The contents of a [`SubmissionInterval`].
pub struct IntervalView {
    pub reference: Seq<char>,
    pub workspace_ref: Seq<char>,
    pub workspace_commit: Seq<char>,
    pub created_at: i64,
    pub previous_reference: Option<Seq<char>>,
    pub previous_created_at: i64,
}

impl View for SubmissionInterval {
    type V = IntervalView;

    open spec fn view(&self) -> IntervalView {
        IntervalView {
            reference: self.reference@,
            workspace_ref: self.workspace_ref@,
            workspace_commit: self.workspace_commit@,
            created_at: self.created_at,
            previous_reference: opt_string(self.previous_reference),
            previous_created_at: self.previous_created_at,
        }
    }
}

/// When an event with a reference was recorded, from position `i` on.
pub open spec fn event_at(events: Seq<EventView>, reference: Seq<char>, i: int) -> Option<i64>
    decreases events.len() - i,
{
    if i >= events.len() {
        None
    } else if events[i].reference == Some(reference) {
        Some(events[i].created_at)
    } else {
        event_at(events, reference, i + 1)
    }
}

fn event_time(events: &Vec<ContextEvent>, reference: &str) -> (r: Option<i64>)
    ensures
        r == event_at(event_views(events@), reference@, 0),
{
    for i in 0..events.len()
        invariant
            event_at(event_views(events@), reference@, 0) == event_at(
                event_views(events@),
                reference@,
                i as int,
            ),
    {
        assert(event_views(events@)[i as int] == events@[i as int]@);
        if let Some(known) = &events[i].reference {
            if same(known.as_str(), reference) {
                return Some(events[i].created_at);
            }
        }
    }
    None
}

/// The calls and the output bytes of a workspace between two times, the first excluded.
pub open spec fn calls_between(
    events: Seq<EventView>,
    workspace: Seq<char>,
    after: i64,
    until: i64,
) -> (nat, nat)
    decreases events.len(),
{
    if events.len() == 0 {
        (0, 0)
    } else {
        let earlier = calls_between(events.drop_last(), workspace, after, until);
        let e = events.last();
        if e.workspace == workspace && e.created_at > after && e.created_at <= until {
            (earlier.0 + 1, earlier.1 + e.response_bytes as nat)
        } else {
            earlier
        }
    }
}

/// What one submission cost: the calls since the one before it, and the lines that it
/// added.
pub open spec fn submission_cost(
    s: IntervalView,
    events: Seq<EventView>,
    lines: Seq<(Seq<char>, u64)>,
) -> SubmissionContext {
    let recorded = match s.previous_reference {
        Some(reference) => event_at(events, reference, 0),
        None => None,
    };
    let start = match recorded {
        Some(at) => at,
        None => s.previous_created_at,
    };
    let end = match event_at(events, s.reference, 0) {
        Some(at) => at,
        None => s.created_at,
    };
    let total = calls_between(events, s.workspace_ref, start, end);
    let at = commit_place(lines, s.workspace_commit, 0);
    SubmissionContext {
        created_at: s.created_at,
        lines: if at < lines.len() {
            lines[at].1
        } else {
            0
        },
        calls: crate::search::score::capped(total.0),
        output_bytes: crate::search::score::capped(total.1),
    }
}

/// Computes [`submission_cost`].
pub fn submission_context(
    submission: &SubmissionInterval,
    events: &Vec<ContextEvent>,
    lines: &Vec<(String, u64)>,
) -> (r: SubmissionContext)
    ensures
        r == submission_cost(submission@, event_views(events@), commit_views(lines@)),
{
    let recorded = match &submission.previous_reference {
        Some(reference) => event_time(events, reference.as_str()),
        None => None,
    };
    let start = match recorded {
        Some(at) => at,
        None => submission.previous_created_at,
    };
    let end = match event_time(events, submission.reference.as_str()) {
        Some(at) => at,
        None => submission.created_at,
    };
    let ghost views = event_views(events@);
    let mut calls: u64 = 0;
    let mut output_bytes: u64 = 0;
    for i in 0..events.len()
        invariant
            views == event_views(events@),
            calls == crate::search::score::capped(
                calls_between(views.take(i as int), submission@.workspace_ref, start, end).0,
            ),
            output_bytes == crate::search::score::capped(
                calls_between(views.take(i as int), submission@.workspace_ref, start, end).1,
            ),
    {
        proof {
            prefix_step(views, i as int);
        }
        let e = &events[i];
        assert(views[i as int] == e@);
        if e.created_at > start && e.created_at <= end && same(
            e.workspace.as_str(),
            submission.workspace_ref.as_str(),
        ) {
            calls = calls.saturating_add(1);
            output_bytes = output_bytes.saturating_add(e.response_bytes);
        }
    }
    proof {
        prefix_all(views);
    }
    let at = find_commit(lines, submission.workspace_commit.as_str());
    assert(commit_views(lines@).len() == lines.len());
    let added: u64 = if at < lines.len() {
        assert(commit_views(lines@)[at as int].1 == lines@[at as int].1);
        lines[at].1
    } else {
        0
    };
    SubmissionContext { created_at: submission.created_at, lines: added, calls, output_bytes }
}

/// What the submissions since a time cost together.
pub open spec fn total_cost(list: Seq<SubmissionContext>, since: i64) -> (nat, nat, nat)
    decreases list.len(),
{
    if list.len() == 0 {
        (0, 0, 0)
    } else {
        let earlier = total_cost(list.drop_last(), since);
        if list.last().created_at >= since {
            (
                earlier.0 + list.last().lines as nat,
                earlier.1 + list.last().calls as nat,
                earlier.2 + list.last().output_bytes as nat,
            )
        } else {
            earlier
        }
    }
}

/// What the submissions since a time cost together, where they added any line.
pub fn context_per_loc(list: &Vec<SubmissionContext>, since: i64) -> (r: Option<SubmissionContext>)
    ensures
        r == ({
            let total = total_cost(list@, since);
            if total.0 > 0 {
                Some(
                    SubmissionContext {
                        created_at: 0,
                        lines: crate::search::score::capped(total.0),
                        calls: crate::search::score::capped(total.1),
                        output_bytes: crate::search::score::capped(total.2),
                    },
                )
            } else {
                None
            }
        }),
{
    let mut lines: u64 = 0;
    let mut calls: u64 = 0;
    let mut output_bytes: u64 = 0;
    assert(list@.take(0) =~= Seq::empty());
    for i in 0..list.len()
        invariant
            lines == crate::search::score::capped(total_cost(list@.take(i as int), since).0),
            calls == crate::search::score::capped(total_cost(list@.take(i as int), since).1),
            output_bytes == crate::search::score::capped(
                total_cost(list@.take(i as int), since).2,
            ),
    {
        proof {
            prefix_step(list@, i as int);
        }
        if list[i].created_at >= since {
            lines = lines.saturating_add(list[i].lines);
            calls = calls.saturating_add(list[i].calls);
            output_bytes = output_bytes.saturating_add(list[i].output_bytes);
        }
    }
    proof {
        prefix_all(list@);
    }
    if lines > 0 {
        Some(SubmissionContext { created_at: 0, lines, calls, output_bytes })
    } else {
        None
    }
}

/// The last value of a key in the recorded state of an agent, from its end down to `n`
/// lines.
pub open spec fn state_value(list: Seq<Seq<char>>, key: Seq<char>) -> Option<Seq<char>>
    decreases list.len(),
{
    if list.len() == 0 {
        None
    } else {
        match cut(list.last(), "="@) {
            Some(sides) => if sides.0 == key {
                Some(sides.1)
            } else {
                state_value(list.drop_last(), key)
            },
            None => state_value(list.drop_last(), key),
        }
    }
}

/// The value of a key in the recorded state of an agent: lines of a key, an equals sign
/// and a value, of which the last one counts.
pub fn agent_value<'a>(source: &'a str, key: &str) -> (r: Option<&'a str>)
    ensures
        opt_str(r) == state_value(line_list(source@), key@),
{
    let list = lines(source);
    let ghost views = strs(list@);
    let mut i = list.len();
    assert(views.len() == list.len());
    proof {
        prefix_all(views);
    }
    while i > 0
        invariant
            i <= list.len(),
            views == strs(list@),
            views == line_list(source@),
            views.len() == list.len(),
            state_value(views, key@) == state_value(views.take(i as int), key@),
        decreases i,
    {
        i -= 1;
        proof {
            prefix_step(views, i as int);
        }
        assert(views[i as int] == list@[i as int]@);
        if let Some((name, value)) = split_once(list[i], "=") {
            if same(name, key) {
                return Some(value);
            }
        }
    }
    assert(views.take(0) =~= Seq::empty());
    None
}

/// A recorded time, or zero.
pub open spec fn epoch(value: Option<Seq<char>>) -> int {
    match value {
        Some(text) => match signed_number(text) {
            Some(n) => n,
            None => 0,
        },
        None => 0,
    }
}

/// Computes [`epoch`].
pub fn parse_epoch(value: Option<&str>) -> (r: i64)
    ensures
        r == epoch(opt_str(value)),
{
    match value {
        Some(text) => match parse_i64(text) {
            Some(n) => n,
            None => 0,
        },
        None => 0,
    }
}

/// The state of an agent: one that works counts as active for some time after it was last
/// seen.
pub open spec fn agent_condition(recorded: Option<Seq<char>>, now: i64, last_active: i64) -> Seq<
    char,
> {
    if recorded is Some && recorded->0 != "working"@ {
        recorded->0
    } else if elapsed(now, last_active) <= crate::activity::ACTIVE_SECS {
        "active"@
    } else {
        "idle"@
    }
}

/// Computes [`agent_condition`].
pub fn agent_state_name(recorded: Option<&str>, now: i64, last_active: i64) -> (r: String)
    ensures
        r@ == agent_condition(opt_str(recorded), now, last_active),
{
    if let Some(name) = recorded {
        if !same(name, "working") {
            return own(name);
        }
    }
    if time_since(now, last_active) <= crate::activity::ACTIVE_SECS {
        own("active")
    } else {
        own("idle")
    }
}

/// The largest of some times, or zero.
pub open spec fn latest_of(times: Seq<i64>) -> i64
    decreases times.len(),
{
    if times.len() == 0 {
        0
    } else if times.len() == 1 {
        times[0]
    } else {
        let earlier = latest_of(times.drop_last());
        if times.last() > earlier {
            times.last()
        } else {
            earlier
        }
    }
}

/// Computes [`latest_of`].
pub fn latest(times: &Vec<i64>) -> (r: i64)
    ensures
        r == latest_of(times@),
{
    if times.len() == 0 {
        return 0;
    }
    let mut most = times[0];
    assert(times@.take(1).drop_last() =~= Seq::empty());
    for i in 1..times.len()
        invariant
            1 <= i,
            times.len() >= 1,
            most == latest_of(times@.take(i as int)),
    {
        proof {
            prefix_step(times@, i as int);
        }
        if times[i] > most {
            most = times[i];
        }
    }
    proof {
        prefix_all(times@);
    }
    most
}

} // verus!

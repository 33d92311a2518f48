//! What holds of the state of a project and of the work that is counted, on every input.
use crate::activity::{
    clipped, covered, event_span, event_spans, total_seconds, AgentView, EventView, Span,
};
use crate::agents::{agent_of, home, home_from};
use crate::order::{ranking, ranking_is_permutation};
use crate::path::lies_under;
use crate::search::exact::sorted_texts;
use crate::search::rank::codes;
use crate::search::tokens::distinct_keeps_each_once;
use crate::state::records::{SubmissionView, WorkspaceView};
use crate::status::{
    added_lines, age_text, agent_condition, agent_line, agent_lines, agents_in, agents_text,
    calls_between, commit_place, event_at, latest_of, license_id, line_count, newline_count,
    pending_text, progress_line, progress_lines, publishable, publishable_of, published_models,
    row_change, state_value, status_text, submission_cost, tooling_text, total_cost,
    validation_text, yaml_text, IntervalView, MetricsView, ProgressView, ReportView,
    SubmissionContext,
};
use crate::text::chain::{
    chain, chain_pair, chain_push, chain_tells, cut_at_mark, label_begins, numbers_hold_digits,
    part_ends, pushed_holds,
};
use crate::text::class::Class;
use crate::text::json::json_text;
use crate::text::laws::first_piece;
use crate::text::layout::brief_hash;
use crate::text::number::{
    decimal, decimal_digits, decimal_reads_back, left_aligned, number, padded, right_aligned,
    with_sign,
};
use crate::text::pieces::{line_list, pieces};
use crate::text::scan::{begins, ends, found_between, found_in_part, has_text};
use vstd::prelude::*;

verus! {

/// An event counts from when its agent began to wait, to a full second, until five minutes
/// after it ended.
pub proof fn events_count_from_their_beginning(e: EventView)
    requires
        0 <= e.created_at,
    ensures
        ({
            let (from, until) = event_span(e);
            let end = until - 300;
            &&& 1000 * end <= e.created_at < 1000 * end + 1000
            &&& 1000 * (end - from) >= e.client_ms
            &&& 1000 * (end - from) < e.client_ms + 1000
        }),
{
}

/// Cutting spans to a window keeps just the seconds that lie in it.
pub proof fn windows_keep_what_lies_in_them(list: Seq<Span>, from: i64, until: i64, t: int)
    ensures
        covered(clipped(list, from, until), t) <==> covered(list, t) && from <= t < until,
    decreases list.len(),
{
    let all = clipped(list, from, until);
    if list.len() > 0 {
        let shorter = list.drop_last();
        let before = clipped(shorter, from, until);
        let s = list.last();
        windows_keep_what_lies_in_them(shorter, from, until, t);
        assert(covered(list, t) <==> covered(shorter, t) || s.0 <= t < s.1) by {
            if covered(list, t) {
                let i = choose|i: int|
                    0 <= i < list.len() && (#[trigger] list[i]).0 <= t < list[i].1;
                if i < shorter.len() {
                    assert(shorter[i] == list[i]);
                }
            }
            if covered(shorter, t) {
                let i = choose|i: int|
                    0 <= i < shorter.len() && (#[trigger] shorter[i]).0 <= t < shorter[i].1;
                assert(list[i] == shorter[i]);
            }
            assert(list[list.len() - 1] == s);
        }
        if all != before {
            let own = all.last();
            assert(all.drop_last() =~= before);
            assert(covered(all, t) <==> covered(before, t) || own.0 <= t < own.1) by {
                if covered(all, t) {
                    let i = choose|i: int|
                        0 <= i < all.len() && (#[trigger] all[i]).0 <= t < all[i].1;
                    if i < before.len() {
                        assert(before[i] == all[i]);
                    }
                }
                if covered(before, t) {
                    let i = choose|i: int|
                        0 <= i < before.len() && (#[trigger] before[i]).0 <= t < before[i].1;
                    assert(all[i] == before[i]);
                }
                assert(all[all.len() - 1] == own);
            }
        }
    }
}

/// Only the events of a workspace count for it, and of them those that did not end before
/// the time from which is counted.
pub proof fn events_count_for_their_workspace(
    events: Seq<EventView>,
    workspace: Seq<char>,
    from: i64,
    span: Span,
)
    ensures
        event_spans(events, workspace, from).contains(span) <==> exists|i: int|
            0 <= i < events.len() && (#[trigger] events[i]).workspace == workspace && span
                == event_span(events[i]) && span.1 >= from,
    decreases events.len(),
{
    if events.len() > 0 {
        let shorter = events.drop_last();
        events_count_for_their_workspace(shorter, workspace, from, span);
        pushed_holds(event_spans(shorter, workspace, from), event_span(events.last()), span);
        if event_spans(events, workspace, from).contains(span) {
            if event_spans(shorter, workspace, from).contains(span) {
                let i = choose|i: int|
                    0 <= i < shorter.len() && (#[trigger] shorter[i]).workspace == workspace && span
                        == event_span(shorter[i]) && span.1 >= from;
                assert(events[i] == shorter[i]);
            } else {
                assert(events[events.len() - 1] == events.last());
            }
        }
        if exists|i: int|
            0 <= i < events.len() && (#[trigger] events[i]).workspace == workspace && span
                == event_span(events[i]) && span.1 >= from {
            let i = choose|i: int|
                0 <= i < events.len() && (#[trigger] events[i]).workspace == workspace && span
                    == event_span(events[i]) && span.1 >= from;
            if i < shorter.len() {
                assert(shorter[i] == events[i]);
            }
        }
    }
}

proof fn totals_are_bounded(agents: Seq<AgentView>, since: i64, now: i64)
    ensures
        -0x8000_0000_0000_0000 * agents.len() <= total_seconds(agents, None, since, now)
            <= 0x7fff_ffff_ffff_ffff * agents.len(),
    decreases agents.len(),
{
    if agents.len() > 0 {
        totals_are_bounded(agents.drop_last(), since, now);
    }
}

/// Without events every agent counts for the time since it began, or since the window
/// began, whichever is later; and what agents count for adds up.
pub proof fn agents_count_since_they_began(
    agents: Seq<AgentView>,
    agent: AgentView,
    since: i64,
    now: i64,
)
    requires
        agents.len() < 0x1000_0000_0000_0000,
        0 <= since <= now,
        0 <= agent.started_at,
    ensures
        total_seconds(agents.push(agent), None, since, now) == total_seconds(
            agents,
            None,
            since,
            now,
        ) + (if agent.started_at > since {
            now - agent.started_at
        } else {
            now - since
        }),
        total_seconds(Seq::empty(), None, since, now) == 0,
{
    totals_are_bounded(agents, since, now);
    assert(agents.push(agent).drop_last() =~= agents);
}

/// Lines add up over parts that end with a line break; a part without one is one line, and
/// nothing has none.
pub proof fn lines_add_up(a: Seq<u8>, b: Seq<u8>)
    ensures
        line_count(a.push(10u8) + b) == newline_count(a) + 1 + line_count(b),
        newline_count(a + b) == newline_count(a) + newline_count(b),
        a.len() > 0 && !a.contains(10u8) ==> line_count(a) == 1,
        line_count(Seq::empty()) == 0,
    decreases b.len(),
{
    let front = a.push(10u8);
    assert(front.drop_last() =~= a);
    without_breaks(a);
    breaks_add_up(front, b);
    breaks_add_up(a, b);
    if b.len() == 0 {
        assert(front + b =~= front);
    } else {
        assert((front + b).last() == b.last());
    }
}

proof fn breaks_add_up(a: Seq<u8>, b: Seq<u8>)
    ensures
        newline_count(a + b) == newline_count(a) + newline_count(b),
    decreases b.len(),
{
    if b.len() == 0 {
        assert(a + b =~= a);
    } else {
        breaks_add_up(a, b.drop_last());
        assert((a + b).drop_last() =~= a + b.drop_last());
    }
}

proof fn without_breaks(a: Seq<u8>)
    ensures
        !a.contains(10u8) ==> newline_count(a) == 0,
    decreases a.len(),
{
    if a.len() > 0 && !a.contains(10u8) {
        let shorter = a.drop_last();
        if shorter.contains(10u8) {
            let i = shorter.index_of(10u8);
            assert(a[i] == 10u8);
        }
        assert(a[a.len() - 1] == a.last());
        without_breaks(shorter);
    }
}

/// Ages are told in the largest unit that fits, and rounded down: seconds within a minute,
/// minutes within an hour, hours within a day, and days.
pub proof fn ages_are_told_in_their_unit(n: nat, rest: nat)
    ensures
        n < 60 ==> age_text(n as i64) == decimal(n) + "s"@,
        1 <= n < 60 && rest < 60 ==> age_text((60 * n + rest) as i64) == decimal(n) + "m"@,
        1 <= n < 24 && rest < 3600 ==> age_text((3600 * n + rest) as i64) == decimal(n) + "h"@,
        1 <= n < 1_000_000 && rest < 86_400 ==> age_text((86_400 * n + rest) as i64) == decimal(n)
            + "d"@,
{
    if n < 60 && rest < 60 {
        assert((60 * n + rest) / 60 == n);
    }
    if n < 24 && rest < 3600 {
        assert((3600 * n + rest) / 3600 == n);
    }
    if n < 1_000_000 && rest < 86_400 {
        assert((86_400 * n + rest) / 86_400 == n);
    }
}

/// Every agent is in one state: the counts of two states are never more than all agents,
/// and all where there is no other state.
pub proof fn states_are_counted_apart(list: Seq<AgentView>, a: Seq<char>, b: Seq<char>)
    requires
        a != b,
    ensures
        agents_in(list, a) + agents_in(list, b) <= list.len(),
        agents_in(list, a) + agents_in(list, b) == list.len() <==> forall|i: int|
            0 <= i < list.len() ==> (#[trigger] list[i]).state == a || list[i].state == b,
    decreases list.len(),
{
    if list.len() > 0 {
        let shorter = list.drop_last();
        states_are_counted_apart(shorter, a, b);
        if forall|i: int|
            0 <= i < list.len() ==> (#[trigger] list[i]).state == a || list[i].state == b {
            assert forall|i: int| 0 <= i < shorter.len() implies (#[trigger] shorter[i]).state == a
                || shorter[i].state == b by {
                assert(list[i] == shorter[i]);
            }
            assert(list[list.len() - 1] == list.last());
        }
        if agents_in(list, a) + agents_in(list, b) == list.len() {
            assert forall|i: int| 0 <= i < list.len() implies (#[trigger] list[i]).state == a
                || list[i].state == b by {
                if i < shorter.len() {
                    assert(list[i] == shorter[i]);
                }
            }
        }
    }
}

proof fn agent_is_listed(list: Seq<AgentView>, now: i64, i: int)
    requires
        0 <= i < list.len(),
    ensures
        has_text(agent_lines(list, now), agent_line(list[i], now)),
    decreases list.len(),
{
    let before = agent_lines(list.drop_last(), now);
    let own = agent_line(list.last(), now);
    if i == list.len() - 1 {
        found_between(before, own, Seq::empty());
        assert(before + own + Seq::<char>::empty() =~= agent_lines(list, now));
    } else {
        agent_is_listed(list.drop_last(), now, i);
        found_in_part(Seq::empty(), before, own, agent_line(list[i], now));
        assert(Seq::<char>::empty() + before + own =~= agent_lines(list, now));
    }
}

/// The agents are counted, and each is told with its number, its workspace, its model, its
/// state, how long ago it was last seen, and its unsaved files.
pub proof fn agents_are_told(list: Seq<AgentView>, now: i64, i: int)
    requires
        0 <= i < list.len(),
        list[i].dirty > 0,
        0 <= list[i].last_active <= now,
    ensures
        begins(
            agents_text(list, now),
            "\nagents "@ + decimal(list.len()) + " ("@ + decimal(agents_in(list, "active"@))
                + " active, "@ + decimal(agents_in(list, "idle"@)) + " idle)"@,
        ),
        has_text(
            agents_text(list, now),
            "\n"@ + padded(list[i].id as nat, 3) + " "@ + left_aligned(list[i].workspace, 10)
                + " "@ + left_aligned(list[i].model, 16) + " "@ + left_aligned(list[i].state, 7)
                + " last "@ + age_text((now - list[i].last_active) as i64) + (" dirty:"@ + decimal(
                list[i].dirty as nat,
            )),
        ),
{
    let head = "\nagents "@ + decimal(list.len()) + " ("@ + decimal(agents_in(list, "active"@))
        + " active, "@ + decimal(agents_in(list, "idle"@)) + " idle)"@;
    let lines = agent_lines(list, now);
    label_begins(head, lines);
    agent_is_listed(list, now, i);
    found_in_part(head, lines, Seq::empty(), agent_line(list[i], now));
    assert(head + lines + Seq::<char>::empty() =~= agents_text(list, now));
}

/// Of the checks those that passed are told beside those that failed.
pub proof fn checks_are_told_by_outcome(m: MetricsView)
    requires
        m.failed_checks <= m.checks,
    ensures
        begins(
            tooling_text(m),
            "checks "@ + decimal(m.checks as nat) + " ("@ + decimal(
                (m.checks - m.failed_checks) as nat,
            ) + " ok/"@ + decimal(m.failed_checks as nat) + " err) avg "@ + m.average_check,
        ),
        ends(
            tooling_text(m),
            "  builds "@ + decimal(m.builds as nat) + " avg "@ + m.average_build + "  submits "@
                + decimal(m.submissions as nat),
        ),
{
    let head = "checks "@ + decimal(m.checks as nat) + " ("@ + decimal(
        (m.checks - m.failed_checks) as nat,
    ) + " ok/"@ + decimal(m.failed_checks as nat) + " err) avg "@ + m.average_check;
    let tail = "  builds "@ + decimal(m.builds as nat) + " avg "@ + m.average_build + "  submits "@
        + decimal(m.submissions as nat);
    assert(tooling_text(m) =~= head + tail);
    label_begins(head, tail);
    part_ends(head, tail);
}

/// The state of a project begins with its name and its revision, and tells its lines, its
/// files, its unproved declarations and at the end its validations.
pub proof fn the_state_is_told_whole(s: ReportView)
    ensures
        begins(status_text(s), s.project + " "@ + brief_hash(s.revision) + "\nagents "@),
        has_text(
            status_text(s),
            "\ncode "@ + (padded(s.lines as nat, 7) + " Lean lines in "@ + decimal(s.files as nat)
                + " files"@) + "  sorry declarations "@,
        ),
        s.sorries matches Some(count) ==> has_text(
            status_text(s),
            "  sorry declarations "@ + decimal(count as nat) + "\nmerged progress"@,
        ),
        s.sorries is None ==> has_text(
            status_text(s),
            "  sorry declarations "@ + "unknown"@ + "\nmerged progress"@,
        ),
        ends(status_text(s), validation_text(s.pending, s.latest_completed)),
{
    let head = s.project + " "@ + brief_hash(s.revision);
    let agents = agents_text(s.agents, s.now);
    let code = padded(s.lines as nat, 7) + " Lean lines in "@ + decimal(s.files as nat) + " files"@;
    let holes = match s.sorries {
        Some(count) => decimal(count as nat),
        None => "unknown"@,
    };
    let valid = validation_text(s.pending, s.latest_completed);
    let tools = crate::status::tooling_lines(s.progress);
    let p0 = seq![head];
    assert(p0.drop_last() =~= Seq::empty());
    assert(chain(p0) =~= head) by {
        reveal_with_fuel(chain, 2);
    }
    let p1 = p0.push(agents);
    chain_push(p0, agents);
    let p2 = p1.push("\ncode "@ + code);
    chain_pair(p1, "\ncode "@, code);
    let p3 = p2.push("  sorry declarations "@ + holes);
    chain_pair(p2, "  sorry declarations "@, holes);
    let p4 = p3.push("\nmerged progress"@ + progress_lines(s.progress));
    chain_pair(p3, "\nmerged progress"@, progress_lines(s.progress));
    let p5 = p4.push("\ntooling"@ + tools);
    chain_pair(p4, "\ntooling"@, tools);
    let p6 = p5.push(valid);
    chain_push(p5, valid);
    regrouped(
        head + agents + "\ncode "@,
        padded(s.lines as nat, 7),
        " Lean lines in "@,
        decimal(s.files as nat),
        holes,
    );
    assert(status_text(s) == chain(p6));
    label_begins("\ncode "@, code);
    label_begins("  sorry declarations "@, holes);
    label_begins("\nmerged progress"@, progress_lines(s.progress));
    chain_tells(p6, 2, "  sorry declarations "@);
    chain_tells(p6, 3, "\nmerged progress"@);
    part_ends(chain(p5), valid);
    state_begins(s);
}

proof fn regrouped(front: Seq<char>, a: Seq<char>, b: Seq<char>, c: Seq<char>, tail: Seq<char>)
    ensures
        front + a + b + c + " files  sorry declarations "@ + tail == front + (a + b + c
            + " files"@) + "  sorry declarations "@ + tail,
{
    reveal_strlit(" files");
    reveal_strlit("  sorry declarations ");
    reveal_strlit(" files  sorry declarations ");
    assert(" files  sorry declarations "@ =~= " files"@ + "  sorry declarations "@);
    assert(front + a + b + c + (" files"@ + "  sorry declarations "@) + tail =~= front + (a + b + c
        + " files"@) + "  sorry declarations "@ + tail);
}

proof fn state_begins(s: ReportView)
    ensures
        begins(status_text(s), s.project + " "@ + brief_hash(s.revision) + "\nagents "@),
{
    let first = s.project + " "@ + brief_hash(s.revision) + "\nagents "@;
    assert(status_text(s).take(first.len() as int) =~= first);
}

/// Merged lines are told with their sign, what was merged for each hour, and where it is
/// known for each hour of an agent and what each line cost.
pub proof fn progress_is_told(p: ProgressView)
    ensures
        begins(
            progress_line(p),
            "\n"@ + right_aligned(p.label, 3) + " "@ + with_sign(p.lines as int) + " lines  "@
                + p.rate + "/h"@,
        ),
        p.agent_rate matches Some(rate) ==> has_text(
            progress_line(p),
            "/h"@ + ("  "@ + rate.0 + "/agent-h ("@ + rate.1 + " agent-h)"@),
        ),
        p.context matches Some(context) ==> ends(
            progress_line(p),
            "  context/loc "@ + context.0 + " mux calls + "@ + context.1 + " output"@,
        ),
{
    let front = "\n"@ + right_aligned(p.label, 3) + " "@ + with_sign(p.lines as int) + " lines  "@
        + p.rate;
    let rate = match p.agent_rate {
        Some(r) => "  "@ + r.0 + "/agent-h ("@ + r.1 + " agent-h)"@,
        None => ""@,
    };
    let context = match p.context {
        Some(c) => "  context/loc "@ + c.0 + " mux calls + "@ + c.1 + " output"@,
        None => ""@,
    };
    label_begins(front + "/h"@, rate + context);
    assert(progress_line(p) =~= front + "/h"@ + (rate + context));
    assert(progress_line(p) =~= front + ("/h"@ + rate) + context);
    found_between(front, "/h"@ + rate, context);
    assert(progress_line(p) =~= (front + "/h"@ + rate) + context);
    part_ends(front + "/h"@ + rate, context);
}

/// Every submission that waits is named with its state; and where none waits and the latest
/// did not fail, there is nothing to tell.
pub proof fn waiting_validations_are_named(
    pending: Seq<SubmissionView>,
    latest: Option<SubmissionView>,
    i: int,
)
    ensures
        0 <= i < pending.len() ==> has_text(
            validation_text(pending, latest),
            " "@ + pending[i].reference + ":"@ + pending[i].validation_status,
        ),
        pending.len() == 0 && (latest matches Some(s) ==> s.validation_status != "failed"@)
            ==> validation_text(pending, latest) == "\nvalidation idle"@,
{
    if 0 <= i < pending.len() {
        let own = " "@ + pending[i].reference + ":"@ + pending[i].validation_status;
        pending_is_named(pending, i);
        let text = validation_text(pending, latest);
        let front = "\nvalidation"@;
        let tail = text.skip((front + pending_text(pending)).len() as int);
        assert(text =~= front + pending_text(pending) + tail);
        found_in_part(front, pending_text(pending), tail, own);
    }
}

proof fn pending_is_named(pending: Seq<SubmissionView>, i: int)
    requires
        0 <= i < pending.len(),
    ensures
        has_text(
            pending_text(pending),
            " "@ + pending[i].reference + ":"@ + pending[i].validation_status,
        ),
    decreases pending.len(),
{
    let before = pending_text(pending.drop_last());
    let last = " "@ + pending.last().reference + ":"@ + pending.last().validation_status;
    assert(pending_text(pending) =~= before + last);
    if i == pending.len() - 1 {
        found_between(before, last, Seq::empty());
        assert(before + last + Seq::<char>::empty() =~= pending_text(pending));
    } else {
        pending_is_named(pending.drop_last(), i);
        let own = " "@ + pending[i].reference + ":"@ + pending[i].validation_status;
        found_in_part(Seq::empty(), before, last, own);
        assert(Seq::<char>::empty() + before + last =~= pending_text(pending));
    }
}

proof fn publishable_holds(models: Seq<Seq<char>>, m: Seq<char>)
    ensures
        publishable_of(models).contains(m) <==> models.contains(m) && publishable(m),
    decreases models.len(),
{
    if models.len() > 0 {
        let shorter = models.drop_last();
        publishable_holds(shorter, m);
        assert(models =~= shorter.push(models.last()));
        pushed_holds(shorter, models.last(), m);
        pushed_holds(publishable_of(shorter), models.last(), m);
    }
}

proof fn sorted_holds(list: Seq<Seq<char>>, m: Seq<char>)
    ensures
        sorted_texts(list).contains(m) <==> list.contains(m),
{
    let keys = list.map_values(|t: Seq<char>| codes(t));
    ranking_is_permutation(keys);
    let order = ranking(keys);
    let all = sorted_texts(list);
    if all.contains(m) {
        let i = all.index_of(m);
        assert(list[order[i]] == m);
    }
    if list.contains(m) {
        let k = list.index_of(m);
        assert(order.contains(k));
        let i = order.index_of(k);
        assert(all[i] == m);
    }
}

/// Just the models that may be published are named, each once. A model may be published
/// only where its name is short and made of letters, digits and a few marks: one with a
/// space, a quote or a line break is never named.
pub proof fn only_publishable_models_are_named(models: Seq<Seq<char>>, m: Seq<char>)
    ensures
        published_models(models).contains(m) <==> models.contains(m) && publishable(m),
        published_models(models).no_duplicates(),
        m.contains(' ') || m.contains('"') || m.contains('\n') || m.len() == 0 ==> !publishable(m),
{
    publishable_holds(models, m);
    sorted_holds(publishable_of(models), m);
    distinct_keeps_each_once(sorted_texts(publishable_of(models)));
    if m.contains(' ') {
        assert(m[m.index_of(' ')] == ' ');
    }
    if m.contains('"') {
        assert(m[m.index_of('"')] == '"');
    }
    if m.contains('\n') {
        assert(m[m.index_of('\n')] == '\n');
    }
    if m.len() == 0 && publishable(m) {
        assert(m =~= Seq::<char>::empty());
        assert(crate::text::make::byte_length(m) == 0);
    }
}

/// A license is recognised by what its text says; a text that grants neither has none.
pub proof fn licenses_are_recognised(text: Seq<char>)
    ensures
        license_id(text) == Some("Apache-2.0"@) ==> has_text(text, "Apache License"@) && has_text(
            text,
            "Version 2.0"@,
        ),
        license_id(text) == Some("MIT"@) ==> has_text(
            text,
            "Permission is hereby granted, free of charge"@,
        ) && has_text(text, "THE SOFTWARE IS PROVIDED \"AS IS\""@),
        license_id(text) is None ==> !(has_text(text, "Apache License"@) && has_text(
            text,
            "Version 2.0"@,
        )) && !(has_text(text, "Permission is hereby granted, free of charge"@) && has_text(
            text,
            "THE SOFTWARE IS PROVIDED \"AS IS\""@,
        )),
        license_id(text) matches Some(id) ==> id == "Apache-2.0"@ || id == "MIT"@,
{
    reveal_strlit("Apache-2.0");
    reveal_strlit("MIT");
    assert("Apache-2.0"@.len() != "MIT"@.len());
}

/// A row of a table counts the lines that it adds less those that it deletes; a file
/// without lines counts for nothing.
pub proof fn rows_count_what_they_add(added: nat, deleted: nat, path: Seq<char>)
    requires
        added <= i64::MAX,
        deleted <= i64::MAX,
    ensures
        row_change(decimal(added) + seq!['\t'] + (decimal(deleted) + seq!['\t'] + path)) == added
            - deleted,
        row_change(seq!['-', '\t', '-', '\t'] + path) == 0,
{
    numbers_hold_digits(added, '\t');
    numbers_hold_digits(deleted, '\t');
    first_piece(decimal(added), '\t', decimal(deleted) + seq!['\t'] + path);
    first_piece(decimal(deleted), '\t', path);
    decimal_reads_back(added, i64::MAX as nat);
    decimal_reads_back(deleted, i64::MAX as nat);
    decimal_digits(added);
    decimal_digits(deleted);
    assert(crate::text::class::digit(decimal(added)[0]));
    assert(crate::text::class::digit(decimal(deleted)[0]));
    let dash = seq!['-'];
    first_piece(dash, '\t', dash + seq!['\t'] + path);
    assert(seq!['-', '\t', '-', '\t'] + path =~= dash + seq!['\t'] + (dash + seq!['\t'] + path));
    assert(pieces(seq!['-', '\t', '-', '\t'] + path, Class::Is('\t'))[0] == dash);
}

proof fn place_is_first(totals: Seq<(Seq<char>, u64)>, hash: Seq<char>, i: int)
    requires
        0 <= i <= totals.len(),
    ensures
        i <= commit_place(totals, hash, i) <= totals.len(),
        commit_place(totals, hash, i) < totals.len() ==> totals[commit_place(totals, hash, i)].0
            == hash,
        forall|k: int| i <= k < commit_place(totals, hash, i) ==> (#[trigger] totals[k]).0 != hash,
    decreases totals.len() - i,
{
    if i < totals.len() && totals[i].0 != hash {
        place_is_first(totals, hash, i + 1);
    }
}

/// A heading names the commit for which the rows behind it count: a row adds its lines to
/// that commit and leaves every other as it was.
pub proof fn rows_count_for_their_commit(list: Seq<Seq<char>>, hash: Seq<char>, row: Seq<char>)
    requires
        !begins(row, "@@"@),
    ensures
        ({
            let headed = added_lines(list.push("@@"@ + hash));
            let totals = headed.0;
            let after = added_lines(list.push("@@"@ + hash).push(row)).0;
            let more = number(pieces(row, Class::Is('\t'))[0], u64::MAX as nat);
            &&& headed.1 is Some && 0 <= headed.1->0 < totals.len() && totals[headed.1->0].0
                == hash
            &&& after.len() == totals.len()
            &&& forall|k: int|
                0 <= k < totals.len() && k != headed.1->0 ==> #[trigger] after[k] == totals[k]
            &&& after[headed.1->0].0 == hash
            &&& more is Some && totals[headed.1->0].1 + more->0 <= u64::MAX
                ==> after[headed.1->0].1 == totals[headed.1->0].1 + more->0
            &&& more is None ==> after == totals
        }),
{
    let heading = "@@"@ + hash;
    label_begins("@@"@, hash);
    assert(heading.skip("@@"@.len() as int) =~= hash);
    assert(list.push(heading).drop_last() =~= list);
    assert(list.push(heading).push(row).drop_last() =~= list.push(heading));
    place_is_first(added_lines(list).0, hash, 0);
}

/// The calls of two times, one right after the other, add up: each call is counted in one
/// of them. A call counts at the end of its time and not at its beginning.
pub proof fn calls_are_counted_once(
    events: Seq<EventView>,
    workspace: Seq<char>,
    a: i64,
    b: i64,
    c: i64,
)
    requires
        a <= b <= c,
    ensures
        calls_between(events, workspace, a, c).0 == calls_between(events, workspace, a, b).0
            + calls_between(events, workspace, b, c).0,
        calls_between(events, workspace, a, c).1 == calls_between(events, workspace, a, b).1
            + calls_between(events, workspace, b, c).1,
        calls_between(events, workspace, a, a) == (0nat, 0nat),
    decreases events.len(),
{
    if events.len() > 0 {
        calls_are_counted_once(events.drop_last(), workspace, a, b, c);
    }
}

/// A call counts for its own workspace, within its time, with the bytes of its answer.
pub proof fn calls_count_in_their_time(
    events: Seq<EventView>,
    e: EventView,
    workspace: Seq<char>,
    after: i64,
    until: i64,
)
    ensures
        ({
            let before = calls_between(events, workspace, after, until);
            let then = calls_between(events.push(e), workspace, after, until);
            if e.workspace == workspace && after < e.created_at && e.created_at <= until {
                then == (before.0 + 1, before.1 + e.response_bytes as nat)
            } else {
                then == before
            }
        }),
{
    assert(events.push(e).drop_last() =~= events);
}

proof fn event_is_first(events: Seq<EventView>, reference: Seq<char>, i: int, k: int)
    requires
        0 <= i <= k < events.len(),
        events[k].reference == Some(reference),
        forall|j: int| i <= j < k ==> (#[trigger] events[j]).reference != Some(reference),
    ensures
        event_at(events, reference, i) == Some(events[k].created_at),
    decreases k - i,
{
    if i < k {
        event_is_first(events, reference, i + 1, k);
    }
}

/// Of two submissions one right after the other the second costs what was called after the
/// event of the first, up to its own: together they cost what was called in both times.
pub proof fn submissions_share_no_call(
    first: IntervalView,
    second: IntervalView,
    events: Seq<EventView>,
    lines: Seq<(Seq<char>, u64)>,
    i: int,
    j: int,
)
    requires
        0 <= i < events.len(),
        0 <= j < events.len(),
        events[i].reference == Some(first.reference),
        forall|k: int| 0 <= k < i ==> (#[trigger] events[k]).reference != Some(first.reference),
        events[j].reference == Some(second.reference),
        forall|k: int| 0 <= k < j ==> (#[trigger] events[k]).reference != Some(second.reference),
        second.previous_reference == Some(first.reference),
        second.workspace_ref == first.workspace_ref,
        first.previous_reference is None,
        first.previous_created_at <= events[i].created_at <= events[j].created_at,
        calls_between(
            events,
            first.workspace_ref,
            first.previous_created_at,
            events[j].created_at,
        ).0 <= u64::MAX,
        calls_between(
            events,
            first.workspace_ref,
            first.previous_created_at,
            events[j].created_at,
        ).1 <= u64::MAX,
    ensures
        ({
            let all = calls_between(
                events,
                first.workspace_ref,
                first.previous_created_at,
                events[j].created_at,
            );
            let a = submission_cost(first, events, lines);
            let b = submission_cost(second, events, lines);
            &&& a.calls + b.calls == all.0
            &&& a.output_bytes + b.output_bytes == all.1
        }),
{
    event_is_first(events, first.reference, 0, i);
    event_is_first(events, second.reference, 0, j);
    calls_are_counted_once(
        events,
        first.workspace_ref,
        first.previous_created_at,
        events[i].created_at,
        events[j].created_at,
    );
}

/// A submission has the lines of its own commit, and none where its commit is not listed.
pub proof fn submissions_have_the_lines_of_their_commit(
    s: IntervalView,
    events: Seq<EventView>,
    lines: Seq<(Seq<char>, u64)>,
    k: int,
)
    ensures
        0 <= k < lines.len() && lines[k].0 == s.workspace_commit && (forall|j: int|
            0 <= j < k ==> (#[trigger] lines[j]).0 != s.workspace_commit) ==> submission_cost(
            s,
            events,
            lines,
        ).lines == lines[k].1,
        (forall|j: int| 0 <= j < lines.len() ==> (#[trigger] lines[j]).0 != s.workspace_commit)
            ==> submission_cost(s, events, lines).lines == 0,
        submission_cost(s, events, lines).created_at == s.created_at,
{
    place_is_first(lines, s.workspace_commit, 0);
    let at = commit_place(lines, s.workspace_commit, 0);
    if 0 <= k < lines.len() && lines[k].0 == s.workspace_commit && (forall|j: int|
        0 <= j < k ==> (#[trigger] lines[j]).0 != s.workspace_commit) {
        if at < k {
            assert(lines[at].0 != s.workspace_commit);
        }
        if k < at {
            assert(lines[k].0 != s.workspace_commit);
        }
    }
    if at < lines.len() {
        assert(lines[at].0 == s.workspace_commit);
    }
}

/// Submissions from a time on cost what each of them cost, and earlier ones nothing.
pub proof fn costs_add_up(list: Seq<SubmissionContext>, s: SubmissionContext, since: i64)
    ensures
        ({
            let before = total_cost(list, since);
            let then = total_cost(list.push(s), since);
            &&& s.created_at < since ==> then == before
            &&& s.created_at >= since ==> then == (
                before.0 + s.lines as nat,
                before.1 + s.calls as nat,
                before.2 + s.output_bytes as nat,
            )
            &&& total_cost(Seq::empty(), since) == (0nat, 0nat, 0nat)
        }),
{
    assert(list.push(s).drop_last() =~= list);
}

/// Of what is recorded under a key the last counts, and other keys are left as they were.
pub proof fn the_last_record_counts(
    list: Seq<Seq<char>>,
    key: Seq<char>,
    value: Seq<char>,
    other: Seq<char>,
)
    requires
        !key.contains('='),
        other != key,
    ensures
        state_value(list.push(key + "="@ + value), key) == Some(value),
        state_value(list.push(key + "="@ + value), other) == state_value(list, other),
        state_value(Seq::empty(), key) is None,
{
    reveal_strlit("=");
    let line = key + "="@ + value;
    cut_at_mark(key, "="@, value);
    assert(list.push(line).drop_last() =~= list);
}

/// An agent that works is active for five minutes after it was last seen, and idle later;
/// any other state is as it is recorded.
pub proof fn workers_are_active_for_a_while(recorded: Seq<char>, now: i64, last: i64)
    requires
        0 <= last <= now,
    ensures
        recorded != "working"@ ==> agent_condition(Some(recorded), now, last) == recorded,
        now - last <= 300 ==> agent_condition(Some("working"@), now, last) == "active"@
            && agent_condition(None, now, last) == "active"@,
        now - last > 300 ==> agent_condition(Some("working"@), now, last) == "idle"@
            && agent_condition(None, now, last) == "idle"@,
{
}

/// The latest of some times is one of them, and none is later.
pub proof fn the_latest_is_latest(times: Seq<i64>)
    requires
        times.len() > 0,
    ensures
        times.contains(latest_of(times)),
        forall|i: int| 0 <= i < times.len() ==> #[trigger] times[i] <= latest_of(times),
    decreases times.len(),
{
    if times.len() > 1 {
        let shorter = times.drop_last();
        the_latest_is_latest(shorter);
        assert(times[shorter.index_of(latest_of(shorter))] == latest_of(shorter));
        assert(times[times.len() - 1] == times.last());
        assert forall|i: int| 0 <= i < times.len() implies #[trigger] times[i] <= latest_of(
            times,
        ) by {
            if i < shorter.len() {
                assert(shorter[i] == times[i]);
            }
        }
    } else {
        assert(times[0] == latest_of(times));
    }
}

/// An agent works in the first workspace that its directory lies in.
pub proof fn agents_work_where_they_are(list: Seq<WorkspaceView>, cwd: Seq<char>, i: int)
    requires
        0 <= i <= list.len(),
    ensures
        match home_from(list, cwd, i) {
            Some(k) => i <= k < list.len() && lies_under(cwd, list[k].path) && forall|j: int|
                i <= j < k ==> !lies_under(cwd, (#[trigger] list[j]).path),
            None => forall|j: int|
                i <= j < list.len() ==> !lies_under(cwd, (#[trigger] list[j]).path),
        },
    decreases list.len() - i,
{
    if i < list.len() && !lies_under(cwd, list[i].path) {
        agents_work_where_they_are(list, cwd, i + 1);
    }
}

/// An agent is listed just where it is live, has a number and works in a workspace; it is
/// listed with that number, that workspace, and as many unsaved files as were seen.
pub proof fn live_agents_are_listed(
    stem: Seq<char>,
    source: Seq<char>,
    live: bool,
    workspaces: Seq<WorkspaceView>,
    model: Option<Seq<char>>,
    seen: (i64, i64, Seq<i64>),
    now: i64,
)
    requires
        seen.2.len() <= usize::MAX,
    ensures
        ({
            let agent = agent_of(stem, source, live, workspaces, model, seen, now);
            let place = home(workspaces, source);
            let recorded = state_value(line_list(source), "model"@);
            &&& agent is Some <==> live && number(stem, u64::MAX as nat) is Some && place is Some
            &&& agent matches Some(a) ==> {
                &&& a.id == number(stem, u64::MAX as nat)->0
                &&& a.workspace == workspaces[place->0].name
                &&& a.workspace_ref == workspaces[place->0].reference
                &&& a.dirty == seen.2.len()
                &&& recorded is Some ==> a.model == recorded->0
                &&& recorded is None && model is Some ==> a.model == model->0
                &&& recorded is None && model is None ==> a.model == "agent"@
            }
        }),
{
}

/// A draft for publication is marked as one; it names the license where it is known, counts
/// the unproved declarations where they are known, and says that definitions have none only
/// where there are none at all.
pub proof fn drafts_say_what_is_known(
    project: Seq<char>,
    license: Option<Seq<char>>,
    sorries: Option<usize>,
    models: Seq<Seq<char>>,
    hours: Option<Seq<char>>,
)
    ensures
        ({
            let text = yaml_text(project, license, sorries, models, hours);
            &&& license matches Some(name) ==> has_text(
                text,
                "  license: "@ + json_text(name) + "\n"@,
            )
            &&& license is None ==> has_text(text, "  license: \"TODO\" # SPDX identifier\n"@)
            &&& sorries matches Some(count) ==> has_text(
                text,
                "  sorry_count: "@ + decimal(count as nat)
                    + " # latest compiler-audited declaration count\n"@ + (if count == 0 {
                    "  sorry_in_definitions: 0\n"@
                } else {
                    ""@
                }) + "  main_results: [] # TODO: curated declarations\nautomation:\n  methods:\n"@,
            )
            &&& has_text(text, json_text(project))
            &&& has_text(text, crate::status::automation_text(models, hours))
        }),
{
    let text = yaml_text(project, license, sorries, models, hours);
    let head =
        "# Generated by mathmux. TODO fields require human or project-author review.\n# Do not publish this draft until every TODO has been resolved.\n# yaml-language-server: $schema=https://raw.githubusercontent.com/mathlib-initiative/formalization.yaml/main/schema/formalization.schema.json\nversion: \"v0.4\"\nproject:\n  name: "@;
    let described =
        "\n  description: \"TODO\" # mathematical content and principal results\n  authors: [\"TODO\"] # formalization authors\n  responsible_maintainers: [] # TODO\n"@;
    let granted = match license {
        Some(name) => "  license: "@ + json_text(name) + "\n"@,
        None => "  license: \"TODO\" # SPDX identifier\n"@,
    };
    let sources =
        "sources:\n  - title: \"TODO\" # source or original-proof description\nrelated_formalizations: []\nclassification:\n  arxiv: [] # TODO if applicable\n  msc2020: [] # TODO if applicable\nstatus:\n  scope: \"TODO\"\n"@;
    let counted = match sorries {
        Some(count) => "  sorry_count: "@ + decimal(count as nat)
            + " # latest compiler-audited declaration count\n"@ + if count == 0 {
            "  sorry_in_definitions: 0\n"@
        } else {
            ""@
        },
        None => ""@,
    };
    let results = "  main_results: [] # TODO: curated declarations\nautomation:\n  methods:\n"@;
    let automation = crate::status::automation_text(models, hours);
    let p1 = Seq::<Seq<char>>::empty().push(head);
    chain_push(Seq::empty(), head);
    let p2 = p1.push(json_text(project));
    chain_push(p1, json_text(project));
    let p3 = p2.push(described);
    chain_push(p2, described);
    let p4 = p3.push(granted);
    chain_push(p3, granted);
    let p5 = p4.push(sources);
    chain_push(p4, sources);
    let p6 = p5.push(counted);
    chain_push(p5, counted);
    let p7 = p6.push(results);
    chain_push(p6, results);
    let p8 = p7.push(automation);
    chain_push(p7, automation);
    assert(chain(Seq::<Seq<char>>::empty()) + head =~= head);
    let built = chain(p8);
    let tail = text.skip(built.len() as int);
    assert(text =~= built + tail);
    told_in_front(p8, tail, 1, Seq::empty());
    told_in_front(p8, tail, 3, Seq::empty());
    assert(results.take(results.len() as int) =~= results);
    told_in_front(p8, tail, 5, results);
    told_in_front(p8, tail, 7, Seq::empty());
    assert(p8[1] + Seq::<char>::empty() =~= json_text(project));
    assert(p8[3] + Seq::<char>::empty() =~= granted);
    assert(p8[7] + Seq::<char>::empty() =~= automation);
}

proof fn told_in_front(parts: Seq<Seq<char>>, tail: Seq<char>, i: int, mark: Seq<char>)
    requires
        0 <= i < parts.len(),
        i + 1 < parts.len() ==> mark.len() == 0 || begins(parts[i + 1], mark),
        i + 1 == parts.len() ==> mark.len() == 0,
    ensures
        has_text(chain(parts) + tail, parts[i] + mark),
{
    if i + 1 < parts.len() && mark.len() == 0 {
        assert(parts[i + 1].take(0) =~= mark);
    }
    chain_tells(parts, i, mark);
    found_in_part(Seq::empty(), chain(parts), tail, parts[i] + mark);
    assert(Seq::<char>::empty() + chain(parts) + tail =~= chain(parts) + tail);
}

} // verus!

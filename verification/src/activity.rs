//! How long agents were at work.
use crate::order::{key_list, positions, rank, ranking, ranking_is_permutation, ranking_is_sorted};
use crate::search::tokens::{distinct, without_repeats};
use crate::text::make::{prefix_all, prefix_step, same, strings, strings_push};
use crate::text::scan::opt_string;
use vstd::prelude::*;

verus! {

broadcast use strings_push;

/// How many seconds a single sign of activity counts for.
pub const ACTIVE_SECS: i64 = 300;

/// A recorded call of an agent.
#[derive(Debug)]
pub struct ContextEvent {
    /// When the call ended, in milliseconds.
    pub created_at: i64,
    /// How long the agent waited for it, in milliseconds.
    pub client_ms: u64,
    pub workspace: String,
    pub reference: Option<String>,
    pub response_bytes: u64,
}

/// The contents of a [`ContextEvent`].
pub struct EventView {
    pub created_at: i64,
    pub client_ms: u64,
    pub workspace: Seq<char>,
    pub reference: Option<Seq<char>>,
    pub response_bytes: u64,
}

impl View for ContextEvent {
    type V = EventView;

    open spec fn view(&self) -> EventView {
        EventView {
            created_at: self.created_at,
            client_ms: self.client_ms,
            workspace: self.workspace@,
            reference: opt_string(self.reference),
            response_bytes: self.response_bytes,
        }
    }
}

/// The contents of a list of events.
pub open spec fn event_views(list: Seq<ContextEvent>) -> Seq<EventView> {
    list.map_values(|e: ContextEvent| e@)
}

/// A span of time, from its first second up to its end.
pub type Span = (i64, i64);

/// Whole seconds of a time in milliseconds, toward zero.
pub open spec fn whole_seconds(ms: i64) -> i64 {
    if ms >= 0 {
        (ms / 1000) as i64
    } else {
        (-((-ms) / 1000)) as i64
    }
}

/// Computes [`whole_seconds`].
pub fn to_seconds(ms: i64) -> (r: i64)
    ensures
        r == whole_seconds(ms),
        -9_223_372_036_854_776 <= r <= 9_223_372_036_854_776,
{
    if ms >= 0 {
        (ms as u64 / 1000) as i64
    } else {
        let size = (-(ms as i128)) as u64;
        -((size / 1000) as i64)
    }
}

/// A time with the span of activity added, within 64 bits.
pub open spec fn extended(at: i64) -> i64 {
    if at > i64::MAX - ACTIVE_SECS {
        i64::MAX
    } else {
        (at + ACTIVE_SECS) as i64
    }
}

fn extend(at: i64) -> (r: i64)
    ensures
        r == extended(at),
{
    if at > i64::MAX - ACTIVE_SECS {
        i64::MAX
    } else {
        at + ACTIVE_SECS
    }
}

/// The seconds that an agent waited, rounded up.
pub open spec fn waited(client_ms: u64) -> int {
    (client_ms + 999) / 1000
}

/// The span of an event: from when the agent began to wait until some time after it
/// ended.
pub open spec fn event_span(e: EventView) -> Span {
    (
        (whole_seconds(e.created_at) - waited(e.client_ms)) as i64,
        extended(whole_seconds(e.created_at)),
    )
}

fn span_of_event(e: &ContextEvent) -> (r: Span)
    ensures
        r == event_span(e@),
{
    let completed = to_seconds(e.created_at);
    let duration = ((e.client_ms as u128 + 999) / 1000) as i64;
    (completed - duration, extend(completed))
}

/// The key that orders times.
pub open spec fn time_key(at: i64) -> u64 {
    (at - i64::MIN) as u64
}

fn key_of_time(at: i64) -> (r: u64)
    ensures
        r == time_key(at),
{
    (at as i128 - i64::MIN as i128) as u64
}

/// The keys that order spans by their beginning, then by their end.
pub open spec fn span_keys(list: Seq<Span>) -> Seq<Seq<u64>> {
    list.map_values(|s: Span| seq![time_key(s.0), time_key(s.1)])
}

/// Spans in order.
pub open spec fn sorted_spans(list: Seq<Span>) -> Seq<Span> {
    ranking(span_keys(list)).map_values(|i: int| list[i])
}

fn sort_spans(list: &Vec<Span>) -> (r: Vec<Span>)
    ensures
        r@ == sorted_spans(list@),
{
    let ghost wanted = span_keys(list@);
    let mut keys: Vec<Vec<u64>> = Vec::new();
    assert(key_list(keys@) =~= wanted.take(0));
    for i in 0..list.len()
        invariant
            wanted == span_keys(list@),
            keys.len() == i,
            key_list(keys@) == wanted.take(i as int),
    {
        proof {
            prefix_step(wanted, i as int);
        }
        let mut key: Vec<u64> = Vec::new();
        key.push(key_of_time(list[i].0));
        key.push(key_of_time(list[i].1));
        assert(key@ =~= wanted[i as int]);
        let ghost before = key_list(keys@);
        keys.push(key);
        assert(key_list(keys@) =~= before.push(wanted[i as int]));
    }
    proof {
        prefix_all(wanted);
    }
    let order = rank(&keys);
    let ghost sorted = sorted_spans(list@);
    assert(positions(order@).len() == order.len());
    let mut out: Vec<Span> = Vec::new();
    assert(out@ =~= sorted.take(0));
    for i in 0..order.len()
        invariant
            order.len() == keys.len(),
            list.len() == keys.len(),
            forall|j: int| 0 <= j < order.len() ==> (#[trigger] order@[j]) < keys.len(),
            positions(order@) == ranking(key_list(keys@)),
            key_list(keys@) == span_keys(list@),
            sorted == sorted_spans(list@),
            sorted.len() == order.len(),
            out@ == sorted.take(i as int),
    {
        proof {
            prefix_step(sorted, i as int);
            assert(positions(order@)[i as int] == order@[i as int] as int);
        }
        out.push(list[order[i]]);
    }
    proof {
        prefix_all(sorted);
    }
    out
}

/// Spans cut to a window, those that lie outside it left out.
pub open spec fn clipped(list: Seq<Span>, from: i64, until: i64) -> Seq<Span>
    decreases list.len(),
{
    if list.len() == 0 {
        Seq::empty()
    } else {
        let earlier = clipped(list.drop_last(), from, until);
        let s = list.last();
        let a = if s.0 < from {
            from
        } else {
            s.0
        };
        let b = if s.1 > until {
            until
        } else {
            s.1
        };
        if a < b {
            earlier.push((a, b))
        } else {
            earlier
        }
    }
}

fn clip(list: &Vec<Span>, from: i64, until: i64) -> (r: Vec<Span>)
    ensures
        r@ == clipped(list@, from, until),
{
    let mut out: Vec<Span> = Vec::new();
    assert(list@.take(0) =~= Seq::empty());
    for i in 0..list.len()
        invariant
            out@ == clipped(list@.take(i as int), from, until),
    {
        proof {
            prefix_step(list@, i as int);
        }
        let s = list[i];
        let a = if s.0 < from {
            from
        } else {
            s.0
        };
        let b = if s.1 > until {
            until
        } else {
            s.1
        };
        if a < b {
            out.push((a, b));
        }
    }
    proof {
        prefix_all(list@);
    }
    out
}

/// The seconds of spans in order, and the latest end among those that hang together. A
/// span that begins before that end adds what lies beyond it; one that ends before it
/// takes the difference off again.
pub open spec fn merged_seconds(list: Seq<Span>) -> (int, Option<i64>)
    decreases list.len(),
{
    if list.len() == 0 {
        (0, None)
    } else {
        let (seconds, end) = merged_seconds(list.drop_last());
        let s = list.last();
        if end is Some && s.0 <= end->0 {
            (
                seconds + (s.1 - end->0),
                Some(
                    if s.1 > end->0 {
                        s.1
                    } else {
                        end->0
                    },
                ),
            )
        } else {
            (seconds + (s.1 - s.0), Some(s.1))
        }
    }
}

fn merge_seconds(list: &Vec<Span>) -> (r: i128)
    ensures
        r == bounded_sum(0, merged_seconds(list@).0),
{
    let mut gained: u128 = 0;
    let mut lost: u128 = 0;
    let mut end: Option<i64> = None;
    assert(list@.take(0) =~= Seq::empty());
    let length = list.len();
    for i in 0..length
        invariant
            length == list.len(),
            gained <= i * 0xffff_ffff_ffff_ffff,
            lost <= i * 0xffff_ffff_ffff_ffff,
            (gained - lost, end) == merged_seconds(list@.take(i as int)),
    {
        proof {
            prefix_step(list@, i as int);
            assert((i + 1) * 0xffff_ffff_ffff_ffff == i * 0xffff_ffff_ffff_ffff
                + 0xffff_ffff_ffff_ffff) by (nonlinear_arith);
            assert((i + 1) * 0xffff_ffff_ffff_ffff <= 0xffff_ffff_ffff_ffff
                * 0xffff_ffff_ffff_ffff) by (nonlinear_arith)
                requires
                    0 <= i < 0xffff_ffff_ffff_ffff,
            ;
        }
        let s = list[i];
        let mut from = s.0;
        let mut last = s.1;
        if let Some(e) = end {
            if s.0 <= e {
                from = e;
                if s.1 <= e {
                    last = e;
                }
            }
        }
        if s.1 >= from {
            gained += (s.1 as i128 - from as i128) as u128;
        } else {
            lost += (from as i128 - s.1 as i128) as u128;
        }
        end = Some(last);
    }
    proof {
        prefix_all(list@);
    }
    let most: u128 = i128::MAX as u128;
    if gained >= lost {
        let seconds = gained - lost;
        if seconds > most {
            i128::MAX
        } else {
            seconds as i128
        }
    } else {
        let seconds = lost - gained;
        if seconds > most {
            i128::MIN
        } else {
            -(seconds as i128)
        }
    }
}

/// A second lies in some span.
pub open spec fn covered(list: Seq<Span>, t: int) -> bool {
    exists|i: int| 0 <= i < list.len() && (#[trigger] list[i]).0 <= t < list[i].1
}

/// The seconds from `a` up to `b` that spans cover.
pub open spec fn covered_count(list: Seq<Span>, a: int, b: int) -> nat
    decreases b - a,
{
    if a >= b {
        0
    } else {
        covered_count(list, a, b - 1) + if covered(list, b - 1) {
            1nat
        } else {
            0nat
        }
    }
}

/// Spans begin one after the other, and none is empty.
pub open spec fn in_order(list: Seq<Span>) -> bool {
    &&& forall|i: int, j: int|
        0 <= i <= j < list.len() ==> (#[trigger] list[i]).0 <= (#[trigger] list[j]).0
    &&& forall|i: int| 0 <= i < list.len() ==> (#[trigger] list[i]).0 < list[i].1
}

proof fn count_splits(list: Seq<Span>, a: int, m: int, b: int)
    requires
        a <= m <= b,
    ensures
        covered_count(list, a, b) == covered_count(list, a, m) + covered_count(list, m, b),
    decreases b - m,
{
    if m < b {
        count_splits(list, a, m, b - 1);
    }
}

proof fn count_same(list: Seq<Span>, other: Seq<Span>, a: int, b: int)
    requires
        forall|t: int| a <= t < b ==> covered(list, t) == #[trigger] covered(other, t),
    ensures
        covered_count(list, a, b) == covered_count(other, a, b),
    decreases b - a,
{
    if a < b {
        count_same(list, other, a, b - 1);
        assert(covered(list, b - 1) == covered(other, b - 1));
    }
}

proof fn count_full(list: Seq<Span>, a: int, b: int)
    requires
        a <= b,
        forall|t: int| a <= t < b ==> #[trigger] covered(list, t),
    ensures
        covered_count(list, a, b) == b - a,
    decreases b - a,
{
    if a < b {
        count_full(list, a, b - 1);
        assert(covered(list, b - 1));
    }
}

proof fn count_none(list: Seq<Span>, a: int, b: int)
    requires
        forall|t: int| a <= t < b ==> !#[trigger] covered(list, t),
    ensures
        covered_count(list, a, b) == 0,
    decreases b - a,
{
    if a < b {
        count_none(list, a, b - 1);
        assert(!covered(list, b - 1));
    }
}

proof fn merged_shape(list: Seq<Span>)
    requires
        in_order(list),
        list.len() > 0,
    ensures
        merged_seconds(list).1 is Some,
        forall|i: int| 0 <= i < list.len() ==> (#[trigger] list[i]).1 <= merged_seconds(list).1->0,
        exists|i: int| 0 <= i < list.len() && (#[trigger] list[i]).1 == merged_seconds(list).1->0,
    decreases list.len(),
{
    let shorter = list.drop_last();
    let s = list.last();
    if shorter.len() > 0 {
        assert(in_order(shorter)) by {
            assert forall|i: int, j: int| 0 <= i <= j < shorter.len() implies (
            #[trigger] shorter[i]).0 <= (#[trigger] shorter[j]).0 by {
                assert(list[i].0 <= list[j].0);
            }
            assert forall|i: int| 0 <= i < shorter.len() implies (#[trigger] shorter[i]).0
                < shorter[i].1 by {
                assert(list[i].0 < list[i].1);
            }
        }
        merged_shape(shorter);
        let e = merged_seconds(shorter).1->0;
        let k = choose|k: int| 0 <= k < shorter.len() && (#[trigger] shorter[k]).1 == e;
        assert(list[k].1 == e);
        assert forall|i: int| 0 <= i < list.len() implies (#[trigger] list[i]).1 <= merged_seconds(
            list,
        ).1->0 by {
            if i < shorter.len() {
                assert(shorter[i].1 <= e);
            }
        }
        assert(list[list.len() - 1] == s);
    } else {
        assert(list[0] == s);
    }
}

/// No span ends before one that began earlier.
pub open spec fn ends_ascend(list: Seq<Span>) -> bool {
    forall|i: int, j: int|
        0 <= i <= j < list.len() ==> (#[trigger] list[i]).1 <= (#[trigger] list[j]).1
}

proof fn ends_ascend_step(list: Seq<Span>)
    requires
        in_order(list),
        list.len() > 1,
    ensures
        in_order(list.drop_last()),
        merged_seconds(list.drop_last()).1 is Some,
        ends_ascend(list) <==> ends_ascend(list.drop_last()) && merged_seconds(
            list.drop_last(),
        ).1->0 <= list.last().1,
{
    let shorter = list.drop_last();
    let s = list.last();
    assert forall|i: int, j: int| 0 <= i <= j < shorter.len() implies (#[trigger] shorter[i]).0 <= (
    #[trigger] shorter[j]).0 by {
        assert(list[i].0 <= list[j].0);
    }
    assert forall|i: int| 0 <= i < shorter.len() implies (#[trigger] shorter[i]).0
        < shorter[i].1 by {
        assert(list[i].0 < list[i].1);
    }
    merged_shape(shorter);
    let e = merged_seconds(shorter).1->0;
    if ends_ascend(list) {
        assert forall|i: int, j: int| 0 <= i <= j < shorter.len() implies (#[trigger] shorter[i]).1
            <= (#[trigger] shorter[j]).1 by {
            assert(list[i].1 <= list[j].1);
        }
        let k = choose|k: int| 0 <= k < shorter.len() && (#[trigger] shorter[k]).1 == e;
        assert(list[k].1 <= list[list.len() - 1].1);
    }
    if ends_ascend(shorter) && e <= s.1 {
        assert forall|i: int, j: int| 0 <= i <= j < list.len() implies (#[trigger] list[i]).1 <= (
        #[trigger] list[j]).1 by {
            if j < shorter.len() {
                assert(shorter[i].1 <= shorter[j].1);
            } else if i < shorter.len() {
                assert(shorter[i].1 <= e);
            }
        }
    }
}

/// Time that several spans share is counted at most once, and exactly once where no span
/// ends before one that began earlier: the seconds of such spans in order are the seconds
/// that some span covers. Any other spans count for less.
pub proof fn overlaps_count_at_most_once(list: Seq<Span>, a: int, b: int)
    requires
        in_order(list),
        forall|i: int| 0 <= i < list.len() ==> a <= (#[trigger] list[i]).0 && list[i].1 <= b,
    ensures
        merged_seconds(list).0 <= covered_count(list, a, b),
        merged_seconds(list).0 == covered_count(list, a, b) <==> ends_ascend(list),
    decreases list.len(),
{
    if list.len() == 0 {
        assert forall|t: int| a <= t < b implies !#[trigger] covered(list, t) by {}
        count_none(list, a, b);
    } else {
        let shorter = list.drop_last();
        let s = list.last();
        assert(list[list.len() - 1] == s);
        assert forall|i: int| 0 <= i < shorter.len() implies a <= (#[trigger] shorter[i]).0
            && shorter[i].1 <= b && shorter[i].0 < shorter[i].1 && shorter[i].0 <= s.0 by {
            assert(list[i] == shorter[i]);
            assert(list[i].0 <= list[list.len() - 1].0);
        }
        assert(in_order(shorter)) by {
            assert forall|i: int, j: int| 0 <= i <= j < shorter.len() implies (
            #[trigger] shorter[i]).0 <= (#[trigger] shorter[j]).0 by {
                assert(list[i].0 <= list[j].0);
            }
        }
        overlaps_count_at_most_once(shorter, a, b);
        assert forall|t: int| covered(list, t) == (covered(shorter, t) || s.0 <= t < s.1) by {
            if covered(list, t) {
                let i = choose|i: int|
                    0 <= i < list.len() && (#[trigger] list[i]).0 <= t < list[i].1;
                if i < shorter.len() {
                    assert(shorter[i].0 <= t < shorter[i].1);
                }
            }
            if covered(shorter, t) {
                let i = choose|i: int|
                    0 <= i < shorter.len() && (#[trigger] shorter[i]).0 <= t < shorter[i].1;
                assert(list[i].0 <= t < list[i].1);
            }
        }
        let from = if shorter.len() > 0 {
            merged_shape(shorter);
            let e = merged_seconds(shorter).1->0 as int;
            let k = choose|k: int| 0 <= k < shorter.len() && (#[trigger] shorter[k]).1 == e;
            if s.0 <= e {
                assert forall|t: int| s.0 <= t < e implies #[trigger] covered(shorter, t) by {
                    assert(shorter[k].0 <= s.0 && shorter[k].1 == e);
                }
                e
            } else {
                s.0 as int
            }
        } else {
            s.0 as int
        };
        assert forall|t: int| from <= t implies !#[trigger] covered(shorter, t) by {
            if covered(shorter, t) {
                let i = choose|i: int|
                    0 <= i < shorter.len() && (#[trigger] shorter[i]).0 <= t < shorter[i].1;
                assert(shorter[i].1 <= merged_seconds(shorter).1->0);
            }
        }
        let until = if s.1 > from {
            s.1 as int
        } else {
            from
        };
        assert(a <= from <= until) by {
            if shorter.len() > 0 {
                let k = choose|k: int|
                    0 <= k < shorter.len() && (#[trigger] shorter[k]).1 == merged_seconds(
                        shorter,
                    ).1->0;
                assert(a <= shorter[k].0 && shorter[k].0 < shorter[k].1);
            }
        }
        assert(until <= b) by {
            if shorter.len() > 0 {
                let k = choose|k: int|
                    0 <= k < shorter.len() && (#[trigger] shorter[k]).1 == merged_seconds(
                        shorter,
                    ).1->0;
                assert(shorter[k].1 <= b);
            }
        }
        count_splits(list, a, from, b);
        count_splits(list, from, until, b);
        count_splits(shorter, a, from, b);
        assert forall|t: int| a <= t < from implies covered(list, t) == #[trigger] covered(
            shorter,
            t,
        ) by {}
        count_same(list, shorter, a, from);
        assert forall|t: int| from <= t < until implies #[trigger] covered(list, t) by {}
        count_full(list, from, until);
        assert forall|t: int| until <= t < b implies !#[trigger] covered(list, t) by {}
        count_none(list, until, b);
        count_none(shorter, from, b);
        if shorter.len() > 0 {
            ends_ascend_step(list);
        } else {
            assert(ends_ascend(shorter));
            assert(ends_ascend(list));
        }
    }
}

/// An agent at work.
#[derive(Debug)]
pub struct AgentStatus {
    pub id: u64,
    pub workspace_ref: String,
    pub workspace: String,
    pub model: String,
    pub state: String,
    pub started_at: i64,
    pub last_active: i64,
    pub dirty: usize,
}

/// The contents of an [`AgentStatus`].
pub struct AgentView {
    pub id: u64,
    pub workspace_ref: Seq<char>,
    pub workspace: Seq<char>,
    pub model: Seq<char>,
    pub state: Seq<char>,
    pub started_at: i64,
    pub last_active: i64,
    pub dirty: usize,
}

impl View for AgentStatus {
    type V = AgentView;

    open spec fn view(&self) -> AgentView {
        AgentView {
            id: self.id,
            workspace_ref: self.workspace_ref@,
            workspace: self.workspace@,
            model: self.model@,
            state: self.state@,
            started_at: self.started_at,
            last_active: self.last_active,
            dirty: self.dirty,
        }
    }
}

/// The contents of a list of agents.
pub open spec fn agent_views(list: Seq<AgentStatus>) -> Seq<AgentView> {
    list.map_values(|a: AgentStatus| a@)
}

/// The spans of the events in a workspace that end at or after a time.
pub open spec fn event_spans(events: Seq<EventView>, workspace: Seq<char>, from: i64) -> Seq<Span>
    decreases events.len(),
{
    if events.len() == 0 {
        Seq::empty()
    } else {
        let earlier = event_spans(events.drop_last(), workspace, from);
        let span = event_span(events.last());
        if events.last().workspace == workspace && span.1 >= from {
            earlier.push(span)
        } else {
            earlier
        }
    }
}

fn collect_spans(events: &Vec<ContextEvent>, workspace: &str, from: i64) -> (r: Vec<Span>)
    ensures
        r@ == event_spans(event_views(events@), workspace@, from),
{
    let ghost views = event_views(events@);
    let mut out: Vec<Span> = Vec::new();
    for i in 0..events.len()
        invariant
            views == event_views(events@),
            out@ == event_spans(views.take(i as int), workspace@, from),
    {
        proof {
            prefix_step(views, i as int);
        }
        assert(views[i as int] == events@[i as int]@);
        let span = span_of_event(&events[i]);
        if span.1 >= from && same(events[i].workspace.as_str(), workspace) {
            out.push(span);
        }
    }
    proof {
        prefix_all(views);
    }
    out
}

/// The seconds that one agent was active in a window, by its events and by when it began
/// and was last seen.
pub open spec fn active_seconds(
    agent: AgentView,
    events: Seq<EventView>,
    since: i64,
    now: i64,
) -> int {
    let spans = event_spans(events, agent.workspace_ref, agent.started_at).push(
        (agent.started_at, extended(agent.started_at)),
    ).push((agent.last_active, extended(agent.last_active)));
    let from = if agent.started_at > since {
        agent.started_at
    } else {
        since
    };
    merged_seconds(clipped(sorted_spans(spans), from, now)).0
}

fn seconds_of_agent(agent: &AgentStatus, events: &Vec<ContextEvent>, since: i64, now: i64) -> (r:
    i128)
    ensures
        r == bounded_sum(0, active_seconds(agent@, event_views(events@), since, now)),
{
    let mut spans = collect_spans(events, agent.workspace_ref.as_str(), agent.started_at);
    spans.push((agent.started_at, extend(agent.started_at)));
    spans.push((agent.last_active, extend(agent.last_active)));
    let from = if agent.started_at > since {
        agent.started_at
    } else {
        since
    };
    merge_seconds(&clip(&sort_spans(&spans), from, now))
}

/// A sum that stops at the largest number of 128 bits.
pub open spec fn bounded_sum(a: int, b: int) -> int {
    if a + b > i128::MAX {
        i128::MAX as int
    } else if a + b < i128::MIN {
        i128::MIN as int
    } else {
        a + b
    }
}

/// Computes [`bounded_sum`].
pub fn add_bounded(a: i128, b: i128) -> (r: i128)
    ensures
        r == bounded_sum(a as int, b as int),
{
    if b >= 0 && a > i128::MAX - b {
        i128::MAX
    } else if b < 0 && a < i128::MIN - b {
        i128::MIN
    } else {
        a + b
    }
}

/// The seconds that agents worked in a window: by their events, or by the time since
/// they began where there are no events.
pub open spec fn total_seconds(
    agents: Seq<AgentView>,
    events: Option<Seq<EventView>>,
    since: i64,
    now: i64,
) -> int
    decreases agents.len(),
{
    if agents.len() == 0 {
        0
    } else {
        let earlier = total_seconds(agents.drop_last(), events, since, now);
        let agent = agents.last();
        bounded_sum(
            earlier,
            match events {
                Some(list) => bounded_sum(0, active_seconds(agent, list, since, now)),
                None => bounded_difference(
                    now,
                    if agent.started_at > since {
                        agent.started_at
                    } else {
                        since
                    },
                ),
            },
        )
    }
}

/// A difference of times within 64 bits.
pub open spec fn bounded_difference(a: i64, b: i64) -> int {
    if a - b > i64::MAX {
        i64::MAX as int
    } else if a - b < i64::MIN {
        i64::MIN as int
    } else {
        a - b
    }
}

/// The contents of an optional list of events.
pub open spec fn opt_events(events: Option<&Vec<ContextEvent>>) -> Option<Seq<EventView>> {
    match events {
        Some(list) => Some(event_views(list@)),
        None => None,
    }
}

/// Computes [`total_seconds`].
pub fn agent_seconds(
    agents: &Vec<AgentStatus>,
    events: Option<&Vec<ContextEvent>>,
    since: i64,
    now: i64,
) -> (r: i128)
    ensures
        r == total_seconds(agent_views(agents@), opt_events(events), since, now),
{
    let ghost views = agent_views(agents@);
    let mut total: i128 = 0;
    for i in 0..agents.len()
        invariant
            views == agent_views(agents@),
            total == total_seconds(views.take(i as int), opt_events(events), since, now),
    {
        proof {
            prefix_step(views, i as int);
        }
        assert(views[i as int] == agents@[i as int]@);
        let agent = &agents[i];
        match events {
            Some(list) => {
                total = add_bounded(total, seconds_of_agent(agent, list, since, now));
            },
            None => {
                let from = if agent.started_at > since {
                    agent.started_at
                } else {
                    since
                };
                let difference = now as i128 - from as i128;
                let more: i128 = if difference > i64::MAX as i128 {
                    i64::MAX as i128
                } else if difference < i64::MIN as i128 {
                    i64::MIN as i128
                } else {
                    difference
                };
                total = add_bounded(total, more);
            },
        }
    }
    proof {
        prefix_all(views);
    }
    total
}

/// The workspaces of events.
pub open spec fn workspaces_of(events: Seq<EventView>) -> Seq<Seq<char>> {
    events.map_values(|e: EventView| e.workspace)
}

/// The seconds of the events of some workspaces, each workspace by itself.
pub open spec fn recorded_in(events: Seq<EventView>, workspaces: Seq<Seq<char>>) -> int
    decreases workspaces.len(),
{
    if workspaces.len() == 0 {
        0
    } else {
        bounded_sum(
            recorded_in(events, workspaces.drop_last()),
            bounded_sum(
                0,
                merged_seconds(
                    sorted_spans(event_spans(events, workspaces.last(), i64::MIN)),
                ).0,
            ),
        )
    }
}

/// The seconds of all recorded events: work in parallel workspaces adds up, work in one
/// workspace is merged.
pub open spec fn recorded_seconds(events: Seq<EventView>) -> int {
    recorded_in(events, distinct(workspaces_of(events)))
}

/// Computes [`recorded_seconds`].
pub fn recorded_agent_seconds(events: &Vec<ContextEvent>) -> (r: i128)
    ensures
        r == recorded_seconds(event_views(events@)),
{
    let ghost wanted = workspaces_of(event_views(events@));
    let mut names: Vec<String> = Vec::new();
    for i in 0..events.len()
        invariant
            wanted == workspaces_of(event_views(events@)),
            strings(names@) == wanted.take(i as int),
    {
        proof {
            prefix_step(wanted, i as int);
        }
        names.push(events[i].workspace.clone());
    }
    proof {
        prefix_all(wanted);
    }
    let workspaces = without_repeats(&names);
    let ghost views = strings(workspaces@);
    let mut total: i128 = 0;
    for i in 0..workspaces.len()
        invariant
            views == strings(workspaces@),
            total == recorded_in(event_views(events@), views.take(i as int)),
    {
        proof {
            prefix_step(views, i as int);
        }
        assert(views[i as int] == workspaces@[i as int]@);
        let spans = collect_spans(events, workspaces[i].as_str(), i64::MIN);
        total = add_bounded(total, merge_seconds(&sort_spans(&spans)));
    }
    proof {
        prefix_all(views);
    }
    total
}

proof fn sorted_spans_ascend(list: Seq<Span>, i: int, j: int)
    requires
        0 <= i <= j < list.len(),
    ensures
        sorted_spans(list).len() == list.len(),
        sorted_spans(list)[i].0 <= sorted_spans(list)[j].0,
{
    let keys = span_keys(list);
    ranking_is_permutation(keys);
    if i < j {
        ranking_is_sorted(keys, i, j);
        let a = ranking(keys)[i];
        let b = ranking(keys)[j];
        assert(keys[a] == seq![time_key(list[a].0), time_key(list[a].1)]);
        assert(keys[b] == seq![time_key(list[b].0), time_key(list[b].1)]);
        assert(keys[a][0] == time_key(list[a].0));
        assert(keys[b][0] == time_key(list[b].0));
    }
}

proof fn clipped_in_order(list: Seq<Span>, from: i64, until: i64)
    requires
        forall|i: int, j: int|
            0 <= i <= j < list.len() ==> (#[trigger] list[i]).0 <= (#[trigger] list[j]).0,
    ensures
        in_order(clipped(list, from, until)),
        forall|i: int|
            0 <= i < clipped(list, from, until).len() ==> from <= (#[trigger] clipped(
                list,
                from,
                until,
            )[i]).0 && clipped(list, from, until)[i].1 <= until,
        forall|i: int|
            0 <= i < clipped(list, from, until).len() ==> (#[trigger] clipped(
                list,
                from,
                until,
            )[i]).0 <= if list.last().0 < from {
                from
            } else {
                list.last().0
            },
    decreases list.len(),
{
    if list.len() > 0 {
        let shorter = list.drop_last();
        assert forall|i: int, j: int| 0 <= i <= j < shorter.len() implies (#[trigger] shorter[i]).0
            <= (#[trigger] shorter[j]).0 by {
            assert(list[i].0 <= list[j].0);
        }
        clipped_in_order(shorter, from, until);
        let earlier = clipped(shorter, from, until);
        let all = clipped(list, from, until);
        if shorter.len() > 0 {
            assert(list[list.len() - 2].0 <= list[list.len() - 1].0);
            assert(shorter.last() == list[list.len() - 2]);
        }
        assert forall|i: int| 0 <= i < earlier.len() implies (#[trigger] all[i]) == earlier[i] by {}
        assert forall|i: int, j: int| 0 <= i <= j < all.len() implies (#[trigger] all[i]).0 <= (
        #[trigger] all[j]).0 by {
            if i < earlier.len() {
                assert(all[i] == earlier[i]);
            }
            if j < earlier.len() {
                assert(all[j] == earlier[j]);
            }
        }
    }
}

/// An agent's activity in a window counts every second at most once, however many events,
/// and signs of life, fall in it; and exactly once where none of their spans ends before
/// one that began earlier.
pub proof fn activity_counts_no_second_twice(
    agent: AgentView,
    events: Seq<EventView>,
    since: i64,
    now: i64,
)
    ensures
        ({
            let spans = event_spans(events, agent.workspace_ref, agent.started_at).push(
                (agent.started_at, extended(agent.started_at)),
            ).push((agent.last_active, extended(agent.last_active)));
            let from = if agent.started_at > since {
                agent.started_at
            } else {
                since
            };
            let list = clipped(sorted_spans(spans), from, now);
            let counted = covered_count(list, from as int, now as int);
            &&& active_seconds(agent, events, since, now) <= counted
            &&& active_seconds(agent, events, since, now) == counted <==> ends_ascend(list)
        }),
{
    let spans = event_spans(events, agent.workspace_ref, agent.started_at).push(
        (agent.started_at, extended(agent.started_at)),
    ).push((agent.last_active, extended(agent.last_active)));
    let from = if agent.started_at > since {
        agent.started_at
    } else {
        since
    };
    let sorted = sorted_spans(spans);
    ranking_is_permutation(span_keys(spans));
    assert forall|i: int, j: int| 0 <= i <= j < sorted.len() implies (#[trigger] sorted[i]).0 <= (
    #[trigger] sorted[j]).0 by {
        sorted_spans_ascend(spans, i, j);
    }
    clipped_in_order(sorted, from, now);
    overlaps_count_at_most_once(clipped(sorted, from, now), from as int, now as int);
}

proof fn event_spans_hold_time(events: Seq<EventView>, workspace: Seq<char>, from: i64, i: int)
    requires
        0 <= i < event_spans(events, workspace, from).len(),
    ensures
        event_spans(events, workspace, from)[i].0 < event_spans(events, workspace, from)[i].1,
    decreases events.len(),
{
    let shorter = events.drop_last();
    if i < event_spans(shorter, workspace, from).len() {
        event_spans_hold_time(shorter, workspace, from, i);
    }
}

/// The recorded work in a workspace counts every second at most once, and exactly once
/// where the span of no event ends before one that began earlier.
pub proof fn recorded_work_counts_no_second_twice(events: Seq<EventView>, workspace: Seq<char>)
    ensures
        ({
            let list = sorted_spans(event_spans(events, workspace, i64::MIN));
            let counted = covered_count(list, i64::MIN as int, i64::MAX as int);
            &&& merged_seconds(list).0 <= counted
            &&& merged_seconds(list).0 == counted <==> ends_ascend(list)
        }),
{
    let spans = event_spans(events, workspace, i64::MIN);
    let list = sorted_spans(spans);
    ranking_is_permutation(span_keys(spans));
    assert forall|i: int, j: int| 0 <= i <= j < list.len() implies (#[trigger] list[i]).0 <= (
    #[trigger] list[j]).0 by {
        sorted_spans_ascend(spans, i, j);
    }
    assert forall|i: int| 0 <= i < list.len() implies (#[trigger] list[i]).0 < list[i].1 by {
        event_spans_hold_time(events, workspace, i64::MIN, ranking(span_keys(spans))[i]);
    }
    overlaps_count_at_most_once(list, i64::MIN as int, i64::MAX as int);
}

} // verus!

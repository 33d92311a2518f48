//! The agents of a project, from what each has recorded of itself.
use crate::activity::{agent_views, to_seconds, whole_seconds, AgentStatus, AgentView};
use crate::order::{key_list, positions, rank, ranking, ranking_is_permutation, ranking_is_sorted};
use crate::path::{is_under, lies_under};
use crate::state::records::{Workspace, WorkspaceView};
use crate::state::store::workspace_views;
use crate::status::{
    agent_condition, agent_state_name, agent_value, epoch, latest, latest_of, parse_epoch,
    state_value,
};
use crate::text::make::{own, prefix_all, prefix_step};
use crate::text::number::{number, parse_u64};
use crate::text::pieces::line_list;
use crate::text::scan::opt_str;
use vstd::prelude::*;

verus! {

/// The first workspace from `i` on that a directory belongs to.
pub open spec fn home_from(list: Seq<WorkspaceView>, cwd: Seq<char>, i: int) -> Option<int>
    decreases list.len() - i,
{
    if i >= list.len() {
        None
    } else if lies_under(cwd, list[i].path) {
        Some(i)
    } else {
        home_from(list, cwd, i + 1)
    }
}

/// The workspace that an agent works in.
pub open spec fn home(list: Seq<WorkspaceView>, source: Seq<char>) -> Option<int> {
    match state_value(line_list(source), "cwd"@) {
        Some(cwd) => home_from(list, cwd, 0),
        None => None,
    }
}

/// Computes [`home`].
pub fn agent_workspace(workspaces: &Vec<Workspace>, source: &str) -> (r: Option<usize>)
    ensures
        match r {
            Some(i) => i < workspaces.len() && home(workspace_views(workspaces@), source@) == Some(
                i as int,
            ),
            None => home(workspace_views(workspaces@), source@) is None,
        },
{
    let Some(cwd) = agent_value(source, "cwd") else {
        return None;
    };
    let ghost views = workspace_views(workspaces@);
    assert(views.len() == workspaces.len());
    for i in 0..workspaces.len()
        invariant
            views == workspace_views(workspaces@),
            views.len() == workspaces.len(),
            state_value(line_list(source@), "cwd"@) == Some(cwd@),
            home_from(views, cwd@, 0) == home_from(views, cwd@, i as int),
    {
        assert(views[i as int] == workspaces@[i as int]@);
        if is_under(cwd, workspaces[i].path.as_str()) {
            return Some(i);
        }
    }
    None
}

/// What was seen of an agent from outside: when its session was last written, when its
/// workspace last had an event, and when its changed files were.
pub struct Sightings<'a> {
    pub session_at: i64,
    pub event_ms: i64,
    pub file_times: &'a Vec<i64>,
}

/// When an agent was last active.
pub open spec fn last_seen(source: Seq<char>, session_at: i64, event_ms: i64, files: Seq<i64>) -> i64 {
    let list = line_list(source);
    latest_of(
        seq![
            epoch(state_value(list, "started_at"@)) as i64,
            epoch(state_value(list, "last_user_send_at"@)) as i64,
            session_at,
            whole_seconds(event_ms),
            latest_of(files),
        ],
    )
}

/// Computes [`last_seen`].
pub fn agent_last_active(source: &str, seen: &Sightings) -> (r: i64)
    ensures
        r == last_seen(source@, seen.session_at, seen.event_ms, seen.file_times@),
{
    let mut times: Vec<i64> = Vec::new();
    times.push(parse_epoch(agent_value(source, "started_at")));
    times.push(parse_epoch(agent_value(source, "last_user_send_at")));
    times.push(seen.session_at);
    times.push(to_seconds(seen.event_ms));
    times.push(latest(seen.file_times));
    assert(times@ =~= seq![
        epoch(state_value(line_list(source@), "started_at"@)) as i64,
        epoch(state_value(line_list(source@), "last_user_send_at"@)) as i64,
        seen.session_at,
        whole_seconds(seen.event_ms),
        latest_of(seen.file_times@),
    ]);
    latest(&times)
}

/// An agent, from its record. One that is not live, has no number or works outside every
/// workspace is left out.
pub open spec fn agent_of(
    stem: Seq<char>,
    source: Seq<char>,
    live: bool,
    workspaces: Seq<WorkspaceView>,
    model: Option<Seq<char>>,
    seen: (i64, i64, Seq<i64>),
    now: i64,
) -> Option<AgentView> {
    let list = line_list(source);
    match (number(stem, u64::MAX as nat), home(workspaces, source)) {
        (Some(id), Some(i)) => if live {
            let last_active = last_seen(source, seen.0, seen.1, seen.2);
            Some(
                AgentView {
                    id: id as u64,
                    workspace_ref: workspaces[i].reference,
                    workspace: workspaces[i].name,
                    model: match state_value(list, "model"@) {
                        Some(m) => m,
                        None => match model {
                            Some(m) => m,
                            None => "agent"@,
                        },
                    },
                    state: agent_condition(state_value(list, "state"@), now, last_active),
                    started_at: epoch(state_value(list, "started_at"@)) as i64,
                    last_active,
                    dirty: seen.2.len() as usize,
                },
            )
        } else {
            None
        },
        _ => None,
    }
}

/// The view of an optional agent.
pub open spec fn opt_agent(a: Option<AgentStatus>) -> Option<AgentView> {
    match a {
        Some(v) => Some(v@),
        None => None,
    }
}

/// Computes [`agent_of`]. `model` is the model of the workspace.
pub fn agent_status(
    stem: &str,
    source: &str,
    live: bool,
    workspaces: &Vec<Workspace>,
    model: Option<&str>,
    seen: &Sightings,
    now: i64,
) -> (r: Option<AgentStatus>)
    ensures
        opt_agent(r) == agent_of(
            stem@,
            source@,
            live,
            workspace_views(workspaces@),
            opt_str(model),
            (seen.session_at, seen.event_ms, seen.file_times@),
            now,
        ),
{
    let Some(id) = parse_u64(stem) else {
        return None;
    };
    let Some(i) = agent_workspace(workspaces, source) else {
        return None;
    };
    if !live {
        return None;
    }
    assert(workspace_views(workspaces@)[i as int] == workspaces@[i as int]@);
    let last_active = agent_last_active(source, seen);
    let shown = match agent_value(source, "model") {
        Some(m) => own(m),
        None => match model {
            Some(m) => own(m),
            None => own("agent"),
        },
    };
    Some(
        AgentStatus {
            id,
            workspace_ref: own(workspaces[i].reference.as_str()),
            workspace: own(workspaces[i].name.as_str()),
            model: shown,
            state: agent_state_name(agent_value(source, "state"), now, last_active),
            started_at: parse_epoch(agent_value(source, "started_at")),
            last_active,
            dirty: seen.file_times.len(),
        },
    )
}

/// Every time at which an agent was seen counts: it was last active at the latest.
pub proof fn last_activity_is_the_latest(
    source: Seq<char>,
    session_at: i64,
    event_ms: i64,
    files: Seq<i64>,
)
    ensures
        last_seen(source, session_at, event_ms, files) >= session_at,
        last_seen(source, session_at, event_ms, files) >= whole_seconds(event_ms),
        last_seen(source, session_at, event_ms, files) >= latest_of(files),
{
    let list = line_list(source);
    let times = seq![
        epoch(state_value(list, "started_at"@)) as i64,
        epoch(state_value(list, "last_user_send_at"@)) as i64,
        session_at,
        whole_seconds(event_ms),
        latest_of(files),
    ];
    latest_bounds(times, 2);
    latest_bounds(times, 3);
    latest_bounds(times, 4);
}

proof fn latest_bounds(times: Seq<i64>, i: int)
    requires
        0 <= i < times.len(),
    ensures
        latest_of(times) >= times[i],
    decreases times.len(),
{
    if times.len() > 1 && i < times.len() - 1 {
        latest_bounds(times.drop_last(), i);
    }
}

/// Agents in the order of their numbers.
pub open spec fn by_number(list: Seq<AgentView>) -> Seq<AgentView> {
    ranking(list.map_values(|a: AgentView| seq![a.id])).map_values(|i: int| list[i])
}

/// Computes [`by_number`].
pub fn project_agents(list: &Vec<AgentStatus>) -> (r: Vec<AgentStatus>)
    ensures
        agent_views(r@) == by_number(agent_views(list@)),
{
    let ghost views = agent_views(list@);
    let ghost wanted = views.map_values(|a: AgentView| seq![a.id]);
    let mut keys: Vec<Vec<u64>> = Vec::new();
    assert(key_list(keys@) =~= wanted.take(0));
    for i in 0..list.len()
        invariant
            views == agent_views(list@),
            wanted == views.map_values(|a: AgentView| seq![a.id]),
            keys.len() == i,
            key_list(keys@) == wanted.take(i as int),
    {
        proof {
            prefix_step(wanted, i as int);
        }
        let ghost before = key_list(keys@);
        let mut key: Vec<u64> = Vec::new();
        key.push(list[i].id);
        assert(key@ =~= wanted[i as int]);
        keys.push(key);
        assert(key_list(keys@) =~= before.push(wanted[i as int]));
    }
    proof {
        prefix_all(wanted);
    }
    let order = rank(&keys);
    let ghost sorted = by_number(views);
    assert(positions(order@).len() == order.len());
    let mut out: Vec<AgentStatus> = Vec::new();
    assert(agent_views(out@) =~= sorted.take(0));
    for i in 0..order.len()
        invariant
            views == agent_views(list@),
            order.len() == keys.len(),
            list.len() == keys.len(),
            forall|j: int| 0 <= j < order.len() ==> (#[trigger] order@[j]) < keys.len(),
            positions(order@) == ranking(key_list(keys@)),
            key_list(keys@) == views.map_values(|a: AgentView| seq![a.id]),
            sorted == by_number(views),
            sorted.len() == order.len(),
            agent_views(out@) == sorted.take(i as int),
    {
        proof {
            prefix_step(sorted, i as int);
            assert(positions(order@)[i as int] == order@[i as int] as int);
        }
        let agent = &list[order[i]];
        let ghost before = agent_views(out@);
        out.push(
            AgentStatus {
                id: agent.id,
                workspace_ref: agent.workspace_ref.clone(),
                workspace: agent.workspace.clone(),
                model: agent.model.clone(),
                state: agent.state.clone(),
                started_at: agent.started_at,
                last_active: agent.last_active,
                dirty: agent.dirty,
            },
        );
        assert(agent_views(out@) =~= before.push(sorted[i as int]));
    }
    proof {
        prefix_all(sorted);
    }
    out
}

/// Every agent is listed, and none before one with a smaller number.
pub proof fn agents_are_listed_by_number(list: Seq<AgentView>, agent: AgentView, i: int, j: int)
    requires
        0 <= i < j < list.len(),
    ensures
        by_number(list).len() == list.len(),
        by_number(list).contains(agent) <==> list.contains(agent),
        by_number(list)[i].id <= by_number(list)[j].id,
{
    let keys = list.map_values(|a: AgentView| seq![a.id]);
    let order = ranking(keys);
    ranking_is_permutation(keys);
    ranking_is_sorted(keys, i, j);
    if list.contains(agent) {
        let k = list.index_of(agent);
        assert(order.contains(k));
        assert(by_number(list)[order.index_of(k)] == list[k]);
    }
    if by_number(list).contains(agent) {
        let k = by_number(list).index_of(agent);
        assert(by_number(list)[k] == list[order[k]]);
        assert(order.contains(order[k]));
    }
    let a = keys[order[i]];
    let b = keys[order[j]];
    assert(a == seq![list[order[i]].id] && b == seq![list[order[j]].id]);
    reveal_with_fuel(crate::order::lex_less, 2);
}

} // verus!

//! The state of a project, its agents and its publication.
use mathmux::activity::{agent_seconds, recorded_agent_seconds, AgentStatus, ContextEvent};
use mathmux::agents::{agent_last_active, agent_status, agent_workspace, Sightings};
use mathmux::state::records::{Submission, Workspace};
use mathmux::status::{
    format_age, license_of, net_lines, physical_lines, publication_model, publication_yaml,
    render_validation_status, submitted_lines,
};

fn submission(reference: &str, status: &str, detail: Option<&str>) -> Submission {
    Submission {
        reference: reference.into(),
        workspace_ref: "w1".into(),
        workspace_commit: "workspace".into(),
        main_commit: "main".into(),
        base_commit: "base".into(),
        checks: Vec::new(),
        validation_status: status.into(),
        validation_detail: detail.map(str::to_owned),
        build_output: None,
        build_summary: None,
        axioms: Vec::new(),
        sorries: Vec::new(),
        validation_duration_ms: None,
        validated_by: None,
        created_at: 0,
    }
}

#[test]
fn status_keeps_the_latest_validation_failure_visible() {
    let failed = submission("s9", "failed", Some("axiom audit failed:\nconflicting declaration"));
    let mut output = String::new();
    render_validation_status(&mut output, &Vec::new(), Some(&failed));
    assert_eq!(
        output,
        "\nvalidation s9:failed; show s9 --all\n  axiom audit failed: conflicting declaration"
    );

    let passed = submission("s10", "passed", Some("build passed"));
    let mut output = String::new();
    render_validation_status(&mut output, &Vec::new(), Some(&passed));
    assert_eq!(output, "\nvalidation idle");

    let queued = submission("s11", "queued", None);
    let mut output = String::new();
    render_validation_status(&mut output, &vec![queued], Some(&failed));
    assert_eq!(
        output,
        "\nvalidation s11:queued\n  latest result s9:failed; show s9 --all\n    axiom audit failed: conflicting declaration"
    );

    let mut legacy = submission("s12", "failed", Some("build failed"));
    legacy.build_output = Some(
        "warning: noise\nerror: Demo.lean:12:4: failed to synthesize CompactSpace B\n".into(),
    );
    let mut output = String::new();
    render_validation_status(&mut output, &Vec::new(), Some(&legacy));
    assert_eq!(
        output,
        "\nvalidation s12:failed; show s12 --all\n  build failed: Demo.lean:12:4: failed to synthesize CompactSpace B"
    );
}

#[test]
fn counts_physical_lines_with_or_without_a_final_newline() {
    assert_eq!(physical_lines(b""), 0);
    assert_eq!(physical_lines(b"one\ntwo\n"), 2);
    assert_eq!(physical_lines(b"one\ntwo"), 2);
}

fn agent(state: &str, started_at: i64, last_active: i64) -> AgentStatus {
    AgentStatus {
        id: 1,
        workspace_ref: "w1".into(),
        workspace: "demo".into(),
        model: "agent".into(),
        state: state.into(),
        started_at,
        last_active,
        dirty: 0,
    }
}

fn event(workspace: &str, created_at: i64) -> ContextEvent {
    ContextEvent {
        created_at,
        client_ms: 0,
        workspace: workspace.into(),
        reference: None,
        response_bytes: 0,
    }
}

fn hours(seconds: i128) -> f64 {
    seconds as f64 / 3600.0
}

#[test]
fn agent_hours_only_count_the_window_overlap() {
    let agents = vec![agent("active", 0, 0), agent("active", 5_400, 0)];
    assert_eq!(hours(agent_seconds(&agents, None, 3_600, 7_200)), 1.5);
}

#[test]
fn agent_hours_merge_recent_activity_intervals() {
    let agents = vec![agent("idle", 3_600, 4_800)];
    let events = vec![event("w1", 3_600_000), event("w1", 3_780_000), event("w1", 4_200_000)];
    assert_eq!(hours(agent_seconds(&agents, Some(&events), 3_600, 7_200)), 0.3);
}

#[test]
fn recorded_agent_hours_merge_parallel_workspace_activity() {
    let events = vec![event("w1", 600_000), event("w1", 720_000), event("w2", 600_000)];
    assert_eq!(hours(recorded_agent_seconds(&events)), 0.2);
}

#[test]
fn spans_within_others_take_time_off() {
    let mut long = event("w1", 1_000_000);
    long.client_ms = 500_000;
    let events = vec![long, event("w1", 800_000)];
    assert_eq!(recorded_agent_seconds(&events), 600);
    let agents = vec![agent("idle", 500, 500)];
    assert_eq!(agent_seconds(&agents, Some(&events), 0, 5_000), 600);
    assert_eq!(agent_seconds(&agents, Some(&events), 0, 1_100), 600);
}

#[test]
fn publication_yaml_contains_only_upstream_metadata() {
    let models = vec!["gpt-test".to_owned()];
    let yaml = publication_yaml("demo", Some("MIT"), Some(0), &models, Some("12.5"));
    let top_level = yaml
        .lines()
        .filter(|line| !line.is_empty() && !line.starts_with([' ', '#']))
        .filter_map(|line| line.split_once(':').map(|(key, _)| key))
        .collect::<Vec<_>>();
    assert_eq!(
        top_level,
        [
            "version",
            "project",
            "sources",
            "related_formalizations",
            "classification",
            "status",
            "automation",
            "review",
            "fidelity",
            "alignment",
            "acknowledgements",
        ]
    );
    for forbidden in [
        "mathmux:",
        "generated_at",
        "revision:",
        "toolchain",
        "lean_files",
        "lean_lines",
        "workspaces:",
        "framework:",
        "tool_setup:",
        "activity:",
    ] {
        assert!(!yaml.contains(forbidden), "leaked {forbidden}");
    }
    assert!(yaml.contains("method: agent"));
    assert!(yaml.contains("models: [\"gpt-test\"]"));
    assert!(yaml.contains("12.5 recorded agent-hours (approx.)"));
    assert!(!publication_model("agent message with spaces"));
}

#[test]
fn publication_quotes_what_it_is_given() {
    let yaml = publication_yaml("a \"quoted\"\tproject", None, None, &Vec::new(), None);
    assert!(yaml.contains("name: \"a \\\"quoted\\\"\\tproject\""), "{yaml}");
    assert!(yaml.contains("license: \"TODO\""));
    assert!(yaml.contains("method: other"));
}

#[test]
fn agents_are_read_from_their_record() {
    let workspaces = vec![
        Workspace {
            reference: "w1".into(),
            name: "one".into(),
            path: "/work/one".into(),
            branch: "b1".into(),
        },
        Workspace {
            reference: "w2".into(),
            name: "two".into(),
            path: "/work/two".into(),
            branch: "b2".into(),
        },
    ];
    let source = "cwd=/work/two/sub\nstarted_at=100\nlast_user_send_at=150\nstate=working\nmodel=m1\n";
    assert_eq!(agent_workspace(&workspaces, source), Some(1));
    assert_eq!(agent_workspace(&workspaces, "cwd=/work/twofold\n"), None);
    let times = vec![120, 400];
    let seen = Sightings { session_at: 200, event_ms: 350_999, file_times: &times };
    assert_eq!(agent_last_active(source, &seen), 400);
    let agent = agent_status("7", source, true, &workspaces, None, &seen, 500).unwrap();
    assert_eq!((agent.id, agent.workspace.as_str(), agent.dirty), (7, "two", 2));
    assert_eq!(agent.model, "m1");
    assert_eq!(agent.started_at, 100);
    assert!(agent_status("7", source, false, &workspaces, None, &seen, 500).is_none());
    assert!(agent_status("x", source, true, &workspaces, None, &seen, 500).is_none());
    let none: Vec<i64> = Vec::new();
    let quiet = Sightings { session_at: 0, event_ms: 0, file_times: &none };
    let idle = agent_status("7", source, true, &workspaces, None, &quiet, 1_000_000).unwrap();
    assert_eq!(idle.state, "idle");
    let waiting = agent_status(
        "8",
        "cwd=/work/one\nstate=waiting\n",
        true,
        &workspaces,
        Some("m2"),
        &quiet,
        10,
    )
    .unwrap();
    assert_eq!((waiting.state.as_str(), waiting.model.as_str()), ("waiting", "m2"));
}

#[test]
fn tables_of_changes_are_summed() {
    assert_eq!(net_lines("10\t3\tA.lean\n-\t-\tB.bin\n2\t5\tC.lean\n"), 4);
    assert_eq!(net_lines(""), 0);
    assert!(submitted_lines("").is_empty());
    assert_eq!(format_age(30), format_age(30));
    assert_eq!(license_of("Apache License\nVersion 2.0"), Some("Apache-2.0"));
    assert_eq!(license_of("nothing known"), None);
}

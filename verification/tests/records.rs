//! What is read from records: modules, checks, submissions and storage.
use mathmux::activity::{AgentStatus, ContextEvent};
use mathmux::agents::project_agents;
use mathmux::search::conversion::applied_functions;
use mathmux::search::evidence::snapshot_path;
use mathmux::search::fallback::{is_file_named, scan_failed};
use mathmux::search::modules::{
    generated_ilean_declarations, source_entry, ReferenceRecord, SourceKind,
};
use mathmux::search::names::declaration_glob_fts_query;
use mathmux::search::probe::{indexed_hit_of_run, probe_indexed_check};
use mathmux::search::records::{SearchHit, SearchRun, SearchUsage};
use mathmux::search::refine::file_of_usage;
use mathmux::search::request::ProbeContext;
use mathmux::state::records::Workspace;
use mathmux::state::store::State;
use mathmux::status::{
    context_per_loc, is_license_file, render_formalization_yaml, submission_context,
    PublicationReport, SubmissionContext, SubmissionInterval,
};
use mathmux::storage::plan::{worktree_has_active_process, CleanupPlan, ProcessEntry};
use mathmux::storage::report::{render_storage, StorageCategory};

fn hit(name: &str, signature: Option<&str>) -> SearchHit {
    SearchHit {
        name: name.into(),
        kind: "theorem".into(),
        signature: signature.map(str::to_owned),
        module: "Demo".into(),
        path: "Demo.lean".into(),
        line: 7,
        doc: None,
        source: None,
        usages: Vec::new(),
        applicable: false,
        required_import: None,
    }
}

fn run(hits: Vec<SearchHit>) -> SearchRun {
    SearchRun {
        reference: "q2".into(),
        workspace_ref: "w1".into(),
        query: "t".into(),
        inference: "exact".into(),
        hits,
        note: None,
        duration_ms: 0,
        created_at: 0,
    }
}

#[test]
fn applications_name_the_functions_they_apply() {
    assert_eq!(
        applied_functions("Type mismatch\nin the application\n  Demo.callee A Other.value Third.x"),
        ["Demo.callee", "Other.value"]
    );
    assert!(applied_functions("Demo.callee A").is_empty());
    assert!(applied_functions("in the application\n  f x").is_empty());
}

#[test]
fn files_are_named_by_a_query() {
    assert!(is_file_named("src/Continuity.lean", "continuity of maps"));
    assert!(is_file_named("src/Continuity.lean", "Topology/CONTINUITY"));
    assert!(!is_file_named("src/Continuity.lean", "continuity_of_maps"));
    assert!(!is_file_named("src/Continuity.lean", ""));
}

#[test]
fn scans_may_find_nothing_or_run_out_of_time() {
    assert!(!scan_failed(true, None));
    for code in [1, 124, 137] {
        assert!(!scan_failed(false, Some(code)));
    }
    assert!(scan_failed(false, Some(2)));
    assert!(scan_failed(false, None));
}

#[test]
fn build_directories_are_not_searched() {
    for kind in [SourceKind::Project, SourceKind::Dependency] {
        assert!(!source_entry("/repo/.lake", kind));
    }
    assert!(!source_entry("/repo/target", SourceKind::Project));
    assert!(source_entry("/repo/build", SourceKind::Project));
    assert!(!source_entry("/lean/build", SourceKind::Stdlib));
    assert!(source_entry("/lean/.lake", SourceKind::Stdlib));
    assert!(!source_entry("/lean/.git", SourceKind::Stdlib));
    assert!(source_entry("/", SourceKind::Project));
}

#[test]
fn generated_names_are_told_in_order() {
    let record = |name: &str, line: Option<u64>| ReferenceRecord { name: Some(name.into()), line };
    let records = vec![
        record("Demo.sum", Some(4)),
        record("Demo.add", Some(9)),
        record("Demo.add", Some(2)),
        record("Demo.mul", Some(1)),
        record("Demo.missing", None),
        record("Demo.«odd name»", Some(3)),
        ReferenceRecord { name: None, line: Some(5) },
    ];
    assert_eq!(
        generated_ilean_declarations(&records, &vec!["Demo.mul".into()]),
        [("Demo.add".to_owned(), 10), ("Demo.sum".to_owned(), 5)]
    );
}

#[test]
fn globs_become_index_queries() {
    assert_eq!(
        declaration_glob_fts_query("Matrix*mul").as_deref(),
        Some("(name : \"matrix\"* AND name : \"mul\"*)")
    );
    assert_eq!(
        declaration_glob_fts_query("foo*|bar*").as_deref(),
        Some("(name : \"foo\"*) OR (name : \"bar\"*)")
    );
    assert_eq!(declaration_glob_fts_query("Matrix.mul"), None);
}

#[test]
fn stored_hits_answer_checks() {
    let stored = run(vec![
        hit("Demo.first", Some("Nat")),
        hit("Demo.second", Some("Int")),
    ]);
    let name = |found: Option<SearchHit>| found.map(|hit| hit.name);
    assert_eq!(name(indexed_hit_of_run(&stored, 1, "second")), Some("Demo.second".into()));
    assert_eq!(name(indexed_hit_of_run(&stored, 0, "Demo.second")), Some("Demo.second".into()));
    assert_eq!(name(indexed_hit_of_run(&stored, 5, "Demo.first")), Some("Demo.first".into()));
    assert_eq!(name(indexed_hit_of_run(&stored, 0, "Demo.third")), None);
    let found = hit("Demo.first", Some("Nat"));
    let answer = |context: ProbeContext, hit: Option<&SearchHit>| {
        probe_indexed_check("q9", "w1", &context, "first", hit, 5)
    };
    let answered = answer(ProbeContext::Query("q2".into(), 0), Some(&found)).unwrap();
    assert_eq!(answered.reference, "q9");
    assert_eq!(answered.query, "q2 #check first");
    assert_eq!(answered.hits.len(), 1);
    assert_eq!(answered.hits[0].path, "Demo.lean");
    assert_eq!(answered.hits[0].line, 7);
    assert_eq!(answered.hits[0].source.as_deref(), Some("Demo.first : Nat"));
    let answered = answer(ProbeContext::File("Demo.lean".into()), Some(&found)).unwrap();
    assert_eq!(answered.query, "Demo.lean #check first");
    assert!(answer(ProbeContext::Check("c1".into()), Some(&found)).is_none());
    assert!(answer(ProbeContext::File("Demo.lean".into()), None).is_none());
}

#[test]
fn usages_are_read_from_their_files() {
    let usage = |path: &str| SearchUsage { path: path.into(), line: 3, context: None };
    assert_eq!(file_of_usage("/work/a", &usage("Demo/Use.lean")), "/work/a/Demo/Use.lean");
    assert_eq!(file_of_usage("/work/a", &usage("/other/Use.lean")), "/other/Use.lean");
}

#[test]
fn synchronisations_and_activity_are_recorded() {
    let mut state = State::new();
    let workspace = Workspace {
        reference: "w1".into(),
        name: "agent".into(),
        path: "/work/agent".into(),
        branch: "mathmux/agent".into(),
    };
    state.add_workspace(&workspace, 1).unwrap();
    assert_eq!(state.add_sync("w1", "updated", "2 commits", 6).unwrap(), "u1");
    assert_eq!(state.add_sync("w1", "current", "", 7).unwrap(), "u2");
    assert!(state.add_sync("w9", "updated", "", 8).is_err());
    assert_eq!(state.syncs.len(), 2);
    assert_eq!(state.syncs[0].detail, "2 commits");
    assert_eq!(state.last_number('u'), 3);
    assert_eq!(state.last_number('w'), 0);
    state.touch_workspace("w1", 40);
    assert_eq!(state.workspaces[0].last_active, 40);
    state.touch_workspace("w9", 50);
    assert_eq!(state.workspaces[0].last_active, 40);
}

#[test]
fn publications_name_their_models_once() {
    let report = PublicationReport {
        project: "demo".into(),
        license: Some("MIT".into()),
        sorries: Some(0),
        models: vec!["second".into(), "not a model".into(), "first".into(), "second".into()],
        agent_hours: None,
    };
    let text = render_formalization_yaml(&report);
    assert!(text.contains("  license: \"MIT\"\n"), "{text}");
    assert!(text.contains("      models: [\"first\", \"second\"]\n"), "{text}");
}

#[test]
fn licenses_stand_in_license_files() {
    for name in ["LICENSE", "License.md", "license.txt", "COPYING"] {
        assert!(is_license_file(name), "{name}");
    }
    assert!(!is_license_file("README.md"));
}

#[test]
fn submissions_cost_the_calls_since_the_last_one() {
    let event = |created_at: i64, workspace: &str, reference: Option<&str>, bytes: u64| ContextEvent {
        created_at,
        client_ms: 0,
        workspace: workspace.into(),
        reference: reference.map(str::to_owned),
        response_bytes: bytes,
    };
    let events = vec![
        event(10, "w1", Some("s1"), 100),
        event(11, "w1", None, 20),
        event(12, "w2", None, 40),
        event(13, "w1", Some("s2"), 3),
        event(14, "w1", None, 500),
    ];
    let submission = SubmissionInterval {
        reference: "s2".into(),
        workspace_ref: "w1".into(),
        workspace_commit: "abc".into(),
        created_at: 30,
        previous_reference: Some("s1".into()),
        previous_created_at: 0,
    };
    let cost = submission_context(&submission, &events, &vec![("abc".into(), 8)]);
    assert_eq!(cost.created_at, 30);
    assert_eq!((cost.lines, cost.calls, cost.output_bytes), (8, 2, 23));
    let first = SubmissionInterval { previous_reference: None, reference: "s9".into(), ..submission };
    let cost = submission_context(&first, &events, &Vec::new());
    assert_eq!((cost.lines, cost.calls, cost.output_bytes), (0, 4, 623));
}

#[test]
fn costs_are_told_per_line() {
    let cost = |created_at: i64, lines: u64| SubmissionContext {
        created_at,
        lines,
        calls: 3,
        output_bytes: 50,
    };
    let list = vec![cost(1, 9), cost(5, 2), cost(6, 4)];
    let total = context_per_loc(&list, 5).unwrap();
    assert_eq!((total.created_at, total.lines, total.calls, total.output_bytes), (0, 6, 6, 100));
    assert!(context_per_loc(&list, 7).is_none());
    assert!(context_per_loc(&vec![cost(1, 0)], 0).is_none());
}

#[test]
fn storage_is_told_by_category() {
    let categories = vec![
        StorageCategory { label: "SQLite".into(), bytes: 512 },
        StorageCategory { label: "shared setups".into(), bytes: 0 },
    ];
    let plan = CleanupPlan {
        deleted_setup_directories: vec!["/state/setups/w1".into()],
        shared_setup_files: Vec::new(),
        lean_service_directories: vec!["/state/lean-service/a".into(), "/state/lean-service/b".into()],
    };
    let text = render_storage(512, &categories, &plan, 0, &Vec::new());
    assert!(text.starts_with("MathMux storage: 512 B\nSQLite: 512 B\nshared setups: 0 B\n"), "{text}");
    assert!(
        text.contains(
            "normal GC reclaimable: 0 B (1 deleted workspaces, 0 shared setup files, 2 obsolete Lean-service generations)\nCategory sizes are physical estimates and may overlap where setups are hard-linked."
        ),
        "{text}"
    );
}

#[test]
fn agents_are_listed_in_the_order_of_their_numbers() {
    let agent = |id: u64, model: &str| AgentStatus {
        id,
        workspace_ref: "w1".into(),
        workspace: "agent".into(),
        model: model.into(),
        state: "working".into(),
        started_at: 1,
        last_active: 2,
        dirty: 0,
    };
    let listed = project_agents(&vec![agent(7, "a"), agent(2, "b"), agent(7, "c"), agent(1, "d")]);
    let shown: Vec<(u64, &str)> =
        listed.iter().map(|agent| (agent.id, agent.model.as_str())).collect();
    assert_eq!(shown, [(1, "d"), (2, "b"), (7, "a"), (7, "c")]);
}

#[test]
fn processes_keep_a_worktree_active() {
    let process = |name: &str, directory: Option<&str>, command: Option<&[u8]>| ProcessEntry {
        name: name.into(),
        directory: directory.map(str::to_owned),
        command: command.map(<[u8]>::to_vec),
    };
    let active = |entry: ProcessEntry| worktree_has_active_process("/work/a", &vec![entry]);
    assert!(active(process("12", Some("/work/a"), None)));
    assert!(active(process("12", Some("/work/a/sub"), None)));
    assert!(!active(process("12", Some("/work/ab"), None)));
    assert!(!active(process("self", Some("/work/a"), None)));
    assert!(active(process("12", None, Some(b"lean\0/work/a/Demo.lean\0"))));
    assert!(active(process("12", None, Some(b"\xff/work/ab"))));
    assert!(!active(process("12", None, Some(b"lean\0/work/b"))));
    assert!(!active(process("12", None, Some(b"/work"))));
    assert!(!active(process("12", None, None)));
    assert!(!worktree_has_active_process("/work/a", &Vec::new()));
    let anywhere = |entry: ProcessEntry| worktree_has_active_process("", &vec![entry]);
    assert!(anywhere(process("12", Some("/work/a"), None)));
    assert!(anywhere(process("12", Some("/"), None)));
    assert!(!anywhere(process("self", Some("/work/a"), None)));
    assert!(!anywhere(process("12", None, None)));
}

#[test]
fn snapshots_are_taken_inside_the_workspace() {
    assert_eq!(snapshot_path("/work/a", "Main.lean").unwrap(), "Main.lean");
    assert_eq!(snapshot_path("/work/a", "/work/a/Demo/Main.lean").unwrap(), "Demo/Main.lean");
    let refusal = |path: &str| snapshot_path("/work/a", path).unwrap_err().to_text();
    assert_eq!(refusal("../outside.lean"), "evidence path escapes workspace");
    assert_eq!(refusal("/work/a/../b.lean"), "evidence path escapes workspace");
    assert_eq!(refusal("/other/Main.lean"), "prefix not found");
}

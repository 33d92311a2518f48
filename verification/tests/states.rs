//! The record of workspaces, checks and submissions, and how it is shown.
use mathmux::search::records::Diagnostic;
use mathmux::state::build_logs::{expired_build_logs, BuildLogSummary, LogRow};
use mathmux::state::display::{
    append_diagnostics, bounded_build_output, relevant_passed_build_output, render_submission,
};
use mathmux::state::records::{CheckRecord, Submission, Workspace};
use mathmux::state::store::State;

fn workspace(reference: &str, name: &str) -> Workspace {
    Workspace {
        reference: reference.into(),
        name: name.into(),
        path: format!("/work/{name}"),
        branch: format!("mathmux/{name}"),
    }
}

fn submission(reference: &str, created_at: i64) -> Submission {
    Submission {
        reference: reference.into(),
        workspace_ref: "w1".into(),
        workspace_commit: format!("workspace-{reference}"),
        main_commit: format!("main-{reference}"),
        base_commit: "base".into(),
        checks: vec!["c1".into()],
        validation_status: "queued".into(),
        validation_detail: None,
        validated_by: None,
        validation_duration_ms: None,
        build_output: None,
        build_summary: None,
        axioms: Vec::new(),
        sorries: Vec::new(),
        created_at,
    }
}

#[test]
fn references_persist_and_show_requires_a_typed_reference() {
    let mut state = State::new();
    assert_eq!(state.next_ref('c'), "c1");
    assert_eq!(state.next_ref('c'), "c2");
    assert_eq!(state.next_ref('q'), "q1");
    assert_eq!(state.last_number('c'), 2);
    assert_eq!(state.last_number('s'), 0);
    assert!(state.show("check:c2").is_err());
    assert!(state.show("").is_err());
}

#[test]
fn queued_submissions_coalesce_to_the_newest_revision() {
    let mut state = State::new();
    state.add_workspace(&workspace("w1", "agent"), 0).unwrap();
    for (reference, created_at) in [("s1", 1), ("s2", 2)] {
        state.add_submission(&submission(reference, created_at)).unwrap();
    }
    assert!(state.has_validation_work());
    assert_eq!(state.next_validation().unwrap().reference, "s2");
    let skipped = state.submission("s1").unwrap();
    assert_eq!(skipped.validation_status, "skipped");
    assert_eq!(skipped.validated_by.as_deref(), Some("s2"));
    assert_eq!(state.submission("s2").unwrap().validation_status, "running");
    state.recover_validation();
    assert_eq!(state.submission("s2").unwrap().validation_status, "queued");
    assert_eq!(state.next_validation().unwrap().reference, "s2");
    state.finish_validation("s2", true, "build passed");
    let passed = state.submission("s2").unwrap();
    assert_eq!(passed.validation_status, "passed");
    assert_eq!(passed.validation_detail.as_deref(), Some("build passed"));
    assert!(!state.has_validation_work());
    assert!(state.next_validation().is_none());
}

#[test]
fn workspaces_are_found_by_name_and_path() {
    let mut state = State::new();
    state.add_workspace(&workspace("w1", "one"), 1).unwrap();
    state.add_workspace(&workspace("w2", "two"), 2).unwrap();
    assert!(state.add_workspace(&workspace("w1", "three"), 3).is_err());
    assert_eq!(state.list_workspaces().len(), 2);
    assert_eq!(state.workspace_named("two").unwrap().reference, "w2");
    assert!(state.workspace_named("three").is_none());
    assert_eq!(state.workspace_for_path("/work/one/Demo/A.lean").unwrap().reference, "w1");
    assert!(state.workspace_for_path("/elsewhere").is_err());
    state.remove_workspace("w1", 4).unwrap();
    assert!(state.workspace_named("one").is_none());
    assert!(state.workspace_for_path("/work/one").is_err());
    state.remove_workspace("w9", 5).unwrap();
    assert_eq!(state.list_workspaces().len(), 1);
}

#[test]
fn checks_belong_to_their_workspace_and_target() {
    let mut state = State::new();
    state.add_workspace(&workspace("w1", "one"), 1).unwrap();
    let check = |reference: &str, target: &str, created_at: i64| CheckRecord {
        reference: reference.into(),
        workspace_ref: "w1".into(),
        target: target.into(),
        fingerprint: "hash".into(),
        dependencies: Vec::new(),
        source_version: 1,
        created_at,
    };
    state.add_check(&check("c1", "A.lean", 1)).unwrap();
    state.add_check(&check("c2", "A.lean", 2)).unwrap();
    state.add_check(&check("c3", "B.lean", 3)).unwrap();
    assert_eq!(state.latest_check("w1", "A.lean").unwrap().reference, "c2");
    assert!(state.latest_check("w2", "A.lean").is_none());
    assert_eq!(state.checks_for_workspace("w1").len(), 3);
    state.delete_checks("w1");
    assert!(state.checks_for_workspace("w1").is_empty());
}

#[test]
fn retention_keeps_recent_and_failure_windows_and_durable_evidence() {
    let mut state = State::new();
    state.add_workspace(&workspace("w1", "agent"), 0).unwrap();
    for i in 1..=40 {
        state
            .add_submission(&Submission {
                validation_status: if i <= 15 { "failed" } else { "passed" }.into(),
                validation_detail: Some("build failed".into()),
                build_output: Some("warning: keep count\nerror: useful failure\n  context".into()),
                axioms: vec!["axiom-evidence".into()],
                sorries: vec!["sorry-location".into()],
                validation_duration_ms: Some(12),
                ..submission(&format!("s{i}"), i)
            })
            .unwrap();
    }
    assert_eq!(state.prune_build_logs(), 20);
    for i in 1..=40 {
        let kept = state.submission(&format!("s{i}")).unwrap();
        assert_eq!(kept.build_output.is_some(), i >= 31 || (6..=15).contains(&i));
        assert_eq!(kept.build_summary.as_ref().unwrap().warnings, 1);
        assert_eq!(kept.axioms, ["axiom-evidence"]);
        assert_eq!(kept.sorries, ["sorry-location"]);
        assert!(kept.validation_detail.unwrap().contains("useful failure"));
    }
    let shown = render_submission(&state.submission("s1").unwrap(), &Vec::new(), None, true);
    assert!(shown.contains("raw build output expired"), "{shown}");
    assert!(shown.contains("useful failure"), "{shown}");
    assert!(shown.contains("build warnings: 1"), "{shown}");
    assert_eq!(state.prune_build_logs(), 0);
    let new_output = BuildLogSummary::from_output("new output");
    assert_eq!(new_output.original_bytes, 10);
    state
        .add_submission(&Submission {
            validation_status: "passed".into(),
            build_output: Some("latest".into()),
            ..submission("s41", 41)
        })
        .unwrap();
    assert_eq!(state.prune_build_logs(), 1);
    assert!(state.submission("s31").unwrap().build_output.is_none());
    assert!(state.submission("s41").unwrap().build_output.is_some());
    assert_eq!(state.prune_build_logs_with_budget(1), 20);
    assert!(state.submission("s40").unwrap().build_output.is_none());
    assert!(state.submission("s40").unwrap().build_summary.is_some());
    assert_eq!(state.prune_build_logs_with_budget(1), 0);
    assert!(state.is_valid());
}

#[test]
fn retention_drops_what_is_old() {
    let rows = |sizes: bool| -> Vec<LogRow> {
        (1..=40)
            .rev()
            .map(|i| LogRow {
                reference: format!("s{i}"),
                failed: i <= 15,
                size: if sizes || i >= 31 || (6..=15).contains(&i) { Some(40) } else { None },
            })
            .collect()
    };
    let expired = expired_build_logs(&rows(true), u64::MAX);
    assert_eq!(expired.len(), 20);
    for i in 1..=40 {
        let kept = i >= 31 || (6..=15).contains(&i);
        assert_eq!(expired.contains(&format!("s{i}")), !kept);
    }
    assert!(expired_build_logs(&rows(false), u64::MAX).is_empty());
    assert_eq!(expired_build_logs(&rows(false), 1).len(), 20);
}

#[test]
fn broken_records_are_told() {
    let mut state = State::new();
    assert!(state.is_valid());
    state.add_workspace(&workspace("w1", "agent"), 0).unwrap();
    state.add_submission(&submission("s1", 1)).unwrap();
    assert!(state.is_valid());
    state.submissions.push(submission("s1", 2));
    assert!(!state.is_valid());
    state.submissions.pop();
    state.submissions.push(Submission { workspace_ref: "w9".into(), ..submission("s2", 2) });
    assert!(!state.is_valid());
    state.submissions.pop();
    state.counters.push(('x', 1));
    state.counters.push(('x', 2));
    assert!(!state.is_valid());
}

#[test]
fn diagnostic_summary_is_bounded_and_prefers_errors_over_build_noise() {
    let output = format!(
        "{}\nwarning: one\nerror: important\n{}",
        "info: Built dependency\n".repeat(500),
        "λ".repeat(10000)
    );
    let summary = BuildLogSummary::from_output(&output);
    assert_eq!(summary.warnings, 1);
    assert!(summary.diagnostics.starts_with("error: important"));
    assert!(summary.diagnostics.len() < mathmux::state::build_logs::SUMMARY_BYTES + 100);
}

#[test]
fn long_diagnostics_keep_their_head_and_tail_within_the_budget() {
    let diagnostic = Diagnostic {
        kind: "lean".into(),
        text: (1..=300).map(|line| format!("diagnostic line {line}")).collect::<Vec<_>>().join("\n"),
        context: None,
    };
    let mut output = String::new();
    append_diagnostics(&mut output, "diagnostics", &vec![diagnostic], None, 12);
    assert_eq!(output.trim().lines().count(), 13);
    assert!(output.contains("diagnostic line 1"));
    assert!(output.contains("diagnostic line 300"));
    assert!(output.contains("289 diagnostic lines omitted"));
}

#[test]
fn expanded_build_output_keeps_head_and_tail_within_the_budget() {
    let output = (1..=300).map(|line| format!("build line {line}")).collect::<Vec<_>>().join("\n");
    let rendered = bounded_build_output(&output);
    assert_eq!(rendered.lines().count(), 121);
    assert!(rendered.contains("build line 1"));
    assert!(rendered.contains("build line 300"));
    assert!(rendered.contains("180 build lines omitted"));
}

#[test]
fn passed_build_output_keeps_only_submitted_file_blocks() {
    let output = "warning: Other.lean:1: unrelated\n  unrelated detail\n\
info: Demo.lean:2: Demo.answer : Nat\n  signature detail\n\
warning: Demo.lean:3: relevant warning\n  relevant detail\n\
Build completed successfully";
    let rendered = relevant_passed_build_output(output, &vec!["Demo.lean".into()]);
    assert!(!rendered.contains("Other.lean"));
    assert!(!rendered.contains("unrelated detail"));
    assert!(rendered.contains("Demo.answer : Nat"));
    assert!(rendered.contains("relevant warning"));
    assert!(rendered.contains("relevant detail"));
}

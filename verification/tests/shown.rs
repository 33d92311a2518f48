//! How searches, checks and submissions are shown.
use mathmux::search::exact::{annotate_missing_hit_terms, context_refinement_score};
use mathmux::search::goal::{goal_search, probe_with, start_goal_search, GoalLocation, GoalStep};
use mathmux::search::modules::reference_display_path;
use mathmux::search::names::declaration_predicate_base;
use mathmux::search::occurrences::reject_colon_attached_source_facet;
use mathmux::search::records::{Diagnostic, SearchHit, SearchResult, SearchRun};
use mathmux::search::score::structural_result_type_score;
use mathmux::search::source::SourceEntry;
use mathmux::search::spans::{source_entry_is_private, submission_entry_score};
use mathmux::state::display::{render_search_run, render_submission};
use mathmux::state::profile::{
    render_check_run, CheckProfile, CheckRun, FileProfile, ProfileEntry,
};
use mathmux::state::records::Submission;

fn hit(name: &str) -> SearchHit {
    SearchHit {
        name: name.into(),
        kind: "theorem".into(),
        signature: Some("(n : Nat) : n = n".into()),
        module: "Demo".into(),
        path: "Demo.lean".into(),
        line: 3,
        doc: Some("The doc.".into()),
        source: Some("theorem t (n : Nat) : n = n := rfl".into()),
        usages: Vec::new(),
        applicable: false,
        required_import: Some("Demo".into()),
    }
}

#[test]
fn stored_searches_are_shown_with_their_query() {
    let run = SearchRun {
        reference: "q3".into(),
        workspace_ref: "w1".into(),
        query: "t".into(),
        inference: "exact".into(),
        hits: (0..7).map(|i| hit(&format!("Demo.t{i}"))).collect(),
        note: Some("a note".into()),
        duration_ms: 1,
        created_at: 2,
    };
    let some = render_search_run(&run, false);
    assert!(some.starts_with("q3\nquery: t\na note\n1. Demo.t0 : (n : Nat) : n = n"), "{some}");
    assert!(some.contains("5. Demo.t4"), "{some}");
    assert!(!some.contains("6. Demo.t5"), "{some}");
    let all = render_search_run(&run, true);
    assert!(all.contains("7. Demo.t6"), "{all}");
    let none = render_search_run(&SearchRun { hits: Vec::new(), note: None, ..run }, false);
    assert_eq!(none, "q3\nquery: t\nno results");
}

fn diagnostic(kind: &str, text: &str) -> Diagnostic {
    Diagnostic { kind: kind.into(), text: text.into(), context: None }
}

fn check(status: &str, profile: Option<CheckProfile>) -> CheckRun {
    CheckRun {
        reference: "c4".into(),
        workspace_ref: "w1".into(),
        status: status.into(),
        duration_ms: 1500,
        files: vec!["Demo.lean".into()],
        failed: None,
        not_checked: Vec::new(),
        diagnostics: vec![diagnostic("error", "Demo.lean:3:1: error: no goals")],
        warnings: Vec::new(),
        suggestions: Vec::new(),
        linters: Vec::new(),
        profile,
    }
}

#[test]
fn checks_are_shown_with_their_diagnostics() {
    let text = render_check_run(&check("failed", None), false);
    assert!(text.contains("c4"), "{text}");
    assert!(text.contains("Demo.lean:3:1: error: no goals"), "{text}");
}

#[test]
fn profiles_show_their_hotspots() {
    let profile = CheckProfile {
        planning_ms: 2,
        files: vec![FileProfile {
            target: "Demo.lean".into(),
            mode: "profile".into(),
            total_ms: 40,
            dependencies_ms: 1,
            cache_ms: 2,
            setup_ms: 3,
            elaborate_ms: 30,
            queue_ms: 4,
            reused_prefix_lines: None,
            entries: vec![ProfileEntry {
                kind: "elaboration".into(),
                line: 3,
                column: 1,
                detail: "theorem t".into(),
                duration: "25ms".into(),
                weight: 25,
            }],
        }],
    };
    let text = render_check_run(&check("passed", Some(profile)), false);
    assert!(text.contains("25ms"), "{text}");
    assert!(text.contains("Demo.lean"), "{text}");
}

#[test]
fn submissions_are_shown_with_their_validation() {
    let submission = Submission {
        reference: "s2".into(),
        workspace_ref: "w1".into(),
        workspace_commit: "0123456789abcdef".into(),
        main_commit: "fedcba9876543210".into(),
        base_commit: "1111111111111111".into(),
        checks: vec!["c1".into()],
        validation_status: "failed".into(),
        validation_detail: Some("build failed".into()),
        validated_by: None,
        validation_duration_ms: Some(2500),
        build_output: Some("error: Demo.lean:3:1: no goals".into()),
        build_summary: None,
        axioms: Vec::new(),
        sorries: vec!["Demo.t".into()],
        created_at: 7,
    };
    let text = render_submission(&submission, &vec!["Demo.lean".into()], None, false);
    assert!(text.contains("s2"), "{text}");
    assert!(text.contains("failed"), "{text}");
    assert!(text.contains("sorries: 1"), "{text}");
}

#[test]
fn missing_terms_are_noted() {
    let mut result = SearchResult {
        hits: vec![hit("Demo.t")],
        inference: "exact".into(),
        note: None,
        ok: true,
    };
    annotate_missing_hit_terms(&mut result, &vec!["nat".into()]);
    assert_eq!(result.note, None);
    annotate_missing_hit_terms(&mut result, &vec!["absent".into()]);
    assert!(result.note.as_deref().unwrap().contains("absent"), "{:?}", result.note);
    assert!(
        context_refinement_score(&hit("Demo.t"), &vec!["nat".into()])
            > context_refinement_score(&hit("Demo.t"), &vec!["absent".into()])
    );
}

#[test]
fn facets_stand_apart_from_files() {
    assert!(reject_colon_attached_source_facet("Demo.lean:outline").is_err());
    assert!(reject_colon_attached_source_facet("Demo.lean outline").is_ok());
}

#[test]
fn references_lead_to_their_module() {
    assert_eq!(reference_display_path("Demo.Sub", true), "Demo/Sub.lean");
    assert!(reference_display_path("Demo.Sub", false).ends_with("Demo/Sub.lean"));
}

#[test]
fn private_entries_are_told_by_their_signature() {
    let entry = |signature: &str, body: &str| SourceEntry {
        line: 1,
        name: "Demo.t".into(),
        kind: "theorem".into(),
        signature: signature.into(),
        docs: String::new(),
        body: body.into(),
    };
    assert!(source_entry_is_private(&entry("[private] : True", "private theorem t : True")));
    assert!(!source_entry_is_private(&entry(": True", "theorem t : True")));
    assert!(
        submission_entry_score(&entry(": True", "theorem t"), &vec!["demo.t".into()])
            >= submission_entry_score(&entry(": True", "theorem t"), &vec!["absent".into()])
    );
}

#[test]
fn predicates_have_a_base() {
    assert_eq!(declaration_predicate_base("Demo.t").as_deref(), None);
    assert!(
        structural_result_type_score("_ = _", "(n : Nat) : n = n")
            >= structural_result_type_score("_ = _", "(n : Nat) : n < n")
    );
}

#[test]
fn goals_start_at_their_line() {
    let source = "theorem t : True := by\n  sorry\n";
    let at = |line: Option<u64>, more: bool, probe: bool| GoalLocation {
        path: "/w/Demo.lean".into(),
        display_path: None,
        line,
        more,
        probe,
    };
    match start_goal_search(&at(Some(2), false, true), source, "/w") {
        GoalStep::Try(goal) => {
            assert_eq!(&source[goal.start..goal.end], "sorry");
            assert!(goal.in_tactic);
            let tried = probe_with(source, &goal, "trivial");
            assert!(tried.contains("trivial"), "{tried}");
            assert!(!tried.contains("sorry"), "{tried}");
        }
        GoalStep::Done(_) => panic!("a goal is open"),
    }
    match start_goal_search(&at(Some(2), false, false), source, "/w") {
        GoalStep::Done(result) => assert!(result.ok),
        GoalStep::Try(_) => panic!("nothing is to be tried"),
    }
    match start_goal_search(&at(Some(1), false, true), "theorem t : True := trivial\n", "/w") {
        GoalStep::Done(result) => assert!(!result.ok),
        GoalStep::Try(_) => panic!("no goal is open"),
    }
    let closed = goal_search(
        &at(Some(2), false, true),
        source,
        "/w",
        "MATHMUX_GOAL_BEGIN\n⊢ True\nMATHMUX_GOAL_END\n",
        Some("exact trivial"),
    );
    assert!(closed.ok);
    assert!(closed.hits.iter().any(|hit| {
        hit.applicable && hit.source.as_deref().is_some_and(|s| s.contains("exact trivial"))
    }), "{:?}", closed.hits);
}

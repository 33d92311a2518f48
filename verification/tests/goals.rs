//! Goals, diagnostics and places in files.
use mathmux::search::diagnostics::{
    diagnostic_context, diagnostic_position, diagnostic_type_detail, edit_distance,
};
use mathmux::search::display::render_summary;
use mathmux::search::goal::{
    append_goal_tactic, goal_probe, goal_probe_replacement, local_method_candidates,
    parse_goal_location, probe_with, traced_goal_state, try_this_suggestions,
};
use mathmux::search::limits::{
    LOCATION_PREVIEW_LINES, SOURCE_OCCURRENCE_ALL_LIMIT, SOURCE_PREVIEW_LINES,
};
use mathmux::search::lines::source_occurrence_result;
use mathmux::search::locations::location_source_excerpt;
use mathmux::search::names::field_inventory_query;
use mathmux::search::occurrences::parse_source_occurrence_query;
use mathmux::search::records::SearchRun;
use mathmux::search::request::parse_source_line_range;
use mathmux::search::tree::{resolve_goal_path, SourceTree};

fn tree(root: &str, files: &[&str], packages: &[&str]) -> SourceTree {
    let place = |path: &str| (path.to_owned(), path.to_owned());
    let mut known = Vec::new();
    for file in files {
        known.push(place(&format!("{root}/{file}")));
    }
    for file in packages {
        known.push(place(&format!("{root}/.lake/packages/{file}")));
    }
    SourceTree {
        root: root.into(),
        real_root: root.into(),
        cwd: root.into(),
        packages: if packages.is_empty() { None } else { Some(format!("{root}/.lake/packages")) },
        package_roots: if packages.is_empty() {
            Vec::new()
        } else {
            vec![format!("{root}/.lake/packages/mathlib")]
        },
        project_files: files.iter().map(|f| (*f).to_owned()).collect(),
        package_files: packages.iter().map(|f| format!("{root}/.lake/packages/{f}")).collect(),
        files: known,
        directories: Vec::new(),
    }
}

#[test]
fn goal_suggestions_accept_leans_multiline_output() {
    assert_eq!(
        try_this_suggestions("Try this:\n  [apply] exact useful h\n"),
        vec!["exact useful h"]
    );
    assert_eq!(
        try_this_suggestions(
            "Try this:\n  [apply] obtain ⟨value, property⟩ := b\n  simp_all only [Prod.mk.injEq,\n    true_and]\n\nwarning: later\n"
        ),
        vec!["obtain ⟨value, property⟩ := b\nsimp_all only [Prod.mk.injEq,\n  true_and]"]
    );
    assert_eq!(
        try_this_suggestions(
            "Try this:\n  [apply] refine useful ?_\n  -- Remaining subgoals:\n  -- ⊢ True\n"
        ),
        vec!["refine useful ?_"]
    );
    assert!(try_this_suggestions("Try this: simp_all; sorry\n").is_empty());
    assert!(try_this_suggestions("Try this:\n  exact h\n  admit\n").is_empty());
    assert_eq!(
        traced_goal_state(
            "MATHMUX_GOAL_BEGIN\nX : Type\nh : True\n⊢ True\nMATHMUX_GOAL_END\nTry this: exact h"
        )
        .as_deref(),
        Some("X : Type\nh : True\n⊢ True")
    );
    assert_eq!(
        local_method_candidates(
            "f g : X → X\nhf : Continuous f\nhg : Continuous g\n⊢ Continuous (f ∘ g)"
        )
        .first()
        .map(String::as_str),
        Some("exact hf.comp hg")
    );
    assert_eq!(edit_distance("compp", "comp"), 1);
    assert_eq!(field_inventory_query("Homeomorph fields"), Some("Homeomorph"));
    assert_eq!(field_inventory_query("structure Homeomorph projections"), Some("Homeomorph"));
    assert_eq!(field_inventory_query("Homeomorph constructors"), None);
    assert_eq!(
        diagnostic_position("Demo/Proof.lean:42:7: error: unsolved goals", Some("Fallback.lean")),
        (Some("Demo/Proof.lean".into()), 42)
    );
    assert_eq!(
        diagnostic_position("Demo.Proof:43:8: error: unsolved goals", Some("Demo/Proof.lean")),
        (Some("Demo/Proof.lean".into()), 43)
    );
    assert!(diagnostic_context("error: mismatch", Some(">   42 | bad")).contains("42 | bad"));
    let mismatch = diagnostic_type_detail(
        "Demo:1:1: error: Type mismatch\nterm\nhas type\n  @Map A oldTopology oldInstance\nbut is expected to have type\n  @Map A newTopology oldInstance\nin the application\n  use term",
    )
    .unwrap();
    assert!(mismatch.contains("actual: oldTopology"));
    assert!(mismatch.contains("expected: newTopology"));
    assert!(!mismatch.contains("oldInstance"));
    assert_eq!(
        diagnostic_type_detail(
            "Demo:1:1: error(lean.synthInstanceFailed): failed to synthesize instance of type class\n  TopologicalSpace (Fiber x)\n\nHint: inspect it"
        )
        .as_deref(),
        Some("instance goal\nTopologicalSpace (Fiber x)")
    );
    assert_eq!(
        append_goal_tactic(
            "example (h : True) : True := by\n  skip\n\nexample : True := by\n  trivial\n",
            1,
            "exact h"
        )
        .unwrap(),
        "example (h : True) : True := by\n  skip\n\n  exact h\nexample : True := by\n  trivial\n"
    );
    let source = (1..=30).map(|line| format!("line {line}")).collect::<Vec<_>>().join("\n");
    let excerpt = location_source_excerpt(&source, 15, LOCATION_PREVIEW_LINES);
    assert!(excerpt.contains("   15  line 15"));
    assert_eq!(excerpt.lines().count(), 30);

    let files = tree("/w", &["Demo.lean"], &[]);
    let duplicated_root = resolve_goal_path(&files, "Demo/Demo.lean").unwrap();
    assert_eq!(duplicated_root.path, "/w/Demo.lean");
    let files = tree("/w", &["Demo.lean", "Actual/Topology/Unique.lean"], &[]);
    let recovered_suffix = resolve_goal_path(&files, "Wrong/Topology/Unique.lean").unwrap();
    assert_eq!(recovered_suffix.path, "/w/Actual/Topology/Unique.lean");
    let files = tree(
        "/w",
        &["Demo.lean", "Actual/Topology/Unique.lean", "Other/Topology/Unique.lean"],
        &[],
    );
    assert!(resolve_goal_path(&files, "Wrong/Topology/Unique.lean").is_none());

    let files = tree("/w", &["Demo.lean"], &["mathlib/Mathlib/Topology/Basic.lean"]);
    let location = parse_goal_location(&files, None, "Demo.lean:tail").unwrap().unwrap();
    assert!(location.line.is_none());
    assert!(!location.more);
    assert!(location.probe);
    assert!(location.display_path.is_none());
    let tail = location_source_excerpt(&source, 30, SOURCE_PREVIEW_LINES);
    assert_eq!(tail.lines().count(), 16);
    assert!(tail.contains("   30  line 30"));
    let more = parse_goal_location(&files, None, "Demo.lean:15 MORE").unwrap().unwrap();
    assert_eq!(more.line, Some(15));
    assert!(more.more);
    let dependency =
        parse_goal_location(&files, None, "Mathlib/Topology/Basic.lean:15 MORE").unwrap().unwrap();
    assert_eq!(dependency.line, Some(15));
    assert!(dependency.more);
    assert!(!dependency.probe);
    assert_eq!(dependency.display_path.as_deref(), Some("Mathlib/Topology/Basic.lean"));

    let files = tree("/w", &["Markers.lean", "Project/Nested.lean"], &[]);
    let occurrences =
        parse_source_occurrence_query(&files, None, "Markers.lean:2-4 /- | -/ | /-!")
            .unwrap()
            .unwrap();
    assert_eq!((occurrences.first_line, occurrences.last_line), (2, 4));
    assert_eq!(occurrences.terms, ["/-", "-/", "/-!"]);
    let markers = "plain\n/- open\ninside /-! doc\n-/ close\nplain\n";
    let result = source_occurrence_result(&occurrences, markers, "/w", None, false);
    assert_eq!(result.hits.len(), 1);
    let matches = result.hits[0].source.as_deref().unwrap();
    assert!(matches.contains("    2  /- open"));
    assert!(matches.contains("    3  inside /-! doc"));
    assert!(matches.contains("    4  -/ close"));
    let range =
        parse_source_occurrence_query(&files, None, "Markers.lean:2-4").unwrap().unwrap();
    assert!(range.terms.is_empty());
    let range = source_occurrence_result(&range, markers, "/w", None, false);
    assert_eq!(range.hits[0].signature.as_deref(), Some("3 source lines"));
    assert_eq!(range.hits[0].kind, "source-range");
    assert_eq!(range.hits[0].source.as_deref(), Some("/- open\ninside /-! doc\n-/ close"));

    let long_source = (1..=250).map(|line| format!("line {line}")).collect::<Vec<_>>().join("\n");
    let files = tree("/w", &["Long.lean", "Project/Nested.lean"], &[]);
    let long_range =
        parse_source_occurrence_query(&files, None, "Long.lean:1-250").unwrap().unwrap();
    let long_range = source_occurrence_result(&long_range, &long_source, "/w", None, false);
    assert_eq!(
        long_range.hits[0].source.as_deref().unwrap().lines().count(),
        SOURCE_OCCURRENCE_ALL_LIMIT
    );
    assert_eq!(long_range.note.as_deref(), Some("+50 lines omitted; narrow the range"));
    let long_summary = render_summary(&SearchRun {
        reference: "q-range".into(),
        workspace_ref: "w1".into(),
        query: "Long.lean:1-250".into(),
        inference: long_range.inference,
        hits: long_range.hits,
        note: long_range.note,
        duration_ms: 1,
        created_at: 0,
    });
    assert!(long_summary.contains("\nline 200\n"));
    assert!(!long_summary.contains("\nline 201\n"));
    assert!(long_summary.ends_with("+50 lines omitted; narrow the range"));
    assert_eq!(parse_source_line_range("3-3"), Some((3, 3)));
    assert_eq!(parse_source_line_range("4-3"), None);
    assert_eq!(parse_source_line_range("0-3"), None);
    let recovered =
        parse_source_occurrence_query(&files, None, "Mathlib/Project/Nested.lean:4-6")
            .unwrap()
            .unwrap();
    assert_eq!(recovered.path, "/w/Project/Nested.lean");
    assert!(recovered.display_path.is_none());
    let recovered =
        parse_source_occurrence_query(&files, None, "Nested.lean:4-6").unwrap().unwrap();
    assert_eq!(recovered.path, "/w/Project/Nested.lean");
    assert!(parse_source_occurrence_query(&files, None, "Missing.lean:4-6")
        .unwrap_err()
        .to_text()
        .contains("source file not found or ambiguous"));
}

#[test]
fn stale_workspace_source_queries_recommend_sync() {
    let main = tree("/main", &["Demo/Topology/Recent.lean", "Demo/Topology/Shared.lean"], &[]);
    let workspace = tree("/w", &["Demo/Topology/Shared.lean"], &[]);
    let error = parse_source_occurrence_query(
        &workspace,
        Some(&main),
        "Demo/Topology/Recent.lean:1-2 recent",
    )
    .unwrap_err();
    assert_eq!(error.to_text(), "source file is on managed main; run mathmux sync");
    let stale = parse_source_occurrence_query(
        &workspace,
        Some(&main),
        "Demo/Topology/Shared.lean:3-4",
    )
    .unwrap()
    .unwrap();
    let stale = source_occurrence_result(&stale, "line 1\nline 2\n", "/w", Some(4), false);
    assert_eq!(stale.note.as_deref(), Some("workspace source is stale; run mathmux sync"));
    let error = parse_goal_location(&workspace, Some(&main), "Demo/Topology/Missing.lean:1")
        .unwrap_err();
    assert_eq!(
        error.to_text(),
        "source file not found or ambiguous: Demo/Topology/Missing.lean"
    );
}

#[test]
fn goals_are_probed_in_place() {
    let source = "theorem a : True := by\n  sorry\n";
    let goal = goal_probe(source, 2).unwrap();
    let text = goal_probe_replacement(goal.in_tactic, "  ", "trivial");
    assert!(text.contains("MATHMUX_GOAL_BEGIN"));
    assert!(text.ends_with("trivial"));
    assert!(goal_probe("def a := 1\n", 1).is_none());
    let wide = "-- α → β\ntheorem a : p := by\n  sorry\n";
    let goal = goal_probe(wide, 3).unwrap();
    assert_eq!(&wide[goal.start..goal.end], "sorry");
    assert!(probe_with(wide, &goal, "trivial").starts_with("-- α → β\ntheorem a : p := by\n  "));
}

#[test]
fn ranges_and_matches_are_told_apart() {
    let files = tree("/w", &["Demo.lean"], &[]);
    let ask = |query: &str| parse_source_occurrence_query(&files, None, query).unwrap().unwrap();
    let source = "theorem a : True := by\n  trivial\n\ntheorem b : True := trivial\n";
    let found = source_occurrence_result(&ask("Demo.lean:1-4 trivial"), source, "/w", None, false);
    assert_eq!(found.hits.len(), 2);
    assert_eq!(found.hits[0].kind, "source-group");
    let range = source_occurrence_result(&ask("Demo.lean:2-2"), source, "/w", None, false);
    assert_eq!(range.hits[0].source.as_deref(), Some("  trivial"));
    assert!(range.hits[0].signature.as_deref().unwrap().starts_with("1 lines; inside "));
    assert_eq!(range.note, None);
    let plain = source_occurrence_result(&ask("Demo.lean:1-2 two"), "one\ntwo\n", "/w", None, false);
    assert_eq!(plain.hits[0].kind, "source-occurrences");
    assert_eq!(plain.hits[0].name, "matches");
    assert_eq!(plain.hits[0].signature.as_deref(), Some("1 for two"));
}

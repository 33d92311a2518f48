//! Probes: their grammar, what they show, and where they look.
use mathmux::failure::DiscoveryFailure;
use mathmux::search::constructors::inductive_constructors;
use mathmux::search::declarations::parse_source;
use mathmux::search::focus::{
    abbreviation_target, decisive_directive_result, declaration_find_from_hit,
    declaration_outline_from_hit, indexed_check_hit, indexed_check_hit_from_result,
    indexes_warming, invalid_declaration_focus_message, is_declaration_header,
    render_static_probe_summary, rendered_search_reference, running_check_probe_hint,
    static_probe_query, stored_goal_detail, usage_path_matches_scope,
};
use mathmux::search::probe::{
    ensure_lean_project_context, lean_answer, lean_operation, probe_check_reference, run_lean_probe,
    store_probe_result, ProbeStep, Searcher,
};
use mathmux::search::records::{
    Diagnostic, SearchHit, SearchResult, SearchRun, SearchUsage,
};
use mathmux::search::refine::{
    enrich_usage_dossier, explicit_generator_source_entry, first_law, probe_query_reference,
    probe_scoped_usages, refresh_probe_source, run_constructors_probe, run_static_probe_query,
    store_query_hit_refinement, usage_law_query, ConstructorStep, QueryStep, StaticStep,
};
use mathmux::search::request::{LeanDirective, ProbeContext, ProbeRequest};
use mathmux::search::source::declaration_header_end;
use mathmux::search::tree::SourceTree;
use mathmux::search::triage::{
    probe_file_warnings, probe_warning_reference, require_current_check, workspace_target,
    WarnedFile,
};
use mathmux::search::warning::{
    classify_warning, diagnostic_path_matches, enclosing_declaration, warning_dossier,
    warning_location,
};
use mathmux::state::profile::CheckRun;
use mathmux::state::store::State;

fn hit(name: &str, kind: &str) -> SearchHit {
    SearchHit {
        name: name.into(),
        kind: kind.into(),
        signature: None,
        module: "Demo".into(),
        path: "Demo.lean".into(),
        line: 1,
        doc: None,
        source: None,
        usages: vec![],
        applicable: false,
        required_import: None,
    }
}

fn run(query: &str, inference: &str, hits: Vec<SearchHit>) -> SearchRun {
    SearchRun {
        reference: "q1".into(),
        workspace_ref: "w1".into(),
        query: query.into(),
        inference: inference.into(),
        hits,
        note: None,
        duration_ms: 0,
        created_at: 0,
    }
}

#[test]
fn bodyless_multiline_headers_keep_parameters_and_parents() {
    let source = "class Parent (n : Nat) : Prop where\n  good : n = n\nclass Child\n  (n : Nat) : Prop\n  extends Parent n\nstructure Empty\n  (n : Nat)\n  deriving Inhabited\naxiom value\n  (n : Nat) :\n  n = n\ninductive Choice\n  (n : Nat)\n  | mk : Choice n\n";
    let entries = parse_source(source, "Fixture");
    let child = entries.iter().find(|e| e.name == "Child").unwrap();
    assert!(child.signature.contains("(n : Nat) : Prop"), "{}", child.signature);
    assert!(child.signature.contains("extends Parent n"), "{}", child.signature);
    let value = entries.iter().find(|e| e.name == "value").unwrap();
    assert!(value.signature.contains("n = n"), "{}", value.signature);
    for name in ["Empty", "Choice"] {
        let entry = entries.iter().find(|e| e.name == name).unwrap();
        assert!(entry.signature.contains("(n : Nat)"), "{}", entry.signature);
        assert!(
            !entry.signature.contains("deriving") && !entry.signature.contains("| mk"),
            "{}",
            entry.signature
        );
    }
    let commented = "theorem target /- where is not syntax here -/ (n : Nat) : n = n := rfl";
    assert_eq!(&commented[declaration_header_end(commented)..], ":= rfl");
}

#[test]
fn signature_name_position_ignores_matching_attribute_text() {
    for declaration in [
        "@[trans]\nprotected def trans : Nat := 0",
        "  @[simp]\n  theorem simp (n : Nat) : n = n := rfl",
        "@[attr αβ]\ndef αβ : Nat := 0",
    ] {
        let entry = parse_source(declaration, "Fixture")
            .into_iter()
            .find(|e| matches!(e.kind.as_str(), "def" | "theorem"))
            .unwrap();
        assert!(!entry.signature.contains(']'), "{}", entry.signature);
        assert!(
            entry.signature == "Nat" || entry.signature == "(n : Nat) : n = n",
            "{}",
            entry.signature
        );
    }
}

#[test]
fn declaration_probe_rejects_escaped_names_without_rewriting_them() {
    let error = ProbeRequest::parse(r"Demo.mono\u0027 source").unwrap_err();
    assert!(error.to_text().contains("literal characters"));
    assert!(ProbeRequest::parse("Demo.mono' source").is_ok());
    assert!(ProbeRequest::parse(r"Demo.lean:3 #check s \ t").is_ok());
}

#[test]
fn explicit_generated_source_retains_origin_without_fabricating_signature() {
    let source = "namespace Demo\n@[simp]\n@[to_additive additive]\ntheorem multiplicative (n : Nat) : n = n := rfl\nend Demo\n";
    let hit = explicit_generator_source_entry(source, "Fixture", "Demo.additive").unwrap();
    assert_eq!(hit.kind, "generator");
    assert!(hit.signature.is_empty());
    assert!(hit.docs.contains("not its generated proof"));
    assert!(hit.body.contains("theorem multiplicative"));
    assert!(explicit_generator_source_entry(source, "Fixture", "Other.additive").is_none());
    assert!(explicit_generator_source_entry(
        "-- @[to_additive additive]\ntheorem multiplicative : True := trivial",
        "Fixture",
        "additive"
    )
    .is_none());
    assert!(explicit_generator_source_entry(
        "@[to_additive]\ntheorem multiplicative : True := trivial",
        "Fixture",
        "additive"
    )
    .is_none());
}

#[test]
fn unsigned_constructor_result_gives_obligation_followup() {
    let run = run("Demo.Data.mk", "exact", vec![hit("Demo.Data.mk", "declaration")]);
    let detail = render_static_probe_summary(&run, "constructors");
    assert!(detail.contains("probe Demo.Data fields"), "{detail}");
    assert!(detail.contains("#inspect Demo.Data.mk"), "{detail}");
}

#[test]
fn missing_signature_routes_to_source_without_implying_a_type() {
    let mut run = run("Demo.target", "exact", vec![hit("_root_.Demo.target", "declaration")]);
    run.note = Some("source index warming".into());
    let output = render_static_probe_summary(&run, "signature");
    assert!(output.contains("Signature is not indexed"), "{output}");
    assert!(output.contains("mathmux probe Demo.target source"), "{output}");
    let mut file = run.copy();
    file.hits[0].kind = "file".into();
    file.hits[0].path = "Demo Facts.lean".into();
    let output = render_static_probe_summary(&file, "signature");
    assert!(output.contains("File result has no declaration signature"), "{output}");
    assert!(output.contains("mathmux search \"Demo Facts.lean\" outline"), "{output}");
    assert!(!output.contains("not indexed"), "{output}");
    assert!(!output.contains("mathmux probe"), "{output}");
    let mut signed = run;
    signed.hits[0].signature = Some("Nat".into());
    let output = render_static_probe_summary(&signed, "signature");
    assert!(!output.contains("not indexed"), "{output}");
    assert!(!output.contains("warming"), "{output}");
    assert!(!output.contains("Full signature/context"), "{output}");
    signed.hits[0].signature = Some(
        "{X : Type} [TopologicalSpace X] (f : X → X) (hf : Continuous f) : Continuous f".into(),
    );
    let output = render_static_probe_summary(&signed, "signature");
    assert!(output.contains("(hf : Continuous f) : Continuous f"), "{output}");
    assert!(output.contains("[TopologicalSpace X]"), "{output}");
    assert!(!output.contains("Full signature/context"), "{output}");
    signed.hits[0].signature = Some(format!(
        "{}(f : X → X) (hf : Continuous f) : Continuous f",
        "[TopologicalSpace X] ".repeat(20),
    ));
    let output = render_static_probe_summary(&signed, "signature");
    assert!(output.contains("(hf : Continuous f) : Continuous f"), "{output}");
    assert!(output.contains("[context: 20 implicit/typeclass]"), "{output}");
    assert!(output.contains("Full signature/context: mathmux show q1 --all"), "{output}");
    signed.hits[0].signature = Some(format!("(hyp : {}) : True", "Nat → ".repeat(60)));
    let output = render_static_probe_summary(&signed, "signature");
    assert!(output.contains("Full signature/context: mathmux show q1 --all"), "{output}");
}

#[test]
fn dependency_probe_context_explains_project_import_requirement() {
    let error = ensure_lean_project_context("/work/root", "/work/Dependency.lean").unwrap_err();
    assert!(error.to_text().contains("project FILE:LINE"));
    assert!(error.class.is_some());
    assert_eq!(error.class, Some(DiscoveryFailure::UnavailableContext));
    assert!(ensure_lean_project_context("/work/root", "/work/root/Own.lean").is_ok());
}

#[test]
fn attributed_source_navigation_uses_attribute_start_line() {
    let source = "-- ambient context\nvariable (n : Nat)\n\n@[simp]\ntheorem target : True := by\n  trivial";
    assert_eq!(
        declaration_find_from_hit(source, 10, "trivial", "q1"),
        "   12    trivial"
    );
    let outline = declaration_outline_from_hit(source, 10, "theorem");
    assert!(outline.contains("   10  @[simp]"));
    assert!(outline.contains("   11  theorem target"));
}

#[test]
fn declaration_find_uses_file_coordinates_and_labels_ambient_matches() {
    let source = "-- ambient context\nvariable {α : Type}\n\n@[simp] public theorem target : True := by\n  have h : True := by trivial\n  exact h";
    assert_eq!(declaration_find_from_hit(source, 20, "exact", "q1"), "   22    exact h");
    assert!(declaration_find_from_hit(source, 20, "Type", "q1").starts_with("ambient:"));
    assert!(declaration_find_from_hit(source, 20, "missing", "q1").contains("No literal matches"));
    let many = format!("theorem target : True := by\n{}", "  -- match\n".repeat(15));
    let found = declaration_find_from_hit(&many, 20, "match", "q1");
    assert!(found.contains("3 matching lines not shown"));
    assert!(found.contains("show q1 --all"));
}

#[test]
fn file_directives_prefer_the_requested_result_over_prior_diagnostics() {
    let detail = "unsolved goals\nDemo.target : Nat\nwarning: prior warning".to_owned();
    let (ok, detail) = decisive_directive_result("term", "Demo.target", false, detail);
    assert!(ok);
    assert_eq!(detail, "Demo.target : Nat");

    let (ok, _) = decisive_directive_result(
        "synth",
        "MissingClass Nat",
        false,
        "failed to synthesize instance of type class\n  MissingClass Nat".into(),
    );
    assert!(!ok);
}

#[test]
fn contract_probes_require_explicit_lean_context() {
    assert!(ProbeRequest::parse("#inspect Nat").is_err());
    assert!(ProbeRequest::parse("#apply Nat.add_zero").is_err());
    assert_eq!(
        ProbeRequest::parse("Demo.lean:8 #apply h").unwrap().directive,
        Some(LeanDirective::Apply("h".into()))
    );
    assert_eq!(
        ProbeRequest::parse("Demo.lean:8 #inspect Nat").unwrap().directive,
        Some(LeanDirective::Inspect("Nat".into()))
    );
    assert_eq!(
        ProbeRequest::parse("Demo.Data assumptions").unwrap().focus.as_deref(),
        Some("assumptions")
    );
    assert_eq!(
        ProbeRequest::parse("Demo.lean:8 Demo.Data evidence").unwrap().focus.as_deref(),
        Some("evidence")
    );
    assert_eq!(ProbeRequest::parse("c1 context").unwrap().focus.as_deref(), Some("context"));
}

#[test]
fn probe_grammar_keeps_context_explicit() {
    assert_eq!(
        ProbeRequest::parse("Demo.lean:42 by simp").unwrap(),
        ProbeRequest {
            context: Some(ProbeContext::Position("Demo.lean:42".into())),
            subject: None,
            focus: None,
            directive: Some(LeanDirective::Tactic("simp".into())),
        }
    );
    assert_eq!(
        ProbeRequest::parse("Demo.lean \"#check Nat\"").unwrap(),
        ProbeRequest {
            context: Some(ProbeContext::File("Demo.lean".into())),
            subject: None,
            focus: None,
            directive: Some(LeanDirective::Check("Nat".into())),
        }
    );
    assert_eq!(
        ProbeRequest::parse("Mathlib/ Demo.foo usages").unwrap().context,
        Some(ProbeContext::Scope("Mathlib/".into()))
    );
    assert_eq!(
        ProbeRequest::parse("Mathlib/Data/List.lean Demo.foo usages").unwrap(),
        ProbeRequest {
            context: Some(ProbeContext::File("Mathlib/Data/List.lean".into())),
            subject: Some("Demo.foo".into()),
            focus: Some("usages".into()),
            directive: None,
        }
    );
    assert_eq!(
        ProbeRequest::parse("Mathlib/Data/List.lean warnings").unwrap(),
        ProbeRequest {
            context: Some(ProbeContext::File("Mathlib/Data/List.lean".into())),
            subject: None,
            focus: Some("warnings".into()),
            directive: None,
        }
    );
    for facet in ["outline", "declarations", "imports", "dependents"] {
        assert_eq!(
            ProbeRequest::parse(&format!("Demo.lean {facet}")).unwrap_err().to_text(),
            format!(
                "`{facet}` is a source-search facet, not a probe subject; use `mathmux search Demo.lean {facet}`"
            )
        );
        assert_eq!(
            ProbeRequest::parse(&format!("Demo.lean:{facet}")).unwrap_err().to_text(),
            format!(
                "`{facet}` is a source-search facet, not a probe subject; use `mathmux search Demo.lean {facet}`"
            )
        );
    }
    assert_eq!(
        ProbeRequest::parse("Demo/ outline").unwrap_err().to_text(),
        "`outline` is a source-search facet, not a probe subject; use `mathmux search Demo/ outline`"
    );
    assert_eq!(
        ProbeRequest::parse("Demo.lean:42-48 source").unwrap_err().to_text(),
        "source ranges are a search form, not a probe context; use `mathmux search Demo.lean:42-48` for source or `mathmux probe Demo.lean:42 goal` for Lean context"
    );
    assert_eq!(
        ProbeRequest::parse("Demo.lean:42 source").unwrap_err().to_text(),
        "source is a search form at FILE:LINE; use `mathmux search Demo.lean:42` for source or `mathmux probe Demo.lean:42 goal` for Lean context"
    );
    assert_eq!(
        ProbeRequest::parse("c42 --wait").unwrap_err().to_text(),
        "--wait belongs to show; use `mathmux show c42 --wait`"
    );
    assert!(usage_path_matches_scope("Mathlib/Data/List/Basic.lean", "Mathlib/Data/List"));
    assert!(!usage_path_matches_scope("Mathlib/Data/ListExtra.lean", "Mathlib/Data/List"));
    assert_eq!(static_probe_query(None, "type:_ → _", None).unwrap(), "type:_ → _");
    assert_eq!(
        static_probe_query(None, "ContinuousMap", Some("ext")).unwrap(),
        "declaration ContinuousMap.ext*|ContinuousMap_ext*"
    );
    assert_eq!(
        static_probe_query(None, "ContinuousMap", Some("constructors")).unwrap(),
        "ContinuousMap.mk"
    );
    assert_eq!(
        inductive_constructors(
            "Option",
            "inductive Option (α : Type) where\n  | none : Option α\n  | some (value : α) : Option α"
        )
        .into_iter()
        .map(|constructor| (constructor.name, constructor.signature, constructor.line_offset))
        .collect::<Vec<_>>(),
        [
            ("Option.none".into(), "Option α".into(), 1),
            ("Option.some".into(), "(value : α) : Option α".into(), 2),
        ]
    );
    assert_eq!(
        inductive_constructors(
            "IntInterval",
            "inductive IntInterval : Type where\n  | /-- A finite interval. -/\n    co (lo hi : Int)\n  |\n    /-- An infinite interval. -/\n    infinite\n  deriving Inhabited\n\nnamespace IntInterval"
        )
        .into_iter()
        .map(|constructor| (constructor.name, constructor.signature, constructor.line_offset))
        .collect::<Vec<_>>(),
        [
            ("IntInterval.co".into(), "(lo hi : Int)".into(), 2),
            ("IntInterval.infinite".into(), "".into(), 5),
        ]
    );
    assert_eq!(
        static_probe_query(None, "_root_.ContinuousMap", Some("source")).unwrap(),
        "ContinuousMap source"
    );
    assert_eq!(
        static_probe_query(None, "ContinuousMap", Some("outline")).unwrap(),
        "ContinuousMap source"
    );
    for removed in ["neighborhood", "dependencies", "instances", "coercions"] {
        assert!(ProbeRequest::parse(&format!("ContinuousMap {removed}"))
            .unwrap_err()
            .to_text()
            .contains("was removed"));
    }
    assert_eq!(
        static_probe_query(None, "Demo.apply", Some("simp")).unwrap(),
        "declaration Demo.apply*"
    );
    assert!(static_probe_query(
        Some(&ProbeContext::File("Demo.lean".into())),
        "Demo.foo",
        Some("fields")
    )
    .is_err());
    assert!(ProbeRequest::parse("#check Nat").is_err());
    assert_eq!(
        ProbeRequest::parse("mathmux probe Demo.foo source").unwrap_err().to_text(),
        "probe receives QUERY only; omit the leading `mathmux probe`"
    );
    assert_eq!(
        ProbeRequest::parse("q123 show --all").unwrap_err().to_text(),
        "probe --all is not valid here; use `mathmux show q123 --all` for stored detail"
    );
    assert_eq!(
        ProbeRequest::parse("Demo.foo \"#check Demo.foo\"").unwrap_err().to_text(),
        "#check requires FILE, FILE:LINE, cREF, or qREF context; use NAME signature for a declaration"
    );
    assert_eq!(
        ProbeRequest::parse("Demo.foo by simp").unwrap_err().to_text(),
        "by requires FILE:LINE, cREF, or positioned qREF context"
    );
    assert_eq!(
        ProbeRequest::parse("Demo.foo type").unwrap_err().to_text(),
        "declaration types use `probe Demo.foo signature`"
    );
    assert_eq!(
        ProbeRequest::parse("Demo.foo Fiber").unwrap_err().to_text(),
        "unknown declaration focus `Fiber`; try `probe Demo.foo signature`, `probe Demo.foo source`, or `probe Demo.foo usages`"
    );
    let quoted_focus = ProbeRequest::parse("Demo.foo 'source'").unwrap();
    assert_eq!(quoted_focus.subject.as_deref(), Some("Demo.foo"));
    assert_eq!(quoted_focus.focus.as_deref(), Some("source"));
    assert_eq!(
        static_probe_query(None, "Demo.foo", Some("types")).unwrap_err().to_text(),
        "types requires type:LEAN_TYPE or a cREF with a type/instance failure; use NAME signature for a declaration type"
    );
    assert_eq!(
        ProbeRequest::parse("Demo.foo proof").unwrap_err().to_text(),
        "declaration proof uses `search 'Demo.foo proof'`"
    );
    assert_eq!(
        ProbeRequest::parse("Demo.foo context").unwrap_err().to_text(),
        "Lean context requires an exact position; use `probe FILE:LINE goal` or `probe FILE:LINE TERM`"
    );
    assert_eq!(
        invalid_declaration_focus_message(
            "Demo.value",
            "def",
            "a structure, class, or inductive declaration"
        ),
        "Demo.value is def, not a structure, class, or inductive declaration; valid focuses: signature, source, outline, usages, apply"
    );
    let explicit = ProbeRequest::parse("@Demo.foo outline").unwrap();
    assert_eq!(explicit.subject.as_deref(), Some("Demo.foo"));
    assert_eq!(explicit.focus.as_deref(), Some("outline"));
    assert!(ProbeRequest::parse("q123#2 dependencies")
        .unwrap_err()
        .to_text()
        .contains("was removed"));
    let local_find = ProbeRequest::parse("Demo.foo find simp only").unwrap();
    assert_eq!(local_find.subject.as_deref(), Some("Demo.foo"));
    assert_eq!(local_find.focus.as_deref(), Some("find:simp only"));
    let selected_find = ProbeRequest::parse("q123#2 find exact").unwrap();
    assert_eq!(selected_find.context, Some(ProbeContext::Query("q123".into(), 1)));
    assert_eq!(selected_find.focus.as_deref(), Some("find:exact"));
    let stored = stored_goal_detail(
        "Demo.lean:7:2: error: type mismatch\n  x\nhas type\n  Nat",
        Some(">    7 | exact x"),
    );
    assert!(stored.starts_with("primary diagnostic\n"));
    assert!(stored.contains(">    7 | exact x"));
    assert_eq!(ProbeRequest::parse("c123 goal").unwrap().focus.as_deref(), Some("goal"));
    assert_eq!(
        ProbeRequest::parse("q123 --all").unwrap_err().to_text(),
        "probe --all is not valid here; use `mathmux show q123 --all` for stored detail"
    );
    assert_eq!(
        ProbeRequest::parse("c123 --all").unwrap_err().to_text(),
        "probe --all is not valid here; use `mathmux probe c123 goal|types|defeq|rewrite|profile`"
    );
    assert_eq!(
        running_check_probe_hint("c123"),
        "check c123 is still running; use `mathmux show c123 --wait`, then retry `mathmux probe c123 goal|types|defeq|rewrite|profile`"
    );
    assert!(is_declaration_header("noncomputable def parameterizedBottThickClutchingCore"));
    assert!(is_declaration_header("private theorem hidden"));
    assert!(!is_declaration_header("  intro i"));
}

#[test]
fn indexed_file_check_accepts_an_exact_declaration_hit() {
    let mut target = hit("Demo.target", "theorem");
    target.signature = Some(": True".into());
    target.line = 7;
    let result = SearchResult {
        hits: vec![target],
        inference: "exact".into(),
        note: None,
        ok: true,
    };
    assert_eq!(
        indexed_check_hit_from_result(result, "Demo.target").map(|hit| hit.name),
        Some("Demo.target".into())
    );
}

fn check(status: &str) -> CheckRun {
    CheckRun {
        reference: "c123".into(),
        workspace_ref: "w1".into(),
        status: status.into(),
        duration_ms: 0,
        files: Vec::new(),
        failed: None,
        not_checked: Vec::new(),
        diagnostics: Vec::new(),
        warnings: Vec::new(),
        suggestions: Vec::new(),
        linters: Vec::new(),
        profile: None,
    }
}

#[test]
fn running_check_probe_redirects_to_bounded_wait() {
    let running = check("running");
    let error =
        probe_check_reference("c123", Some(&running), Some("goal"), "", "").unwrap_err().to_text();
    assert_eq!(error, running_check_probe_hint("c123"));
}

#[test]
fn stored_checks_tell_what_their_failure_holds() {
    let mut failed = check("failed");
    failed.diagnostics.push(Diagnostic {
        kind: "lean".into(),
        text: "Demo.lean:3:1: error: failed to synthesize instance of type class\n  Inhabited Foo\n".into(),
        context: Some(">    3 | exact default".into()),
    });
    let told = |focus: Option<&str>| {
        probe_check_reference("c123", Some(&failed), focus, "\nmore", "PROFILE")
    };
    assert!(told(Some("types")).unwrap().contains("Inhabited Foo"));
    assert!(told(Some("context")).unwrap().ends_with("\nmore"));
    assert!(told(None).unwrap().contains("3 | exact default"));
    assert_eq!(
        told(Some("rewrite")).unwrap_err().to_text(),
        "c123 has no rewrite failure"
    );
    assert_eq!(
        told(Some("defeq")).unwrap_err().to_text(),
        "c123 has no definitional-equality failure"
    );
    assert_eq!(told(Some("profile")).unwrap_err().to_text(), "c123 has no stored profile");
    assert_eq!(
        told(Some("fields")).unwrap_err().to_text(),
        "focus `fields` is not valid for a stored check; valid analyses: goal, types, defeq, rewrite, profile"
    );
    let passed = check("passed");
    assert_eq!(
        probe_check_reference("c123", Some(&passed), None, "", "").unwrap_err().to_text(),
        "c123 has no failure to probe"
    );
    assert_eq!(
        probe_check_reference("c9", None, None, "", "").unwrap_err().to_text(),
        "unknown check reference c9"
    );
}

#[test]
fn probe_focus_keeps_initial_dossiers_bounded() {
    let dossier = |name: &str, source: &str| SearchHit {
        name: name.into(),
        kind: "theorem".into(),
        signature: Some("(n : Nat) : n = n".into()),
        module: "Demo".into(),
        path: "Demo.lean".into(),
        line: 10,
        doc: None,
        source: Some(source.into()),
        usages: Vec::new(),
        applicable: false,
        required_import: None,
    };
    let run = SearchRun {
        reference: "q1".into(),
        workspace_ref: "w1".into(),
        query: "Demo.first".into(),
        inference: "exact".into(),
        hits: vec![
            dossier("Demo.first", "theorem first (n : Nat) : n = n := by\n  rfl"),
            dossier("Demo.second", "@[simp] theorem second (n : Nat) : n = n := by\n  rfl"),
        ],
        note: Some("search indexes warming".into()),
        duration_ms: 1,
        created_at: 0,
    };

    assert_eq!(
        indexed_check_hit(&run, "Demo.first").map(|hit| hit.name),
        Some("Demo.first".into())
    );
    assert!(indexed_check_hit(&run, "Demo.first 1").is_none());

    let signature = render_static_probe_summary(&run, "signature");
    assert!(signature.contains("Demo.first : (n : Nat) : n = n"));
    assert!(!signature.contains(":= by"));
    assert!(!signature.contains("warming"));

    let mut ext_run = run.copy();
    ext_run.note = None;
    ext_run.hits.clear();
    ext_run.hits.push(dossier(
        "Demo.ext",
        "@[ext] theorem ext (h : True) : True := by\n  trivial",
    ));
    let ext = render_static_probe_summary(&ext_run, "ext");
    assert!(ext.contains("Demo.ext"));
    assert!(!ext.contains(":= by"));

    ext_run.hits.pop();
    let no_ext = render_static_probe_summary(&ext_run, "ext");
    assert!(no_ext.contains("no indexed @[ext] declaration"));

    let source = render_static_probe_summary(&run, "source");
    assert!(source.contains("theorem first"));
    assert!(!source.contains("Demo.second"));

    let outline = render_static_probe_summary(&run, "outline");
    assert!(outline.contains("theorem first"));
    assert!(outline.contains("ref: q1"));

    assert_eq!(
        declaration_outline_from_hit(
            "structure Config where\n  value : Nat\n  label : String",
            20,
            "structure"
        ),
        "   20  structure Config where\n   21    value : Nat\n   22    label : String"
    );
    let simp = render_static_probe_summary(&run, "simp");
    assert!(simp.contains("Demo.second"));
    assert!(!simp.contains("Demo.first"));
    assert!(!simp.contains(":= by"));

    let apply = render_static_probe_summary(&run, "apply");
    assert!(apply.contains("Demo.first"));
    assert!(!apply.contains(":= by"));

    let usages = render_static_probe_summary(&run, "usages");
    assert!(usages.contains("Demo.first"));
    assert!(!usages.contains("theorem first"));
}

#[test]
fn warning_triage_separates_automation_from_judgment() {
    for warning in [
        "Demo.lean:1:1: warning: unused argument `h` in simp invocation",
        "Demo.lean:2:1: warning: unnecessary simpa",
        "Demo.lean:3:1: warning: use `have` instead of `haveI` when the goal is a proposition",
    ] {
        assert!(classify_warning(warning).mechanical, "{warning}");
    }
    let binder =
        classify_warning("Demo.lean:4:1: warning: automatically included section variable `G`");
    assert_eq!(binder.category, "implicit section variable");
    assert_eq!(binder.risk, "high");
    assert!(!binder.mechanical);
    assert_eq!(
        warning_location("Mathlib/Demo.lean:42:7: warning: unused variable"),
        (Some("Mathlib/Demo.lean".into()), 42, 7)
    );
    assert_eq!(
        warning_location("Mathlib.Demo:43:0: warning: unused variable"),
        (Some("Mathlib.Demo".into()), 43, 0)
    );
    assert!(diagnostic_path_matches("Mathlib.Demo", "Mathlib/Demo.lean"));
}

#[test]
fn warning_dossiers_capture_declaration_exposure_and_source() {
    let source = "namespace Demo\n\ntheorem publicResult (unused : Nat) : True := by\n  trivial\n";
    let declaration = enclosing_declaration(source, 3).unwrap();
    assert_eq!(declaration.name, "publicResult");
    assert!(declaration.public);
    let classification = classify_warning("Demo.lean:3:23: warning: unused variable `unused`");
    let dossier = warning_dossier(
        "c7",
        ("Demo.lean", 3, 23),
        &classification,
        &Diagnostic {
            kind: "linter.unusedVariables".into(),
            text: "Demo.lean:3:23: warning: unused variable `unused`\n\nNote: This linter can be disabled with `set_option linter.unusedVariables false`".into(),
            context: None,
        },
        Some(&declaration),
        source,
    );
    assert!(dossier.contains("risk: high"));
    assert!(dossier.contains("enclosing declaration (public)"));
    assert!(dossier.contains(">    3 | theorem publicResult"));
    assert!(!dossier.contains("This linter can be disabled"));
}

fn warning(text: &str) -> Diagnostic {
    Diagnostic { kind: "linter".into(), text: text.into(), context: None }
}

#[test]
fn file_warnings_are_listed_once_each_by_risk() {
    let mut state = State::new();
    assert_eq!(state.next_ref('q'), "q1");
    let mut run = check("passed");
    run.linters.push(warning("Demo.lean:3:23: warning: unused variable `unused`"));
    run.linters.push(warning("Demo.lean:1:1: warning: unnecessary simpa"));
    run.warnings.push(warning("Other.lean:1:1: warning: unused variable `x`"));
    let file = WarnedFile {
        workspace_ref: "w1",
        target: "Demo.lean",
        source: "namespace Demo\n\ntheorem publicResult (unused : Nat) : True := by\n  trivial\n",
        source_hash: "h1",
        now: 5,
    };
    let told = probe_file_warnings(&mut state, &run, &file, 9).unwrap();
    assert_eq!(told.runs.len(), 1);
    assert_eq!(told.records.len(), 1);
    assert_eq!(told.runs[0].reference, "q2");
    assert_eq!(told.runs[0].query, "c123 warning Demo.lean:3");
    assert_eq!(told.records[0].subject.as_deref(), Some("publicResult"));
    assert_eq!(told.records[0].risk, "high");
    assert_eq!(told.index.reference, "q3");
    assert_eq!(
        told.index.note.as_deref(),
        Some("1 residual warning(s) from c123; 1 mechanical warning(s) omitted for Lean automation; probe a listed qREF")
    );
    assert!(told.index.hits[0].name.starts_with("q2 [high] "));
    assert_eq!(state.last_number('q'), 3);
    assert_eq!(state.last_number('c'), 0);

    let mut used = hit("Demo.publicResult", "theorem");
    used.usages.push(SearchUsage {
        path: "Use.lean".into(),
        line: 4,
        context: Some("Demo.other".into()),
    });
    let hits = vec![used];
    let detail = probe_warning_reference(
        &told.records[0],
        "w1",
        "h1",
        Some(&told.runs[0]),
        &hits,
    )
    .unwrap();
    assert!(detail.contains("API/dependency evidence for publicResult:\n  Use.lean:4 in Demo.other"));
    assert!(detail.ends_with("then run `mathmux check Demo.lean`."));
    let stale =
        probe_warning_reference(&told.records[0], "w1", "h2", Some(&told.runs[0]), &hits);
    assert_eq!(
        stale.unwrap_err().to_text(),
        "q2 is stale because Demo.lean changed; run check, then `mathmux probe Demo.lean warnings` again"
    );
    let foreign =
        probe_warning_reference(&told.records[0], "w2", "h1", Some(&told.runs[0]), &hits);
    assert_eq!(
        foreign.unwrap_err().to_text(),
        "q2 belongs to w1; probe it from that workspace"
    );
    assert!(probe_warning_reference(&told.records[0], "w1", "h1", None, &hits).is_err());
    assert_eq!(
        require_current_check(false, None, "Demo.lean").unwrap_err().to_text(),
        "Demo.lean has no successful check; run `mathmux check Demo.lean` first"
    );
    assert!(require_current_check(false, Some(&"c1".into()), "Demo.lean")
        .unwrap_err()
        .to_text()
        .contains("c1 is stale"));
    assert!(require_current_check(true, None, "Demo.lean").is_ok());
    assert_eq!(workspace_target("/w/Demo/A.lean", "/w").unwrap(), "Demo/A.lean");
    assert!(workspace_target("/x/A.lean", "/w").is_err());
}

fn searcher() -> Searcher {
    let file = |path: &str| (path.to_owned(), path.to_owned());
    Searcher {
        workspace_ref: "w1".into(),
        tree: SourceTree {
            root: "/w".into(),
            real_root: "/w".into(),
            cwd: "/w".into(),
            packages: Some("/w/.lake/packages".into()),
            package_roots: vec!["/w/.lake/packages/mathlib".into()],
            project_files: vec!["Demo.lean".into()],
            package_files: vec!["/w/.lake/packages/mathlib/Mathlib/A.lean".into()],
            files: vec![file("/w/Demo.lean"), file("/w/.lake/packages/mathlib/Mathlib/A.lean")],
            directories: Vec::new(),
        },
        main: None,
    }
}

#[test]
fn probes_lead_to_one_step_each() {
    let s = searcher();
    assert_eq!(
        s.probe("Demo.lean:3 #check Nat").unwrap(),
        ProbeStep::Lean {
            context: ProbeContext::Position("Demo.lean:3".into()),
            directive: LeanDirective::Check("Nat".into()),
            indexed: true,
        }
    );
    assert_eq!(
        s.probe("c12 goal").unwrap(),
        ProbeStep::Check { reference: "c12".into(), focus: Some("goal".into()) }
    );
    assert_eq!(
        s.probe("Demo.lean:3 goal").unwrap(),
        ProbeStep::Position { location: "Demo.lean:3".into(), subject: None }
    );
    assert_eq!(
        s.probe("Demo.lean warnings").unwrap(),
        ProbeStep::FileWarnings { file: "Demo.lean".into() }
    );
    assert_eq!(
        s.probe("Mathlib/ Demo.foo usages").unwrap(),
        ProbeStep::ScopedUsages { scope: "Mathlib/".into(), subject: "Demo.foo".into() }
    );
    assert_eq!(
        s.probe("Demo.foo examples").unwrap(),
        ProbeStep::Examples { subject: "Demo.foo".into(), location: None }
    );
    assert_eq!(
        s.probe("Demo.foo assumptions").unwrap(),
        ProbeStep::Contract { subject: "Demo.foo".into(), focus: "assumptions".into() }
    );
    assert_eq!(
        s.probe("Demo.lean:3 Demo.foo evidence").unwrap(),
        ProbeStep::Evidence { subject: "Demo.foo".into(), location: "Demo.lean:3".into() }
    );
    assert_eq!(
        s.probe("Demo.foo constructors").unwrap(),
        ProbeStep::Constructors { subject: "Demo.foo".into() }
    );
    assert_eq!(
        s.probe("Demo.foo").unwrap(),
        ProbeStep::Static { query: "Demo.foo".into(), focus: "signature".into() }
    );
    assert_eq!(
        s.probe("q5#2 source").unwrap(),
        ProbeStep::Query {
            reference: "q5".into(),
            hit: 1,
            subject: None,
            focus: Some("source".into()),
        }
    );
    assert_eq!(
        s.probe("Demo.lean goal").unwrap_err().to_text(),
        "goal requires an exact FILE:LINE context, not Demo.lean"
    );
    assert_eq!(
        s.probe("Demo.lean:3 Demo.foo usages").unwrap_err().to_text(),
        "focus `usages` is not valid at FILE:LINE; use goal, TERM, or a Lean directive"
    );
}

#[test]
fn contexts_resolve_to_project_files() {
    let s = searcher();
    let at = |context: ProbeContext| s.resolve_probe_context(&context, None, None);
    assert_eq!(
        at(ProbeContext::Position("Demo.lean:3".into())).unwrap(),
        ("/w/Demo.lean".to_owned(), 3)
    );
    assert_eq!(
        at(ProbeContext::File("Demo.lean".into())).unwrap(),
        ("/w/Demo.lean".to_owned(), 0)
    );
    assert_eq!(
        at(ProbeContext::Scope("Demo/".into())).unwrap_err().to_text(),
        "Demo/ is a search scope, not a Lean elaboration context"
    );
    assert_eq!(
        at(ProbeContext::Check("c9".into())).unwrap_err().to_text(),
        "unknown check reference c9"
    );
    let mut failed = check("failed");
    failed.diagnostics.push(warning("Demo.lean:7:2: error: unsolved goals"));
    assert_eq!(
        s.resolve_probe_context(&ProbeContext::Check("c123".into()), Some(&failed), None).unwrap(),
        ("/w/Demo.lean".to_owned(), 7)
    );
    failed.workspace_ref = "w2".into();
    assert_eq!(
        s.resolve_probe_context(&ProbeContext::Check("c123".into()), Some(&failed), None)
            .unwrap_err()
            .to_text(),
        "c123 belongs to w2; run the Lean probe from that workspace"
    );
    let stored = run("x", "exact", vec![hit("Demo.a", "theorem")]);
    assert_eq!(
        s.resolve_probe_context(&ProbeContext::Query("q1".into(), 0), None, Some(&stored)).unwrap(),
        ("/w/Demo.lean".to_owned(), 0)
    );
    assert_eq!(
        s.resolve_probe_context(&ProbeContext::Query("q1".into(), 4), None, Some(&stored))
            .unwrap_err()
            .to_text(),
        "q1 has 1 result(s), not result #5"
    );
}

#[test]
fn goals_need_a_line_of_a_proof() {
    let s = searcher();
    let source = "theorem a : True := by\n  trivial\n";
    let at = s.locate_position("Demo.lean:2").unwrap();
    let probe = s.run_position_probe(&at, source, None).unwrap();
    assert_eq!((probe.operation.as_str(), probe.line), ("goal", 2));
    assert_eq!(probe.stored_path, "Demo.lean");
    let term = s.run_position_probe(&at, source, Some("Nat.succ")).unwrap();
    assert_eq!((term.operation.as_str(), term.input.as_str()), ("term", "Nat.succ"));
    let head = s.locate_position("Demo.lean:1").unwrap();
    assert_eq!(
        s.run_position_probe(&head, source, None).unwrap_err().to_text(),
        "goal needs an exact proof line, not a declaration header or blank line; use search Demo.lean:1 to read source"
    );
    assert!(s.locate_position("Missing.lean:1").is_err());
}

#[test]
fn lean_is_asked_and_answers_as_an_experiment() {
    assert_eq!(
        lean_operation(&LeanDirective::Apply("h".into()), 3).unwrap(),
        ("tactic".to_owned(), "apply (h)".to_owned())
    );
    assert_eq!(
        lean_operation(&LeanDirective::Synth("Inhabited Nat".into()), 0).unwrap().0,
        "synth"
    );
    for (directive, word) in [
        (LeanDirective::Apply("h".into()), "#apply"),
        (LeanDirective::Inspect("h".into()), "#inspect"),
        (LeanDirective::Tactic("h".into()), "by TACTIC"),
    ] {
        assert_eq!(
            lean_operation(&directive, 0).unwrap_err().to_text(),
            format!("{word} requires FILE:LINE, cREF, or positioned qREF context")
        );
    }
    let (ok, detail) = run_lean_probe("tactic", "apply (h)", true, "no goals".into());
    assert!(ok);
    assert_eq!(
        detail,
        "application experiment (not a check certificate)\nno goals\nRemaining goals are obligations, not established facts."
    );
    let kept = store_probe_result("q9", "w1", "x", "term", "T".into(), (Some("A.lean"), 4), 7);
    assert_eq!(kept.hits[0].source.as_deref(), Some("T"));
    assert_eq!((kept.hits[0].path.as_str(), kept.hits[0].line), ("A.lean", 4));
}

#[test]
fn earlier_searches_are_refined() {
    let stored = run("x", "exact", vec![hit("Demo.a", "theorem")]);
    let step = |subject: Option<&str>, focus: Option<&str>| {
        probe_query_reference("q1", false, Some(&stored), 0, subject, focus)
    };
    assert_eq!(step(None, None).unwrap(), QueryStep::Refine { focus: "signature".into() });
    assert_eq!(
        step(None, Some("find:x")).unwrap(),
        QueryStep::Refine { focus: "find:x".into() }
    );
    assert_eq!(
        step(None, Some("constructors")).unwrap(),
        QueryStep::Constructors { subject: "Demo.a".into() }
    );
    assert_eq!(
        step(None, Some("evidence")).unwrap(),
        QueryStep::Contract { subject: "Demo.a".into(), focus: "evidence".into() }
    );
    assert_eq!(
        step(Some("Other.b"), Some("fields")).unwrap(),
        QueryStep::Static { query: "Other.b fields".into(), focus: "fields".into() }
    );
    assert!(step(None, Some("types")).is_err());
    assert_eq!(
        probe_query_reference("q1", false, Some(&stored), 3, None, None).unwrap_err().to_text(),
        "q1 has 1 result(s), not result #4"
    );
    assert_eq!(
        probe_query_reference("q7", false, None, 0, None, None).unwrap_err().to_text(),
        "unknown query reference q7"
    );
    assert_eq!(
        probe_query_reference("q1", true, None, 0, None, None).unwrap(),
        QueryStep::Warning
    );
    assert!(probe_query_reference("q1", true, None, 0, None, Some("source")).is_err());
    let probed = run("x", "probe", vec![hit("goal", "goal")]);
    assert_eq!(
        probe_query_reference("q1", false, Some(&probed), 0, None, None).unwrap(),
        QueryStep::Stored { path: Some("Demo.lean".into()), line: 1 }
    );
    assert_eq!(
        probe_query_reference("q1", false, Some(&probed), 0, None, Some("goal")).unwrap(),
        QueryStep::Position { location: "Demo.lean:1".into() }
    );
}

#[test]
fn found_declarations_are_followed_and_refreshed() {
    let mut abbreviation = hit("Demo.Short", "abbrev");
    abbreviation.source = Some("abbrev Short := Demo.Long Nat".into());
    assert_eq!(abbreviation_target(&abbreviation).as_deref(), Some("Demo.Long"));
    let mut found = run("Demo.Short fields", "exact", vec![abbreviation]);
    found.note = Some("Demo.Short is an abbrev, not a class or structure".into());
    assert_eq!(
        run_static_probe_query(Some(&found), "Demo.Short fields", "fields").unwrap(),
        StaticStep::Follow { query: "Demo.Long fields".into() }
    );
    found.hits[0].kind = "def".into();
    assert_eq!(
        run_static_probe_query(Some(&found), "Demo.Short fields", "fields").unwrap_err().to_text(),
        "Demo.Short is an abbrev, not a class or structure; valid focuses: signature, source, outline, usages, apply"
    );
    assert_eq!(
        run_static_probe_query(None, "x", "source").unwrap(),
        StaticStep::Rendered
    );
    assert_eq!(
        run_static_probe_query(Some(&found), "x", "source").unwrap(),
        StaticStep::Refine
    );
    assert_eq!(
        run_static_probe_query(Some(&found), "x", "usages").unwrap(),
        StaticStep::Usages
    );

    let mut old = hit("Demo.value", "def");
    old.line = 90;
    let fresh = refresh_probe_source("namespace Demo\ndef value : Nat := 4\nend Demo\n", &old).unwrap();
    assert_eq!(fresh.line, 2);
    assert_eq!(fresh.signature.as_deref(), Some("Nat"));
    assert!(fresh.source.as_deref().unwrap().contains("def value : Nat := 4"));
    assert!(refresh_probe_source("def other := 1\n", &old).is_none());

    let kept = store_query_hit_refinement("q2", "w1", "q1", fresh, "source", true, 3);
    assert_eq!((kept.inference.as_str(), kept.note.as_deref()), ("probe-source", None));
    let missing = store_query_hit_refinement("q2", "w1", "q1", old, "source", false, 3);
    assert!(missing.note.as_deref().unwrap().starts_with("Source unavailable"));
    assert!(missing.note.as_deref().unwrap().contains("\"#inspect Demo.value\""));
}

#[test]
fn usages_are_told_with_their_consumers() {
    let usage = |path: &str, line: u64, context: &str| SearchUsage {
        path: path.into(),
        line,
        context: Some(context.into()),
    };
    let mut used = hit("Demo.f", "def");
    used.usages = vec![
        usage("A.lean", 2, "Demo.first"),
        usage("A.lean", 3, "_root_.Demo.first"),
        usage("B/C.lean", 4, "Demo.f"),
        usage("B/C.lean", 5, "Demo.second"),
        usage("B/C.lean", 6, "Demo.third"),
    ];
    let mut law = hit("Demo.f_apply", "theorem");
    law.signature = Some("f x = x".into());
    let hits = vec![hit("Demo.f_aux", "def"), law];
    let law = first_law(&hits).unwrap();
    let mut told = run("Demo.f", "exact", vec![used.copy()]);
    told.note = Some("kept".into());
    enrich_usage_dossier(&mut told, Some(&law), Some("one\n  use f here  \n"));
    assert_eq!(
        told.note.as_deref(),
        Some("law: Demo.f_apply : f x = x\nindexed consumers: Demo.first, Demo.second\nusage excerpt: use f here\nkept")
    );
    assert_eq!(
        usage_law_query("_root_.Demo.f"),
        "declaration Demo.f.apply*|Demo.f_apply*|Demo.f.comp*|Demo.f_comp*|Demo.f.trans*|Demo.f_trans*"
    );
    let result = SearchResult {
        hits: vec![used],
        inference: "exact".into(),
        note: None,
        ok: true,
    };
    let scoped = probe_scoped_usages(&result, "./B/", "Demo.f");
    assert_eq!(scoped.hits[0].usages.len(), 3);
    let none = probe_scoped_usages(&result, "D", "Demo.f");
    assert_eq!(none.note.as_deref(), Some("no indexed usages under D"));
    let missing = probe_scoped_usages(&result, "D", "Demo.g");
    assert!(!missing.ok);
    assert_eq!(
        missing.note.as_deref(),
        Some("declaration not found: Demo.g; try search Demo.g")
    );
}

#[test]
fn constructors_depend_on_the_kind() {
    let mut choice = hit("Demo.Choice", "inductive");
    choice.line = 5;
    choice.source = Some("inductive Choice where\n  | left\n  | right (n : Nat)".into());
    let found = run("Demo.Choice source", "exact", vec![choice]);
    match run_constructors_probe(Some(&found), "Demo.Choice").unwrap() {
        ConstructorStep::List { query, hits } => {
            assert_eq!(query, "Demo.Choice constructors");
            assert_eq!(hits.len(), 2);
            assert_eq!((hits[1].name.as_str(), hits[1].line), ("Demo.Choice.right", 7));
        }
        other => panic!("{other:?}"),
    }
    let record = run("x", "exact", vec![hit("Demo.Data", "structure")]);
    assert!(matches!(
        run_constructors_probe(Some(&record), "Demo.Data").unwrap(),
        ConstructorStep::Search { query } if query == "Demo.Data.mk"
    ));
    let other = run("x", "exact", vec![hit("Demo.value", "def")]);
    assert!(run_constructors_probe(Some(&other), "Demo.value")
        .unwrap_err()
        .to_text()
        .starts_with("Demo.value is def, not a structure"));
    assert!(matches!(
        run_constructors_probe(None, "Demo.value").unwrap(),
        ConstructorStep::Rendered
    ));
}

#[test]
fn summaries_give_their_reference() {
    assert_eq!(
        rendered_search_reference("x\nref: q4\nref: c5\ny").as_deref(),
        Some("q4")
    );
    assert!(rendered_search_reference("ref: w1").is_none());
    assert!(indexes_warming("source index warming"));
    assert!(!indexes_warming("warming"));
}

#[test]
fn failures_tell_their_class() {
    let searcher = searcher();
    let refused = searcher.probe("").unwrap_err();
    assert_eq!(refused.class, Some(DiscoveryFailure::InvalidRequest));
    let missing =
        searcher.lean_context(&ProbeContext::Check("c9".into()), None, None).unwrap_err();
    assert_eq!(missing.to_text(), "unknown check reference c9");
    assert_eq!(missing.class, Some(DiscoveryFailure::UnavailableContext));
    let down = lean_answer(Err("no Lean".into())).unwrap_err();
    assert_eq!(down.to_text(), "no Lean");
    assert_eq!(down.class, Some(DiscoveryFailure::Infrastructure));
    assert_eq!(lean_answer(Ok((true, "ok".into()))).unwrap(), (true, "ok".to_owned()));
}

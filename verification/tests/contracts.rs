//! What signatures and evidence say of a declaration.
use mathmux::search::contract::{
    assumption_signature, bound_input_names, construction_needs_subject, input_heads, relation,
    signature_binders,
};
use mathmux::search::diagnostics::diagnostic_apply_detail;
use mathmux::search::display::{compact_signature_preview, render_summary};
use mathmux::search::dossier::contract_exact_hit;
use mathmux::search::evidence::{routes, LeanEvidence, Route};
use mathmux::search::records::{IndexedRow, SearchRun};
use mathmux::text::layout::shell_argument;

#[test]
fn examples_distinguish_existing_subject_inputs_from_other_requirements() {
    assert!(construction_needs_subject("(f : Demo.Data Nat) : Demo.Data Nat", "Demo.Data"));
    assert!(!construction_needs_subject("(n : Nat) : Demo.Data Nat", "Demo.Data"));
    assert!(!construction_needs_subject("(f : X → Demo.Data Nat) : Demo.Data Nat", "Demo.Data"));
}

#[test]
fn evidence_does_not_resolve_bound_types_as_global_names() {
    let bound = bound_input_names(
        "(m : E) (d : Demo.Data E) : True",
        Some("-- ambient context\nvariable {E F : Type*}\nvariable [NormedSpace ℝ E]"),
    );
    let has = |name: &str| bound.iter().any(|b| b == name);
    assert!(has("E") && has("F") && has("m"));
    assert!(!has("Demo.Data"));
    assert!(bound_input_names("{Vector : Type} (v : Vector) : True", None)
        .contains(&"Vector".to_owned()));
}

#[test]
fn warming_exact_search_never_claims_absence_or_suggests_name_repair() {
    let run = SearchRun {
        reference: "q1".into(),
        workspace_ref: "w1".into(),
        query: "Demo.exists".into(),
        inference: "exact-miss".into(),
        hits: Vec::new(),
        note: Some("exact declaration not found: Demo.exists\nsource index warming".into()),
        duration_ms: 0,
        created_at: 0,
    };
    let output = render_summary(&run);
    assert!(output.contains("absence not established"), "{output}");
    assert!(!output.contains("exact declaration not found"), "{output}");
    assert!(!output.contains("next: mathmux search"), "{output}");
}

#[test]
fn apply_difference_excludes_repeated_local_context() {
    let diagnostic = "Tactic `apply` failed: could not unify the type of `h`\n  D.index = supplied D\nwith the goal\n  D.index = target D\n\nn : Nat\nh : True";
    let focused = diagnostic_apply_detail(diagnostic).unwrap();
    assert!(focused.contains("actual: supplied"), "{focused}");
    assert!(focused.contains("expected: target"), "{focused}");
    assert!(!focused.contains("n : Nat"));
}

#[test]
fn constructions_exclude_maps_and_equivalences_out_of_the_type() {
    for signature in [
        "¬ Nonempty (Wrapper Demo.Data)",
        "Subsingleton (Demo.Data → Nat)",
        "Demo.Data →+ ℤ",
        "Demo.Data ≃+ Other",
        "Demo.Data = Other",
        "Demo.Data × Other",
    ] {
        assert_eq!(relation(signature, "Demo.Data"), Some("related law candidate"));
    }
    assert_eq!(relation("(f : X → Y) : Demo.Data", "Demo.Data"), Some("construction candidate"));
    assert_eq!(
        relation("Subsingleton (Demo.Data PUnit)", "Demo.Data"),
        Some("subsingleton candidate")
    );
    assert_eq!(relation("(h : Subsingleton (Demo.Data PUnit)) : True", "Demo.Data"), None);
    assert_eq!(input_heads("⦃X : Type⦄ (d : Demo.Data X) : True")[0], "Demo.Data");
}

#[test]
fn explicit_contract_inputs_survive_long_signatures() {
    let signature = "{X : Type} [TopologicalSpace X] (d : BundleData X) (f : (x : X) → X) (hBridge : actualIndex d = suppliedIndex d) : actualIndex d = targetIndex d";
    let detail = assumption_signature(signature);
    assert!(detail.starts_with("result (indexed): actualIndex d = targetIndex d"));
    assert!(detail.contains("input: (hBridge : actualIndex d = suppliedIndex d)"));
    assert!(detail.find("input: (d").unwrap() < detail.find("implicit/context:").unwrap());
    assert_eq!(signature_binders(signature).len(), 5);
    assert_eq!(input_heads(signature)[0], "BundleData");
    assert!(!input_heads(signature).contains(&"TopologicalSpace X".to_owned()));
}

#[test]
fn private_signatures_tell_their_visibility() {
    let private = assumption_signature("[private] (n : Nat) : Data n");
    assert!(private.contains("visibility: private"), "{private}");
    assert!(!private.contains("implicit/context: [private]"), "{private}");
    assert!(private.contains("input: (n : Nat)"), "{private}");
}

#[test]
fn i140_source_and_compiled_entries_are_one_declaration() {
    let row = |owner: &str, name: &str, kind: &str, signature: &str| IndexedRow {
        owner: owner.into(),
        path: "Demo.lean".into(),
        module: "Demo".into(),
        line: 1,
        name: name.into(),
        kind: kind.into(),
        signature: signature.into(),
        docs: String::new(),
        body: String::new(),
    };
    let hit = contract_exact_hit(
        &vec![
            row("artifacts:w1", "_root_.Demo.publicTheorem", "declaration", ""),
            row("workspace:w1", "Demo.publicTheorem", "theorem", "(n : Nat) : n = n"),
        ],
        "Demo.publicTheorem",
        "w1",
    )
    .unwrap();
    assert!(hit.signature.unwrap().contains("n = n"));
    assert!(contract_exact_hit(
        &vec![
            row("workspace:w1", "Left.Data", "structure", ": Type"),
            row("workspace:w1", "Right.Data", "structure", ": Type"),
        ],
        "Data",
        "w1",
    )
    .is_err());
}

#[test]
fn obstruction_requires_negative_result_not_premise() {
    assert_eq!(
        relation("(X : Type) : ¬ Nonempty (Demo.Data X)", "Demo.Data"),
        Some("obstruction candidate")
    );
    assert_ne!(
        relation("(h : ¬ Nonempty (Demo.Data X)) : True", "Demo.Data"),
        Some("obstruction candidate")
    );
    assert_ne!(
        relation("¬ Nonempty (Demo.Data X) → False", "Demo.Data"),
        Some("obstruction candidate")
    );
    assert_eq!(relation("(x : X) : Demo.Data X", "Demo.Data"), Some("construction candidate"));
    assert_eq!(relation("(h : Demo.Data X) : Other", "Demo.Data"), None);
    let alone = relation(": IsEmpty (Demo.Data X)", "Demo.Data");
    assert_eq!(alone, Some("emptiness candidate"));
    let assumed = "(h : ¬ Nonempty (Demo.Data X)) [i : C X] : IsEmpty (Demo.Data X)";
    assert_eq!(relation(assumed, "Demo.Data"), alone);
    assert_eq!(relation(": ¬ Nonempty (Demo.Database X)", "Demo.Data"), None);
}

#[test]
fn exact_previews_bucket_implicit_context() {
    assert_eq!(
        compact_signature_preview("{X : Type u} [TopologicalSpace X] (f : X → X) : Continuous f"),
        "(f : X → X) : Continuous f [context: 2 implicit/typeclass]"
    );
    assert_eq!(compact_signature_preview("Nat → Nat"), "Nat → Nat");
}

#[test]
fn generated_commands_quote_lean_names_with_apostrophes() {
    assert_eq!(
        shell_argument("Demo.changeModelTrivialization'"),
        "\"Demo.changeModelTrivialization'\""
    );
    assert_eq!(shell_argument("Demo.safe_name"), "Demo.safe_name");
}

#[test]
fn registry_is_explicit_bounded_and_advisory() {
    let link = |replacement: &str, examples: Vec<String>| Route {
        subject: "Demo.Data".into(),
        obstruction: None,
        replacement: Some(replacement.into()),
        examples,
        explanation: String::new(),
    };
    assert!(routes(1, &Vec::new(), "Demo.Data").unwrap().is_empty());
    let links = vec![link("Other.Data", vec!["Other.example".into()])];
    assert_eq!(
        routes(1, &links, "Demo.Data").unwrap()[0].replacement.as_deref(),
        Some("Other.Data")
    );
    assert!(routes(1, &links, "Unrelated.Data").unwrap().is_empty());
    assert!(routes(1, &vec![link("$(run)", Vec::new())], "Demo.Data").is_err());
    assert!(routes(2, &links, "Demo.Data").is_err());
}

#[test]
fn admitted_or_custom_axiom_evidence_is_never_trusted() {
    let mut evidence = LeanEvidence {
        declaration: "empty".into(),
        subject: Some("Empty".into()),
        conclusion: "¬ Nonempty Empty".into(),
        premises: vec![],
        axioms: vec![],
        detail: String::new(),
    };
    assert!(evidence.trusted());
    evidence.axioms.push("sorryAx".into());
    assert!(!evidence.trusted());
    evidence.axioms = vec!["Demo.assumeEmpty".into()];
    assert!(!evidence.trusted());
    evidence.axioms = vec!["propext".into(), "Classical.choice".into(), "Quot.sound".into()];
    assert!(evidence.trusted());
    evidence.subject = None;
    assert!(!evidence.trusted());
}

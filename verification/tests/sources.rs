//! Sources: their entries, excerpts and summaries.
use mathmux::search::bridge::pipe_alternative_covered;
use mathmux::search::declarations::parse_source;
use mathmux::search::display::render_summary;
use mathmux::search::excerpt::{detailed_source_excerpt, source_excerpt_with_limit};
use mathmux::search::fallback::{file_query_coverage_signature, name_contains_candidates};
use mathmux::search::fields::structure_field_header;
use mathmux::search::limits::SOURCE_PREVIEW_LINES;
use mathmux::search::modules::reference_name;
use mathmux::search::rank::{apply_import_context, ImportContext};
use mathmux::search::records::{Candidate, IndexedRow, SearchHit, SearchRun};
use mathmux::search::source::{line_starts, offset_line, preceding_doc};
use mathmux::search::tokens::meaningful_query_tokens;

#[test]
fn source_parser_qualifies_names_and_keeps_types() {
    let source = r#"namespace Demo
/-- Converts a hypothesis. -/
theorem useful (h : P) : Q := by
  sorry
def pairValue (value : α × β) : α × β := value
end Demo
"#;
    let entries = parse_source(source, "Demo");
    let theorem = entries
        .iter()
        .find(|entry| entry.kind == "theorem")
        .unwrap();
    assert_eq!(theorem.name, "Demo.useful");
    assert_eq!(theorem.signature, "(h : P) : Q");
    assert_eq!(theorem.docs, "Converts a hypothesis.");
    assert!(
        entries
            .iter()
            .any(|entry| entry.name == "Demo.pairValue" && entry.signature.contains('×'))
    );
    let named_argument = parse_source(
        "theorem configured (x : α) : f (R := 𝕜) x = x := by simp\n",
        "Demo",
    );
    assert_eq!(named_argument[0].signature, "(x : α) : f (R := 𝕜) x = x");
    let inferred_abbrev = parse_source("abbrev ZeroFiber := EuclideanSpace ℂ (Fin 0)\n", "Demo");
    assert_eq!(inferred_abbrev[0].signature, ":= EuclideanSpace ℂ (Fin 0)");

    let sectioned = parse_source(
        "namespace Outer\nsection First\ndef before := 1\nend First\nsection Second\ndef after := 2\nend Second\nend Outer\n",
        "Outer",
    );
    assert!(sectioned.iter().any(|entry| entry.name == "Outer.before"));
    assert!(sectioned.iter().any(|entry| entry.name == "Outer.after"));

    let unicode = parse_source(
        "namespace LinearMap\ndef mkContinuous₂ (f : α) := f\nend LinearMap\n",
        "LinearMap",
    );
    assert!(
        unicode
            .iter()
            .any(|entry| entry.name == "LinearMap.mkContinuous₂")
    );

    let additive_doc = parse_source(
        "/-- Multiplicative support. -/\n@[to_additive /-- Additive support around zero. -/]\ntheorem mulSupportFact : True := trivial\n",
        "Demo",
    );
    assert_eq!(additive_doc[0].docs, "Additive support around zero.");

    let priority_instance = parse_source(
        "namespace VectorBundle\ninstance (priority := 100) trivialization_linear [VectorBundle R F E] : e.IsLinear R := inferInstance\nend VectorBundle\n",
        "VectorBundle",
    );
    assert!(priority_instance.iter().any(|entry| {
        entry.kind == "instance" && entry.name == "VectorBundle.trivialization_linear"
    }));

    let anonymous_instance = parse_source(
        "namespace ComplexVectorBundle\ninstance (V : ComplexVectorBundle B) : NormedAddCommGroup V.F := V.normedAddCommGroup\nend ComplexVectorBundle\n",
        "ComplexVectorBundle",
    );
    assert!(anonymous_instance.iter().any(|entry| {
        entry.kind == "instance"
            && entry.name.starts_with("ComplexVectorBundle.instance@")
            && entry.signature.contains("NormedAddCommGroup V.F")
    }));

    let structure = parse_source(
        "structure InnerProductSpace.Core extends PreInnerProductSpace.Core where\n  definite : True\n",
        "InnerProductSpace",
    );
    assert!(structure[0].signature.contains(
        "generated parent projection: InnerProductSpace.Core.toPreInnerProductSpaceCore"
    ));
    let infix_parent = parse_source(
        "structure Homeomorph (X Y : Type*) extends X ≃ Y where\n  continuous_toFun : True\n",
        "Homeomorph",
    );
    assert!(
        !infix_parent[0]
            .signature
            .contains("generated parent projection")
    );

    let bundle_hom = parse_source(
        "namespace Demo\nstructure BundleHom (E₁ E₂ : B → Type*) where\n  toFun : ∀ b, E₁ b → E₂ b\n  /-- The maps vary continuously. -/\n  continuous_toFun :\n    Continuous (fun b ↦ toFun b)\n\nnamespace BundleHom\ntheorem use : True := trivial\nend BundleHom\nend Demo\n",
        "Demo",
    );
    let continuous = bundle_hom
        .iter()
        .find(|entry| entry.name == "Demo.BundleHom.continuous_toFun")
        .unwrap();
    assert_eq!(continuous.kind, "field");
    assert_eq!(continuous.line, 5);
    assert_eq!(continuous.docs, "The maps vary continuously.");
    assert_eq!(continuous.signature, "Continuous (fun b ↦ toFun b)");
    assert!(!continuous.body.contains("namespace BundleHom"));

    let contextual = parse_source(
        "namespace Demo\nuniverse u\nvariable {α : Type u} [Group α]\nsection Closed\nvariable [TopologicalSpace α]\nend Closed\nstructure Box where\n  value : α\nend Demo\n",
        "Demo",
    );
    let boxed = contextual
        .iter()
        .find(|entry| entry.name == "Demo.Box")
        .unwrap();
    assert!(boxed.body.contains("universe u"));
    assert!(boxed.body.contains("variable {α : Type u} [Group α]"));
    assert!(!boxed.body.contains("variable [TopologicalSpace α]"));

    let grouped = parse_source(
        "namespace Demo\nsection Adapter\nvariable {α : Type} [Group α]\ntheorem useful : True := by trivial\nend Adapter\nend Demo\n",
        "Demo",
    );
    let useful = grouped
        .iter()
        .find(|entry| entry.name == "Demo.useful")
        .unwrap();
    assert!(useful.body.contains("section Adapter"));
    assert!(!useful.body.contains("end Adapter"));

    let notation = parse_source(
        "namespace Bundle\nnotation:100 E₁ \" ×ᵇ \" E₂ => fun x => E₁ x × E₂ x\nend Bundle\n",
        "Demo",
    );
    let notation = notation
        .iter()
        .find(|entry| entry.name == "Bundle.notation ×ᵇ")
        .unwrap();
    assert_eq!(notation.kind, "notation");
    assert_eq!(notation.line, 2);
}

#[test]
fn pipe_alternatives_short_circuit_after_one_indexed_hit_covers_a_group() {
    let hit = SearchHit {
        name: "MatrixGL.gl_pathConnectedSpace".into(),
        kind: "theorem".into(),
        signature: Some("PathConnectedSpace (Matrix.GeneralLinearGroup n C)".into()),
        module: "Demo.GLPaths".into(),
        path: "Demo/GLPaths.lean".into(),
        line: 1,
        doc: None,
        source: None,
        usages: Vec::new(),
        applicable: false,
        required_import: None,
    };
    let hits = vec![hit];
    assert!(pipe_alternative_covered(
        "GeneralLinearGroup connected|unrelated missing",
        &hits
    ));
    assert!(!pipe_alternative_covered(
        "GeneralLinearGroup compact|unrelated missing",
        &hits
    ));
}

#[test]
fn search_summary_keeps_definition_body_after_ambient_context() {
    let summary = render_summary(&SearchRun {
            reference: "q2".into(),
            workspace_ref: "w1".into(),
            query: "matrixLaurentShift".into(),
            inference: "hybrid".into(),
            hits: vec![SearchHit {
                name: "Demo.matrixLaurentShift".into(),
                kind: "def".into(),
                signature: Some("Nat → Nat".into()),
                module: "Demo".into(),
                path: "Demo.lean".into(),
                line: 10,
                doc: None,
                source: Some(
                    "-- ambient context\nuniverse u\nvariable {B : Type u}\nsection\nvariable (n : Nat)\n\ndef matrixLaurentShift : Nat :=\n  n + 1"
                        .into(),
                ),
                usages: Vec::new(),
                applicable: false,
                required_import: None,
            }],
            note: None,
            duration_ms: 1,
            created_at: 0,
        });
    assert!(summary.contains("source:\n-- ambient context"));
    assert!(summary.contains("\n  n + 1"));
    assert!(!summary.contains("matrixLaurentShift : Nat → Nat"));
}

#[test]
fn structure_summary_points_to_complete_field_inventory() {
    let source = std::iter::once("structure Demo.Config where".to_owned())
        .chain((1..=20).map(|index| format!("  field{index} : Nat")))
        .collect::<Vec<_>>()
        .join("\n");
    let structure = SearchHit {
        name: "Demo.Config".into(),
        kind: "structure".into(),
        signature: None,
        module: "Demo".into(),
        path: "Demo.lean".into(),
        line: 1,
        doc: None,
        source: Some(source),
        usages: Vec::new(),
        applicable: false,
        required_import: None,
    };
    let summary = render_summary(&SearchRun {
        reference: "q-fields".into(),
        workspace_ref: "w1".into(),
        query: "Demo.Config".into(),
        inference: "exact".into(),
        hits: vec![structure],
        note: None,
        duration_ms: 1,
        created_at: 0,
    });
    assert!(summary.contains("+5 lines; search Demo.Config fields"));

    let fields = SearchHit {
        name: "Demo.Config fields".into(),
        kind: "fields".into(),
        signature: None,
        module: "Demo".into(),
        path: "Demo.lean".into(),
        line: 1,
        doc: None,
        source: Some(
            (1..=20)
                .map(|index| format!("field{index} : Nat"))
                .collect::<Vec<_>>()
                .join("\n"),
        ),
        usages: Vec::new(),
        applicable: false,
        required_import: None,
    };
    let summary = render_summary(&SearchRun {
        reference: "q-inventory".into(),
        workspace_ref: "w1".into(),
        query: "Demo.Config fields".into(),
        inference: "exact".into(),
        hits: vec![fields],
        note: None,
        duration_ms: 1,
        created_at: 0,
    });
    assert!(summary.contains("\nfield20 : Nat"));
    assert!(!summary.contains("source:"));
}

#[test]
fn explicit_body_query_keeps_alternatives_compact() {
    let hit = |name: &str, source: &str| SearchHit {
        name: name.into(),
        kind: "theorem".into(),
        signature: Some("True".into()),
        module: "Demo".into(),
        path: "Demo.lean".into(),
        line: 1,
        doc: None,
        source: Some(source.into()),
        usages: Vec::new(),
        applicable: false,
        required_import: None,
    };
    let summary = render_summary(&SearchRun {
        reference: "q3".into(),
        workspace_ref: "w1".into(),
        query: "theorem proof".into(),
        inference: "hybrid".into(),
        hits: vec![
            hit("Demo.proof", "requested body"),
            hit("Other.proof", "alternative body"),
        ],
        note: None,
        duration_ms: 1,
        created_at: 0,
    });
    assert!(summary.contains("requested body"));
    assert!(summary.contains("Demo.proof : True"));
    assert!(summary.contains("Other.proof : True"));
    assert!(!summary.contains("alternative body"));

    let related = render_summary(&SearchRun {
        reference: "q-related".into(),
        workspace_ref: "w1".into(),
        query: "Demo.missingProof".into(),
        inference: "hybrid".into(),
        hits: vec![hit("Demo.closestProof", "unrelated proof body")],
        note: Some("related results (no exact match)".into()),
        duration_ms: 1,
        created_at: 0,
    });
    assert!(related.contains("Demo.closestProof : True"));
    assert!(!related.contains("unrelated proof body"));
}

#[test]
fn references_decode_from_ilean_keys() {
    let key = r#"{"c":{"m":"Demo","n":"Demo.useful"}}"#;
    assert_eq!(reference_name(key).as_deref(), Some("Demo.useful"));
}

#[test]
fn source_excerpts_center_the_match_and_report_file_lines() {
    let source = (1..=20)
        .map(|line| {
            if line == 12 {
                "theorem exact_match := by simp".to_owned()
            } else {
                format!("-- line {line}")
            }
        })
        .collect::<Vec<_>>()
        .join("\n");
    let (excerpt, line) =
        source_excerpt_with_limit(&source, "exact_match", &vec!["exact_match".into()], 1, true, 8);
    let excerpt = excerpt.unwrap();
    assert_eq!(line, 12);
    assert!(excerpt.starts_with("-- line 10"));
    assert!(excerpt.contains("theorem exact_match"));
    assert_eq!(excerpt.lines().count(), 8);

    let dispersed = (1..=40)
        .map(|line| match line {
            5 => "def firstNeedle := 1".to_owned(),
            35 => "theorem secondNeedle : True := trivial".to_owned(),
            _ => format!("-- line {line}"),
        })
        .collect::<Vec<_>>()
        .join("\n");
    let (excerpt, line) = source_excerpt_with_limit(
        &dispersed,
        "firstNeedle secondNeedle",
        &vec!["firstneedle".into(), "secondneedle".into()],
        1,
        true,
        48,
    );
    let excerpt = excerpt.unwrap();
    assert_eq!(line, 5);
    assert!(excerpt.contains("def firstNeedle"));
    assert!(excerpt.contains("theorem secondNeedle"));
    assert!(excerpt.lines().count() <= SOURCE_PREVIEW_LINES);
    assert_eq!(
        file_query_coverage_signature(
            "the first needle is present",
            &vec!["first".into(), "second".into()]
        )
        .as_deref(),
        Some("partial source match 1/2")
    );

    let structure = "structure Config where\n  first : Nat\n  second : String\n  third : Bool\n\n/-- The next declaration. -/\ndef next := 1\n";
    let (excerpt, line) = detailed_source_excerpt(
        structure,
        "Config",
        &vec!["config".into()],
        10,
        "structure",
        "Demo.Config",
    );
    assert_eq!(line, 10);
    let excerpt = excerpt.unwrap();
    assert!(excerpt.contains("third : Bool"));
    assert!(!excerpt.contains("next declaration"));

    let proof = (1..=20)
        .map(|line| format!("proof line {line}"))
        .collect::<Vec<_>>()
        .join("\n");
    let (excerpt, _) = detailed_source_excerpt(
        &proof,
        "proof line 1",
        &vec!["proof".into()],
        1,
        "theorem",
        "Demo.proof",
    );
    assert_eq!(excerpt.unwrap().lines().count(), 20);
}

#[test]
fn source_excerpts_prefer_local_context_covering_the_query() {
    let source = "rw [Finsupp.sum_add_index]\nsimp [smul_eq_mul]\ntheorem Demo.outer : True := by\n  step 1\n  step 2\n  step 3\n  step 4\n  step 5\n  step 6\n  step 7\n  step 8\n  step 9\n  step 10\n  step 11\n  step 12\n  step 13\n  step 14\n  step 15\n  step 16\n  have hpush (q : α) : True := by\n    rw [Finsupp.sum_add_index]\n    simp\n    simp [smul_eq_mul]\n  exact hpush q\n  simp_rw [hpush]\n";
    let query = "Demo.outer hpush Finsupp.sum_add_index smul_eq_mul";
    let tokens = meaningful_query_tokens(query);
    let (excerpt, _) = detailed_source_excerpt(source, query, &tokens, 1, "theorem", "Demo.outer");
    let excerpt = excerpt.unwrap();
    assert!(excerpt.contains("have hpush"));
    assert!(excerpt.contains("Finsupp.sum_add_index"));
    assert!(excerpt.contains("smul_eq_mul"));

    let ambient = (1..=20)
        .map(|line| format!("variable (ambient{line} : Nat)"))
        .collect::<Vec<_>>()
        .join("\n");
    let source = format!("-- ambient context\n{ambient}\n\ndef requestedDefinition : Nat :=\n  42");
    let query = "missingLocalTerm requestedDefinition";
    let tokens = meaningful_query_tokens(query);
    let (excerpt, _) = detailed_source_excerpt(
        &source,
        query,
        &tokens,
        1,
        "def",
        "Demo.requestedDefinition",
    );
    let excerpt = excerpt.unwrap();
    assert!(excerpt.contains("def requestedDefinition"));
    assert!(excerpt.contains("42"));
}

#[test]
fn name_contains_fallback_batches_tokens_and_respects_scopes() {
    let rows = [
        ("workspace:w1", "Demo.prefixAlphaSuffix"),
        ("packages:demo", "Demo.prefixBetaSuffix"),
        ("workspace:w2", "Demo.prefixGammaSuffix"),
    ]
    .into_iter()
    .map(|(owner, name)| IndexedRow {
        owner: owner.into(),
        path: "Demo.lean".into(),
        module: "Demo".into(),
        line: 1,
        name: name.into(),
        kind: "def".into(),
        signature: String::new(),
        docs: String::new(),
        body: String::new(),
    })
    .collect::<Vec<_>>();
    let scopes = vec!["workspace:w1".into(), "packages:demo".into()];
    let hits =
        name_contains_candidates(&rows, &scopes, &vec!["alphasuffix".into(), "betasuffix".into()]);
    assert_eq!(
        hits.into_iter().map(|hit| hit.name).collect::<Vec<_>>(),
        ["Demo.prefixAlphaSuffix", "Demo.prefixBetaSuffix"]
    );
    let hits = name_contains_candidates(&rows, &scopes, &vec!["gammasuffix".into()]);
    assert!(hits.is_empty());
}

#[test]
fn import_context_marks_only_unavailable_results() {
    let hit = |module: &str| Candidate {
        hit: SearchHit {
            name: format!("{module}.useful"),
            kind: "theorem".into(),
            signature: Some("True".into()),
            module: module.into(),
            path: format!("{}.lean", module.replace('.', "/")),
            line: 1,
            doc: None,
            source: None,
            usages: Vec::new(),
            applicable: false,
            required_import: None,
        },
        score: 10,
        origins: 0,
    };
    let context = ImportContext {
        accessible: vec!["Demo.Available".into()],
        complete: true,
        preferred_module: None,
        preferred_path: None,
    };
    let mut available = hit("Demo.Available");
    apply_import_context(&mut available, &context);
    assert_eq!(available.score, 40);
    assert!(available.hit.required_import.is_none());

    let mut unavailable = hit("Demo.Extra");
    apply_import_context(&mut unavailable, &context);
    assert_eq!(unavailable.hit.required_import.as_deref(), Some("Demo.Extra"));
}

#[test]
fn positions_are_in_bytes() {
    let source = "-- α\n/-- Über. -/\ntheorem é_x : True := trivial\n";
    let starts = line_starts(source);
    assert_eq!(starts, [0, 6, 20, 51]);
    assert_eq!(offset_line(&starts, 20), 3);
    assert_eq!(preceding_doc(source, 20).as_deref(), Some("Über."));
    let entries = parse_source(source, "M");
    assert_eq!(entries[0].name, "é_x");
    assert_eq!(entries[0].line, 3);
    assert_eq!(entries[0].signature, "True");
    assert_eq!(entries[0].docs, "Über.");
    assert_eq!(
        structure_field_header("  é' : Nat"),
        Some((2, 5, "é'".to_owned()))
    );
    let fields = parse_source("structure S where\n  é : Nat\n  β : Int\n", "M");
    let found: Vec<(&str, &str)> =
        fields.iter().map(|e| (e.name.as_str(), e.signature.as_str())).collect();
    assert!(found.contains(&("S.é", "Nat")), "{found:?}");
    assert!(found.contains(&("S.β", "Int")), "{found:?}");
}

#[test]
fn preferred_results_never_lose() {
    let candidate = |path: &str| Candidate {
        hit: SearchHit {
            name: "Demo.useful".into(),
            kind: "theorem".into(),
            signature: None,
            module: "Demo".into(),
            path: path.into(),
            line: 1,
            doc: None,
            source: None,
            usages: Vec::new(),
            applicable: false,
            required_import: None,
        },
        score: 10,
        origins: 0,
    };
    let context = ImportContext {
        accessible: vec!["Demo".into()],
        complete: true,
        preferred_module: None,
        preferred_path: Some("Demo.lean".into()),
    };
    let mut other = candidate("Other.lean");
    apply_import_context(&mut other, &context);
    let mut preferred = candidate("src/Demo.lean");
    apply_import_context(&mut preferred, &context);
    assert!(preferred.score > other.score);
    assert!(other.score > 10);
}

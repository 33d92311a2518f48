//! Names, tokens and the ranking of candidates.
use mathmux::search::display::render_summary;
use mathmux::search::exact::{anchored_api_query, resolved_exact_candidates};
use mathmux::search::fallback::symbolic_source_term;
use mathmux::search::names::{
    declaration_glob_matches, declaration_glob_query, declaration_name_query,
    declaration_suffix_base, direct_continuation_name_matches, explicit_declaration_name,
    qualified_name_matches, result_limit,
};
use mathmux::search::promote::promote_query_coverage;
use mathmux::search::rank::apply_declaration_glob;
use mathmux::search::records::{Candidate, IndexedRow, SearchHit, SearchRun};
use mathmux::search::score::{
    conclusion_query, declaration_leaf_matches, hit_name_matches, hit_query_coverage,
    lexical_score, qualified_leaf_path_score, qualified_member_score, structural_type_score,
    type_shaped, words_match,
};
use mathmux::search::tokens::{fts_query, meaningful_query_tokens};

#[test]
fn inference_reserves_positions_and_recognizes_type_patterns() {
    assert!(type_shaped("_ → Injective _"));
    assert!(!type_shaped("injective function"));
    assert!(!type_shaped("norm_inner_le_norm"));
    assert!(structural_type_score("_ → Injective _", "Bijective f → Injective f") > 0);
    assert!(
        structural_type_score(
            "⊢ Continuous (_ ∘ _)",
            "{f : X → Y} {g : Y → Z} (hf : Continuous f) (hg : Continuous g) : Continuous (g ∘ f)",
        ) > structural_type_score(
            "⊢ Continuous (_ ∘ _)",
            "(e : LocalTrivialization F E) [e.IsLinear 𝕜]",
        )
    );
    assert!(conclusion_query("⊢ _ → Injective _"));
    assert!(!conclusion_query("_ → Injective _"));
    assert_eq!(fts_query("List.map"), "\"list.map\"*");
    assert!(declaration_name_query("Finsupp.sum_add_index"));
    assert!(declaration_name_query("Ring.inverse_eq_inv'"));
    assert!(declaration_name_query("transportAmbient"));
    assert!(!declaration_name_query("Finsupp.sum add"));
    assert_eq!(
        explicit_declaration_name("theorem Bundle.Trivialization.apply_mk_symm"),
        Some("Bundle.Trivialization.apply_mk_symm")
    );
    assert_eq!(
        explicit_declaration_name("def Demo.useful proof body"),
        Some("Demo.useful")
    );
    assert_eq!(
        explicit_declaration_name("structure ContinuousLinearBundleHom fields"),
        Some("ContinuousLinearBundleHom")
    );
    assert_eq!(
        explicit_declaration_name("inductive List constructors"),
        Some("List")
    );
    assert_eq!(explicit_declaration_name("theorem search terms"), None);
    assert_eq!(
        declaration_suffix_base("Demo.longDeclaration_E"),
        Some("Demo.longDeclaration")
    );
    assert_eq!(declaration_suffix_base("short_E"), Some("short"));
    assert_eq!(declaration_suffix_base("abc_E"), None);
    assert_eq!(declaration_suffix_base("Demo.longDeclaration"), None);
    let contextual_hit = SearchHit {
        name: "Demo.projectionRange_nearby_isomorphic".into(),
        kind: "theorem".into(),
        signature: Some("Isomorphic X Y".into()),
        module: "Demo.Pullback".into(),
        path: "Demo/Pullback.lean".into(),
        line: 1,
        doc: None,
        source: None,
        usages: Vec::new(),
        applicable: false,
        required_import: None,
    };
    assert_eq!(
        hit_query_coverage(
            &contextual_hit,
            &vec![
                "projectionrange".into(),
                "pullback".into(),
                "isomorphic".into()
            ]
        ),
        (3, 33, 2, 25)
    );
    let mut ranked = vec![
        Candidate {
            hit: SearchHit {
                name: "circleMap_neg_radius".into(),
                signature: Some("circleMap c r".into()),
                ..contextual_hit.copy()
            },
            score: 100,
            origins: 0,
        },
        Candidate {
            hit: SearchHit {
                name: "Demo.CircleSeparatedOnRadius.continuousOn_resolvent".into(),
                signature: None,
                ..contextual_hit.copy()
            },
            score: 10,
            origins: 0,
        },
    ];
    let tokens = meaningful_query_tokens("CircleSeparatedOnRadius circleMap");
    promote_query_coverage(&mut ranked, "CircleSeparatedOnRadius circleMap", &tokens);
    assert!(ranked[0].hit.name.contains("CircleSeparatedOnRadius"));
    assert_eq!(symbolic_source_term("*ᵥ"), Some("*ᵥ".to_owned()));
    assert_eq!(symbolic_source_term("≤"), Some("≤".to_owned()));
    assert_eq!(symbolic_source_term("*"), None);
    assert_eq!(symbolic_source_term("ordinary"), None);
    assert_eq!(symbolic_source_term("A *ᵥ x"), None);
    assert!(declaration_glob_query("FiberBundle.*equiv"));
    assert!(!declaration_glob_query("*ᵥ"));
    assert!(declaration_glob_matches(
        "Demo.FiberBundle.local_equiv",
        "FiberBundle.*equiv"
    ));
    assert!(declaration_glob_matches(
        "Demo.matrixToEuclideanCLM_mul",
        "matrixToEuclideanCLM.*mul"
    ));
    assert!(declaration_glob_matches(
        "Demo.projectionRangePretrivializationAt_totalSpaceMk_isInducing",
        "projectionRange.*IsInducing"
    ));
    assert!(declaration_glob_matches(
        "Demo.projectionRangeInclusionHom",
        "projectionRange.*Inclusion*"
    ));
    assert!(!declaration_glob_matches(
        "Demo.FiberBundle.local_equiv_apply",
        "FiberBundle.*equiv"
    ));
    let mut relational = vec![Candidate {
        hit: SearchHit {
            name: "ContinuousLinearMap.intervalIntegral_comp_comm".into(),
            ..contextual_hit.copy()
        },
        score: 10,
            origins: 0,
    }];
    assert!(apply_declaration_glob(&mut relational, "Matrix.*integral"));
    assert_eq!(relational.len(), 1);
    relational.push(Candidate {
        hit: SearchHit {
            name: "Demo.Matrix_entry_integral".into(),
            ..contextual_hit.copy()
        },
        score: 5,
            origins: 0,
    });
    assert!(!apply_declaration_glob(&mut relational, "Matrix.*integral"));
    assert_eq!(relational.len(), 1);
    assert_eq!(relational[0].hit.name, "Demo.Matrix_entry_integral");
    assert!(qualified_name_matches(
        "AtiyahSinger.ComplexVectorSubbundle.transportAmbient",
        "ComplexVectorSubbundle.transportAmbient"
    ));
    assert!(!qualified_name_matches(
        "AtiyahSinger.ComplexVectorSubbundle.transportAmbient",
        "VectorSubbundle.transportAmbient"
    ));
    let resolved = resolved_exact_candidates(
        &vec![
            Candidate {
                hit: SearchHit {
                    name: "NumberField.Units".into(),
                    ..contextual_hit.copy()
                },
                score: 20,
            origins: 0,
            },
            Candidate {
                hit: SearchHit {
                    name: "Units".into(),
                    ..contextual_hit.copy()
                },
                score: 10,
            origins: 0,
            },
        ],
        "Units",
    )
    .unwrap();
    assert_eq!(resolved.len(), 1);
    assert_eq!(resolved[0].hit.name, "Units");
    assert_eq!(result_limit(true, false), 8);
    assert_eq!(result_limit(true, true), 24);
    assert_eq!(result_limit(false, false), 24);
    assert!(direct_continuation_name_matches(
        "AtiyahSinger.Topology.VectorBundle.MatrixGL.circleResolventFunction_commutes_on_sphere",
        "circleResolventFunction_commutes"
    ));
    assert!(direct_continuation_name_matches(
        "AtiyahSinger.Topology.VectorBundle.MatrixGL.circleResolventFunction_commutes_on_sphere",
        "MatrixGL.circleResolventFunction_commutes"
    ));
    assert!(direct_continuation_name_matches(
        "WithLp.ext_iff",
        "WithLp.ext"
    ));
    assert!(!direct_continuation_name_matches(
        "AtiyahSinger.Topology.VectorBundle.Other.circleResolventFunction_commutes_on_sphere",
        "MatrixGL.circleResolventFunction_commutes"
    ));
    assert_eq!(meaningful_query_tokens("precomp (L :=)"), vec!["precomp"]);
    assert_eq!(
        meaningful_query_tokens("exact? eTarget.symm"),
        vec!["etarget.symm"]
    );
    assert_eq!(
        meaningful_query_tokens("simpa only [precomp_classOf, ContinuousMap.comp_assoc]"),
        vec![
            "precomp_classof",
            "continuousmap.comp_assoc",
            "precomp",
            "comp",
            "assoc"
        ]
    );
    assert_eq!(
        meaningful_query_tokens("name LinearEquiv.ofFinrankEq"),
        vec!["linearequiv.offinrankeq", "finrank"]
    );
    let anchored =
        anchored_api_query("bottProjectionMatrix selfAdjoint|conjTranspose|mul_self|one_sub")
            .unwrap();
    assert_eq!(anchored.anchor, "bottProjectionMatrix");
    assert!(anchored.tokens.contains(&"mul_self".into()));
    assert_eq!(
        anchored.requested,
        vec!["conjtranspose", "mul_self", "one_sub", "selfadjoint"]
    );
    assert!(anchored_api_query("continuous map compact support").is_none());
    assert_eq!(
        meaningful_query_tokens("LinearEquiv.ofFinrankEq --all"),
        vec!["linearequiv.offinrankeq", "finrank"]
    );
    assert_eq!(
        meaningful_query_tokens("LinearMap.rangeEquiv"),
        vec!["linearmap.rangeequiv", "range", "equiv"]
    );
    assert!(
        qualified_member_score("LinearMap.rangeEquiv", "LinearMap.quotKerEquivRange")
            > qualified_member_score("LinearMap.rangeEquiv", "Algebra.linearMap")
    );
    assert!(
        qualified_member_score("LinearMap.rangeEquiv", "LinearMap.kerComplementEquivRange")
            > qualified_member_score("LinearMap.rangeEquiv", "LinearMap.range")
    );
    assert!(qualified_member_score("LinearEquiv.ofSurjective", "LinearEquiv.ofBijective") > 90);
    assert_eq!(
        qualified_leaf_path_score(
            "KZero.add",
            "AtiyahSinger.ComplexVectorBundle.add",
            "AtiyahSinger.ComplexVectorBundleKZero",
            "AtiyahSinger/ComplexVectorBundleKZero.lean"
        ),
        280
    );
    assert_eq!(
        qualified_leaf_path_score(
            "BundleClass.add",
            "AtiyahSinger.ComplexVectorBundle.add",
            "AtiySinger.ComplexVectorBundleKZero",
            "AtiyahSinger/ComplexVectorBundleKZero.lean"
        ),
        60
    );
    assert_eq!(
        meaningful_query_tokens("finite_trivialization_cover proof body"),
        vec![
            "finite_trivialization_cover",
            "finite",
            "trivialization",
            "cover"
        ]
    );
    assert_eq!(
        meaningful_query_tokens("elementaryTransvectionLoop_homotopic_one"),
        vec![
            "elementarytransvectionloop_homotopic_one",
            "elementary",
            "transvection",
            "loop",
            "homotopic",
            "one"
        ]
    );
    assert_eq!(
        meaningful_query_tokens("adapter weights to complex"),
        vec!["adapter", "weights", "complex"]
    );
    assert!(words_match("weight", "weights"));
    assert!(hit_name_matches(
        "Matrix.conjTranspose_mul",
        "matrix.conjtranspose_mul"
    ));
    assert!(declaration_leaf_matches(
        "AtiyahSinger.ContinuousLinearBundleHom.matrixEquiv",
        "ContinuousLinearBundleHom matrixEquiv"
    ));
    assert!(!declaration_leaf_matches(
        "AtiyahSinger.ContinuousLinearBundleHom.matrixEquiv_apply",
        "ContinuousLinearBundleHom matrixEquiv"
    ));
    let named_row = |name: &str| IndexedRow {
        owner: "workspace:w1".into(),
        path: "Demo.lean".into(),
        module: "Demo".into(),
        line: 1,
        name: name.into(),
        kind: "structure".into(),
        signature: String::new(),
        docs: String::new(),
        body: String::new(),
    };
    let tokens = meaningful_query_tokens("HermitianBundleMetric");
    assert!(
        lexical_score(
            "HermitianBundleMetric",
            &tokens,
            &named_row("AtiyahSinger.HermitianBundleMetric")
        ) > lexical_score(
            "HermitianBundleMetric",
            &tokens,
            &named_row("AtiyahSinger.Bundle.Trivial.hermitianBundleMetric")
        )
    );
    let summary = render_summary(&SearchRun {
        reference: "q1".into(),
        workspace_ref: "w1".into(),
        query: "demo".into(),
        inference: "hybrid".into(),
        hits: Vec::new(),
        note: None,
        duration_ms: 123,
        created_at: 0,
    });
    assert_eq!(summary, "q1 no results");
}

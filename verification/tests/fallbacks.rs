//! Candidates from sources alone.
use mathmux::search::fallback::{
    direct_module_paths, fallback_paths, fallback_source_candidates, source_scan_path_counts,
    FallbackFile,
};
use mathmux::search::records::Candidate;
use mathmux::search::tokens::meaningful_query_tokens;

fn file(path: &str, source: &str) -> FallbackFile {
    FallbackFile {
        module: path.trim_end_matches(".lean").replace('/', "."),
        path: path.into(),
        source: source.into(),
        direct: false,
    }
}

fn found(query: &str, files: Vec<FallbackFile>) -> Vec<Candidate> {
    fallback_source_candidates(query, &meaningful_query_tokens(query), &files, 0)
}

fn names(hits: &[Candidate]) -> Vec<&str> {
    hits.iter().map(|hit| hit.hit.name.as_str()).collect()
}

#[test]
fn warming_fallback_finds_local_dependency_declarations() {
    let hits = fallback_source_candidates(
        "Bundle.ContinuousLinearMap.topologicalSpaceTotalSpace",
        &vec!["bundle.continuouslinearmap.topologicalspacetotalspace".into()],
        &vec![file(
            "Demo/Api.lean",
            "namespace Bundle.ContinuousLinearMap\n\nclass topologicalSpaceTotalSpace : Prop where\n  value : True\n\nend Bundle.ContinuousLinearMap\n",
        )],
        0,
    );
    assert!(hits
        .iter()
        .any(|hit| hit.hit.name == "Bundle.ContinuousLinearMap.topologicalSpaceTotalSpace"));
}

#[test]
fn fallback_finds_symbolic_notation_literally() {
    let hits =
        found("*ᵥ", vec![file("Notation.lean", "def vectorAction (a : α) (v : β) := a *ᵥ v\n")]);
    assert!(hits.iter().any(|hit| hit.hit.name == "vectorAction"));
}

#[test]
fn fallback_prefers_declarations_over_whole_file_matches() {
    let hits = found(
        "continuous support closure zero neighborhood",
        vec![file(
            "Support.lean",
            "theorem continuous_of_support (f : α → β) : Continuous f := by sorry\n-- closure support zero neighborhood\n",
        )],
    );
    assert_eq!(hits[0].hit.name, "continuous_of_support");
}

#[test]
fn fallback_opens_an_explicit_module_before_broad_matches() {
    let query = "Mathlib.Topology.Support Function.support";
    assert!(direct_module_paths(query).contains(&"Mathlib/Topology/Support.lean".to_owned()));
    let mut support =
        file("Mathlib/Topology/Support.lean", "theorem support_fact : True := trivial\n");
    support.direct = true;
    let hits = found(query, vec![support]);
    assert!(hits.iter().any(|hit| hit.hit.name == "support_fact"), "{:?}", names(&hits));
}

#[test]
fn fallback_keeps_lower_camel_declarations_in_broad_queries() {
    let hits = found(
        "ContinuousMap pointwise IsUnit iff global IsUnit and unitsLift construction",
        vec![file(
            "Mathlib/Topology/ContinuousMap/Units.lean",
            "namespace ContinuousMap\ndef unitsLift : True := trivial\ntheorem isUnit_iff_forall_isUnit : True := trivial\nend ContinuousMap\n",
        )],
    );
    assert!(hits.iter().take(5).any(|hit| hit.hit.name == "ContinuousMap.unitsLift"));
    assert!(hits
        .iter()
        .take(5)
        .any(|hit| hit.hit.name == "ContinuousMap.isUnit_iff_forall_isUnit"));
}

#[test]
fn fallback_opens_explicit_lean_file_import_lists() {
    let mut root = file("Root.lean", "import Demo.One\nimport Demo.Two\n");
    root.direct = true;
    let hits = found("root Root.lean import list", vec![root]);
    assert_eq!(hits[0].hit.name, "Root.imports");
    assert_eq!(hits[0].hit.source.as_deref(), Some("import Demo.One\nimport Demo.Two"));
}

#[test]
fn fallback_reserves_tied_coverage_for_project_sources() {
    let mut scanned = Vec::new();
    for index in 0..100 {
        scanned.push((format!("/w/.lake/packages/demo/Mathlib/Noise{index}.lean"), 3));
    }
    scanned.push(("/w/Metric.lean".to_owned(), 3));
    let paths = fallback_paths(&Vec::new(), &scanned, Some("/w/.lake/packages"));
    assert!(paths.contains(&"/w/Metric.lean".to_owned()));
    let hits = found(
        "finite continuous sum",
        vec![file(
            "Metric.lean",
            "theorem project_weightedSum : True := by trivial\n-- finite continuous sum\n",
        )],
    );
    assert!(hits.iter().any(|hit| hit.hit.name == "project_weightedSum"));
}

#[test]
fn fallback_connects_trivialization_at_to_linearity_instance() {
    let hits = found(
        "linear_trivializationAt isLinear_trivializationAt VectorBundle.trivializationAt",
        vec![file(
            "Basic.lean",
            "namespace VectorBundle\ninstance (priority := 100) trivialization_linear : e.IsLinear R := inferInstance\nend VectorBundle\n",
        )],
    );
    assert!(hits.iter().any(|hit| hit.hit.name == "VectorBundle.trivialization_linear"));
}

#[test]
fn fallback_connects_conceptual_inner_product_api_terms() {
    let source = "namespace InnerProductSpace\ndef ofCore (c : Core K E) : InnerProductSpace K E := by sorry\nend InnerProductSpace\nnamespace Submodule\ntheorem sup_orthogonal_of_hasOrthogonalProjection [K.HasOrthogonalProjection] : K ⊔ Kᗮ = ⊤ := by sorry\nend Submodule\n";
    for (query, expected) in [
        ("InnerProductSpace.Core.toInnerProductSpace constructor", "InnerProductSpace.ofCore"),
        (
            "orthogonal complement finite dimensional sup top",
            "Submodule.sup_orthogonal_of_hasOrthogonalProjection",
        ),
    ] {
        let hits = found(query, vec![file("Inner.lean", source)]);
        assert!(hits.iter().any(|hit| hit.hit.name == expected), "{query}: {:?}", names(&hits));
    }
}

#[test]
fn fallback_honors_named_argument_queries() {
    let hits = found(
        "precomp (L :=)",
        vec![file(
            "Precomp.lean",
            "namespace CategoryTheory\ndef precomp (α : X) := α\nend CategoryTheory\nnamespace ContinuousLinearMap\ndef precomp (G) (L : E → F) := L\nend ContinuousLinearMap\n",
        )],
    );
    assert_eq!(hits[0].hit.name, "ContinuousLinearMap.precomp", "{:?}", names(&hits));
    assert!(hits[0].hit.signature.as_deref().unwrap().contains("(L : E → F)"));
}

#[test]
fn scans_count_the_terms_of_each_file() {
    let counts = source_scan_path_counts("/w/A.lean:3\n/w/B:C.lean:12\nnonsense\n");
    assert_eq!(counts, [("/w/A.lean".to_owned(), 3), ("/w/B:C.lean".to_owned(), 12)]);
}

#[test]
fn fallback_respects_qualified_member_owner_order() {
    let hits = found(
        "InnerProductSpace.Core.definite PreInnerProductSpace.Core.conj_inner_symm",
        vec![file(
            "Core.lean",
            "structure PreInnerProductSpace.Core where\n  conj_inner_symm : True\nstructure InnerProductSpace.Core extends PreInnerProductSpace.Core where\n  definite : True\n",
        )],
    );
    assert_eq!(hits[0].hit.name, "InnerProductSpace.Core");
    assert!(hits[0]
        .hit
        .signature
        .as_deref()
        .unwrap()
        .contains("InnerProductSpace.Core.toPreInnerProductSpaceCore"));
}

#[test]
fn fallback_includes_root_qualified_member_owner_structure() {
    let hits = found(
        "HermitianBundleMetric.pos_inner continuity WhitneySquare",
        vec![file(
            "Metric.lean",
            "namespace AtiyahSinger\nstructure HermitianBundleMetric where\n  inner : True\n  continuous : True\nnamespace HermitianBundleMetric\ntheorem pos_inner : True := trivial\nend HermitianBundleMetric\nend AtiyahSinger\n",
        )],
    );
    assert_eq!(hits[0].hit.name, "AtiyahSinger.HermitianBundleMetric");
    assert!(hits[0].hit.source.as_deref().unwrap().contains("continuous : True"));
}

#[test]
fn owners_come_in_the_order_of_the_query() {
    let files = || {
        vec![file(
            "Two.lean",
            "structure First where\n  one : True\nstructure Second where\n  two : True\n",
        )]
    };
    let hits = found("Second.two First.one", files());
    assert_eq!(names(&hits)[..2], ["Second", "First"]);
    let hits = found("First.one Second.two", files());
    assert_eq!(names(&hits)[..2], ["First", "Second"]);
}

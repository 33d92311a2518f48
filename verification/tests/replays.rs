//! Searches that were made, with what they have to show first.
use mathmux::search::promote::rank_discovery_candidates;
use mathmux::search::records::{Candidate, SearchHit};
use mathmux::search::tokens::meaningful_query_tokens;

fn candidate(name: &str, score: i64) -> Candidate {
    Candidate {
        hit: SearchHit {
            name: name.into(),
            kind: "theorem".into(),
            signature: None,
            module: String::new(),
            path: format!("{name}.lean"),
            line: 1,
            doc: None,
            source: None,
            usages: Vec::new(),
            applicable: false,
            required_import: None,
        },
        score,
        origins: 1,
    }
}

fn replay(query: &str, candidates: &[(&str, i64)], first: &str, among_five: &[&str]) {
    let list = candidates.iter().map(|(name, score)| candidate(name, *score)).collect();
    let (ranked, _) =
        rank_discovery_candidates(list, query, &meaningful_query_tokens(query), false, None);
    let names: Vec<&str> = ranked.iter().map(|c| c.hit.name.as_str()).collect();
    assert_eq!(names[0], first, "{names:?}");
    for name in among_five {
        assert!(names.iter().take(5).any(|n| n == name), "{names:?}");
    }
}

#[test]
fn replay_prefers_the_named_alternative() {
    replay(
        "matrixToeplitzOperator_add|matrixToeplitzOperator_smul",
        &[
            ("smul_add_smul_le_smul_add_smul", 500),
            ("AtiyahSinger.matrixToeplitzOperator_isFredholm", 100),
            ("AtiyahSinger.matrixToeplitzOperator_add", 50),
        ],
        "AtiyahSinger.matrixToeplitzOperator_add",
        &["AtiyahSinger.matrixToeplitzOperator_isFredholm"],
    );
}

#[test]
fn replay_prefers_the_longer_name() {
    replay(
        "Bundle.Trivial.continuousLinearMapAt|continuousLinearMapAt_trivial",
        &[
            ("Bundle.Trivial", 500),
            ("Bundle.Trivial.continuousLinearMapAt_trivialization", 100),
        ],
        "Bundle.Trivial.continuousLinearMapAt_trivialization",
        &["Bundle.Trivial"],
    );
}

#[test]
fn replay_applies_wildcards() {
    replay(
        "CircleClutching.*homotopy|TransitionHomotopy|ClutchingBundle.*homotopy",
        &[
            ("AtiyahSinger.ComplexVectorBundle.thickOverlapTransition_homotopyClass_eq", 500),
            ("AtiyahSinger.CircleClutchingTransitionHomotopy.forward_homotopy", 80),
            ("AtiyahSinger.CircleClutchingTransitionHomotopy", 70),
            ("AtiyahSinger.circleClutchingArcHomotopy", 60),
        ],
        "AtiyahSinger.CircleClutchingTransitionHomotopy.forward_homotopy",
        &[
            "AtiyahSinger.CircleClutchingTransitionHomotopy",
            "AtiyahSinger.circleClutchingArcHomotopy",
        ],
    );
}

#[test]
fn replay_prefers_exact_members() {
    replay(
        "ContinuousLinearMap.stabilizationAssembly_apply|ContinuousLinearMap.prodMap_apply|matrixToeplitzOperatorGLParametric_apply",
        &[
            ("AtiyahSinger.ContinuousLinearMap.stabilizationKernelEquiv", 500),
            ("AtiyahSinger.ContinuousLinearMap.stabilizationAssembly_apply", 80),
            ("AtiyahSinger.matrixToeplitzOperatorGLParametric_apply", 70),
        ],
        "AtiyahSinger.ContinuousLinearMap.stabilizationAssembly_apply",
        &["AtiyahSinger.matrixToeplitzOperatorGLParametric_apply"],
    );
}

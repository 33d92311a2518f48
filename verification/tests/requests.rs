//! Search requests and their refusals.
use mathmux::search::api::{SearchExpression, SearchRequest};
use mathmux::search::bridge::normalize_lean_inspection_query;

#[test]
fn parses_forced_query_classes_without_fallback() {
    assert_eq!(
        SearchRequest::parse("name:A.B|C.D", None, false).unwrap().expression,
        SearchExpression::ExactNames(vec!["A.B".into(), "C.D".into()])
    );
    assert_eq!(
        SearchRequest::parse("type:_ ≃L[ℂ] F", None, false).unwrap().expression,
        SearchExpression::Type("_ ≃L[ℂ] F".into())
    );
    assert_eq!(
        SearchRequest::parse("Mathlib re:/foo|bar/", None, false).unwrap().expression,
        SearchExpression::Regex("Mathlib /foo|bar/".into())
    );
    assert!(SearchRequest::parse("type:(Nat → Nat", None, false).is_err());
}

#[test]
fn rejects_removed_legacy_forms() {
    assert!(SearchRequest::parse("q12 more", None, false).is_err());
    assert!(SearchRequest::parse("c12 repair", None, false).is_err());
    assert!(SearchRequest::parse("#check Nat", None, false).is_err());
    assert!(SearchRequest::parse("theorem name:foo", None, false).is_err());
}

#[test]
fn explains_exact_name_batch_syntax() {
    let error = SearchRequest::parse("name:A B", None, false).unwrap_err();
    assert_eq!(error.to_text(), "name: accepts one name or a `|` batch");
    let error = SearchRequest::parse("name:A|", None, false).unwrap_err();
    assert_eq!(error.to_text(), "invalid exact-name batch; use name:A|B|C (no spaces)");
    let error = SearchRequest::parse("name:*FinalCriterion*", None, false).unwrap_err();
    assert_eq!(
        error.to_text(),
        "name: is exact-only; use `mathmux search 'declaration *FinalCriterion*'` for wildcard discovery or name:A|B|C for an exact batch"
    );
    let error = SearchRequest::parse("name:A|name:B", None, false).unwrap_err();
    assert_eq!(error.to_text(), "name: accepts one prefix; use `name:A|B` for an exact batch");
}

#[test]
fn rejects_malformed_pasted_fragments_before_search() {
    let error = SearchRequest::parse("Fin (n + m)))))", None, false).unwrap_err();
    assert!(error.to_text().contains("malformed search fragment"));
    assert!(error.to_text().contains("type:Fin (n + m)))))"));
    assert!(error.to_text().contains("FILE:LINE"));

    let error = SearchRequest::parse("foo \"bar", None, false).unwrap_err();
    assert!(error.to_text().contains("unterminated string literal"));
}

#[test]
fn lean_inspection_syntax_normalizes_to_search_terms() {
    assert_eq!(normalize_lean_inspection_query("@Demo.useful"), "Demo.useful");
    assert_eq!(normalize_lean_inspection_query("@Demo.useful x y MORE"), "Demo.useful MORE");
    assert_eq!(normalize_lean_inspection_query("#check Demo.useful"), "Demo.useful");
    assert_eq!(normalize_lean_inspection_query("#print @Demo.useful x"), "Demo.useful");
    assert_eq!(
        normalize_lean_inspection_query("#synth TopologicalSpace X"),
        "TopologicalSpace X"
    );
    assert_eq!(normalize_lean_inspection_query("⊢ Continuous f"), "⊢ Continuous f");
    assert_eq!(
        normalize_lean_inspection_query(r"Finset.min\x27_mem|Finset.isLeast_min\'"),
        "Finset.min'_mem|Finset.isLeast_min'"
    );
}

#[test]
fn empty_searches_are_refused() {
    let error = SearchRequest::parse("   ", None, false).unwrap_err();
    assert_eq!(error.to_text(), "search query is empty");
    let request = SearchRequest::parse("continuous map", Some(3), true).unwrap();
    assert_eq!(request.expression, SearchExpression::Query("continuous map".into()));
    assert_eq!(request.limit, Some(3));
    assert!(request.all);
}

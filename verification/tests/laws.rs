//! What holds of every input, on some of them.
use mathmux::order::rank;
use mathmux::search::bridge::promote_bridge_candidate;
use mathmux::search::constructors::inductive_constructors;
use mathmux::search::conversion::{
    application_laws, coerced_inverse_query, failure_context, is_type_conflict,
};
use mathmux::search::diagnostics::{edit_distance, truncate_middle};
use mathmux::search::dossier::{collect_phrases, contract_rows_query, keep_once_named};
use mathmux::search::exact::{
    exact_search_result, missing_hit_terms, resolved_exact_candidates, suppress_inferred_missing_note,
    unique_qualified_hit_name,
};
use mathmux::search::excerpt::best_source_match;
use mathmux::search::fragment::validate_balanced_fragment;
use mathmux::search::locations::{location_excerpt_bounds, parse_source_location};
use mathmux::search::modules::{generated_declarations, reference_name, ReferenceRecord};
use mathmux::search::names::{
    exact_declaration_name_matches, qualified_name_matches, require_submission_refinement,
};
use mathmux::search::occurrences::parse_source_occurrence_query;
use mathmux::search::promote::rank_discovery_candidates;
use mathmux::search::rank::{merge_duplicate_hit, sort_and_merge_candidates};
use mathmux::search::records::{Candidate, IndexedRow, SearchHit, SearchUsage};
use mathmux::search::source::mask_comments;
use mathmux::search::spans::{declaration_spans, enclosing_declaration_span};
use mathmux::search::tokens::{change_digits, fts_query, numeric_subscript_alias, without_repeats};
use mathmux::search::tree::SourceTree;
use mathmux::search::type_worker::{
    flatten_query, startup_detail, TypeSearchHit, TypeSearchResponse, TypeSearchWorker,
};
use mathmux::state::store::State;
use mathmux::text::layout::{shell_argument, short_hash, single_line, truncate_line};
use mathmux::text::number::{parse_u64, show};

fn hit(name: &str) -> SearchHit {
    SearchHit {
        name: name.into(),
        kind: "theorem".into(),
        signature: None,
        module: "Demo".into(),
        path: "Demo.lean".into(),
        line: 1,
        doc: None,
        source: None,
        usages: Vec::new(),
        applicable: false,
        required_import: None,
    }
}

fn candidate(name: &str, score: i64) -> Candidate {
    Candidate { hit: hit(name), score, origins: 1 }
}

fn row(name: &str, signature: &str) -> IndexedRow {
    IndexedRow {
        owner: "o".into(),
        path: "Demo.lean".into(),
        module: "Demo".into(),
        line: 1,
        name: name.into(),
        kind: "theorem".into(),
        signature: signature.into(),
        docs: String::new(),
        body: String::new(),
    }
}

fn texts(list: &[&str]) -> Vec<String> {
    list.iter().map(|t| (*t).to_owned()).collect()
}

fn names(list: &[Candidate]) -> Vec<&str> {
    list.iter().map(|c| c.hit.name.as_str()).collect()
}

fn tree(files: &[&str]) -> SourceTree {
    SourceTree {
        root: "/w".into(),
        real_root: "/w".into(),
        cwd: "/w".into(),
        packages: None,
        package_roots: Vec::new(),
        project_files: texts(files),
        package_files: Vec::new(),
        files: files.iter().map(|f| (format!("/w/{f}"), format!("/w/{f}"))).collect(),
        directories: Vec::new(),
    }
}

#[test]
fn rankings_are_stable_permutations() {
    let keys = vec![vec![2, 0], vec![1, 9], vec![2, 0], vec![1, 3]];
    assert_eq!(rank(&keys), [3, 1, 0, 2]);
}

#[test]
fn discoveries_keep_their_candidates() {
    let list = vec![
        candidate("Demo.alpha_beta", 5),
        candidate("Demo.gamma", 9),
        candidate("Demo.alpha", 7),
        candidate("Other.beta", 3),
    ];
    let (ranked, missed) =
        rank_discovery_candidates(list, "alpha beta", &texts(&["alpha", "beta"]), false, None);
    let mut found = names(&ranked);
    assert_eq!(found[0], "Demo.alpha_beta");
    found.sort_unstable();
    assert_eq!(found, ["Demo.alpha", "Demo.alpha_beta", "Demo.gamma", "Other.beta"]);
    assert!(!missed);
}

#[test]
fn announced_names_come_first() {
    let list = vec![candidate("Demo.gamma", 9), candidate("Demo.alpha", 1)];
    let (ranked, _) =
        rank_discovery_candidates(list, "Demo.alpha", &texts(&["demo.alpha"]), true, None);
    assert_eq!(names(&ranked), ["Demo.alpha", "Demo.gamma"]);
}

#[test]
fn duplicates_are_merged_into_the_best() {
    let mut signed = candidate("Demo.alpha", 1);
    signed.hit.signature = Some("Nat".into());
    signed.origins = 4;
    let merged = sort_and_merge_candidates(&vec![
        signed,
        candidate("Demo.beta", 3),
        candidate("Demo.alpha", 8),
    ]);
    assert_eq!(names(&merged), ["Demo.alpha", "Demo.beta"]);
    assert_eq!(merged[0].score, 8);
    assert_eq!(merged[0].origins, 5);
    assert_eq!(merged[0].hit.signature.as_deref(), Some("Nat"));
    let mut once = hit("Demo.alpha");
    let mut more = hit("Demo.alpha");
    more.doc = Some("told".into());
    merge_duplicate_hit(&mut once, &more);
    let first = format!("{once:?}");
    merge_duplicate_hit(&mut once, &more);
    assert_eq!(format!("{once:?}"), first);
}

#[test]
fn bridges_come_second() {
    let usage =
        || SearchUsage { path: "Use.lean".into(), line: 3, context: Some("Demo.use".into()) };
    let mut first = candidate("Demo.alpha", 9);
    first.hit.usages = vec![usage()];
    let mut third = candidate("Demo.beta", 1);
    third.hit.usages = vec![usage()];
    let mut ranked = vec![first, candidate("Demo.other", 5), third];
    let note = promote_bridge_candidate(&mut ranked, &texts(&["alpha", "beta"]));
    assert!(note.is_some());
    assert_eq!(names(&ranked), ["Demo.alpha", "Demo.beta", "Demo.other"]);
}

#[test]
fn names_resolve_to_one_declaration() {
    let list = vec![
        candidate("Demo.alpha", 1),
        candidate("_root_.Demo.alpha", 2),
        candidate("Other.alpha", 3),
    ];
    let found = resolved_exact_candidates(&list, "Demo.alpha").unwrap();
    assert_eq!(names(&found), ["Demo.alpha", "_root_.Demo.alpha"]);
    assert!(resolved_exact_candidates(&list, "alpha").is_none());
    assert_eq!(
        unique_qualified_hit_name(&vec![hit("Demo.alpha"), hit("Other.beta")], "beta").as_deref(),
        Some("other.beta")
    );
    assert!(qualified_name_matches("_root_.Demo.alpha", "alpha"));
    assert!(qualified_name_matches("Demo.alpha₁", "alpha1"));
    assert!(exact_declaration_name_matches("_root_.Demo.alpha", "Demo.alpha"));
    assert!(!exact_declaration_name_matches("A.Demo.alpha", "Demo.alpha"));
}

#[test]
fn missing_terms_are_told_once() {
    let hits = vec![hit("Demo.alpha")];
    assert_eq!(
        missing_hit_terms(&hits, &texts(&["alpha", "beta", "c1", "c2", "c3", "c4"])),
        ["beta", "c1", "c2", "c3"]
    );
    let result = exact_search_result(hits, false);
    assert!(result.ok);
    assert_eq!(result.inference, "exact");
    let mut note = None;
    suppress_inferred_missing_note(&mut note);
    assert!(note.is_none());
}

#[test]
fn the_best_line_has_the_most_around_it() {
    let mut list = vec!["alpha"; 1];
    list.resize(40, "-");
    list.push("alpha here");
    list.push("beta there");
    assert_eq!(best_source_match(&list, &texts(&["alpha", "beta"])), Some(40));
    assert_eq!(best_source_match(&list, &texts(&["gamma"])), None);
    assert_eq!(best_source_match(&list, &texts(&["alpha"])), Some(0));
}

#[test]
fn texts_keep_to_their_limits() {
    assert_eq!(truncate_line("abcdef", 4), "abc…");
    assert_eq!(truncate_line("abcd", 4), "abcd");
    assert_eq!(single_line(" a\n  b\tc "), "a b c");
    assert_eq!(shell_argument("Demo.lean"), "Demo.lean");
    assert_eq!(shell_argument("a \"b\" $c"), "\"a \\\"b\\\" \\$c\"");
    assert_eq!(short_hash("0123456789abcdef").len(), 12);
    assert!(truncate_middle(&"x".repeat(500), 100).chars().count() <= 100);
    assert_eq!(show(907), "907");
    assert_eq!(parse_u64("907"), Some(907));
    assert_eq!(parse_u64("18446744073709551616"), None);
}

#[test]
fn distances_are_symmetric() {
    assert_eq!(edit_distance("kitten", "sitting"), 3);
    assert_eq!(edit_distance("sitting", "kitten"), 3);
    assert_eq!(edit_distance("same", "same"), 0);
    assert_eq!(edit_distance("compp", "comp"), 1);
    assert_eq!(edit_distance("", "abc"), 3);
    assert!(
        edit_distance("kitten", "sitting")
            <= edit_distance("kitten", "mitten") + edit_distance("mitten", "sitting")
    );
}

#[test]
fn fragments_are_balanced_or_refused() {
    assert!(validate_balanced_fragment("(a [b] {c})").is_ok());
    assert!(validate_balanced_fragment("(a [b)]").is_err());
    assert!(validate_balanced_fragment("(a").is_err());
}

#[test]
fn masking_keeps_every_place() {
    let source = "a -- b\n/- c\nd -/ e";
    let masked = mask_comments(source);
    assert_eq!(masked.len(), source.len());
    assert_eq!(masked, "a     \n    \n     e");
    assert_eq!(mask_comments("--é"), "    ");
    let source = "x -- α\n\"-- ∀\" /- /- 𝔽 -/\nλ -/ y";
    let masked = mask_comments(source);
    assert_eq!(masked.len(), source.len());
    for (before, after) in source.bytes().zip(masked.bytes()) {
        assert!(before == after || after == b' ');
        assert_eq!(before == b'\n', after == b'\n');
    }
    assert!(masked.contains("\"-- ∀\""));
    assert_eq!(mask_comments(&masked), masked);
}

#[test]
fn the_last_span_around_a_line_counts() {
    let spans = declaration_spans("theorem a : True := by\n  trivial\n\ntheorem b : True := trivial\n", "M");
    assert_eq!(spans.len(), 2);
    assert_eq!(enclosing_declaration_span(&spans, 2), Some(0));
    assert_eq!(enclosing_declaration_span(&spans, 4), Some(1));
    assert_eq!(enclosing_declaration_span(&spans, 400), None);
}

#[test]
fn constructors_begin_in_the_order_of_their_lines() {
    let list = inductive_constructors(
        "Tree",
        "inductive Tree where\n  | leaf : Tree\n  | node (l r : Tree) : Tree\n",
    );
    let found: Vec<(&str, u64)> = list.iter().map(|c| (c.name.as_str(), c.line_offset)).collect();
    assert_eq!(found, [("Tree.leaf", 1), ("Tree.node", 2)]);
}

#[test]
fn digits_have_two_spellings() {
    assert_eq!(change_digits("h₁₂", false), "h12");
    assert_eq!(change_digits("h12", true), "h₁₂");
    assert_eq!(numeric_subscript_alias("h12").as_deref(), Some("h₁₂"));
    assert_eq!(numeric_subscript_alias("h"), None);
    assert_eq!(without_repeats(&texts(&["a", "b", "a"])), ["a", "b"]);
    assert_eq!(fts_query("List.map foo"), "\"list.map\"* OR \"foo\"*");
}

#[test]
fn windows_hold_their_line() {
    let source = (1..=100).map(|n| format!("line {n}\n")).collect::<String>();
    for line in [1, 50, 100] {
        let (first, last) = location_excerpt_bounds(&source, line, 10);
        assert!(first <= line && line <= last, "{first} {line} {last}");
    }
    let at = parse_source_location(&tree(&["Demo.lean"]), None, "Demo.lean:7").unwrap().unwrap();
    assert_eq!(at.line, Some(7));
    assert_eq!(at.path, "/w/Demo.lean");
    assert!(parse_source_location(&tree(&["Demo.lean"]), None, "List.map").unwrap().is_none());
}

#[test]
fn requests_join_their_ranges() {
    let files = tree(&["Demo.lean"]);
    let joined =
        parse_source_occurrence_query(&files, None, "Demo.lean:9-12 | Demo.lean:2-4").unwrap().unwrap();
    let mut ranges = vec![(joined.first_line, joined.last_line)];
    ranges.extend(joined.additional_ranges.iter().copied());
    assert_eq!(ranges, [(2, 4), (9, 12)]);
}

#[test]
fn generated_declarations_are_new() {
    let records = vec![
        ReferenceRecord { name: Some("Demo.mk".into()), line: Some(3) },
        ReferenceRecord { name: Some("Demo.alpha".into()), line: Some(4) },
        ReferenceRecord { name: None, line: Some(5) },
    ];
    assert_eq!(
        generated_declarations(&records, &texts(&["Demo.alpha"])),
        [("Demo.mk".to_owned(), 4)]
    );
    assert_eq!(reference_name("{\"c\":{\"m\":\"M\",\"n\":\"Demo.mk\"}}").as_deref(), Some("Demo.mk"));
    assert_eq!(reference_name("{\"f\":1}"), None);
    assert_eq!(reference_name("no json"), None);
}

#[test]
fn submissions_are_refined_by_words() {
    assert!(require_submission_refinement("s1", "alpha").is_ok());
    assert!(require_submission_refinement("s1", "").is_err());
}

#[test]
fn conflicts_lead_to_laws() {
    assert!(is_type_conflict("error: type mismatch"));
    assert!(!is_type_conflict("error: unknown identifier"));
    assert_eq!(
        coerced_inverse_query(&texts(&["Units"]), "↑u⁻¹").as_deref(),
        Some("name : (coe AND inv) AND (signature : \"Units\")")
    );
    assert_eq!(coerced_inverse_query(&texts(&["Units"]), "u"), None);
    assert_eq!(collect_phrases(&texts(&["a\"b"])), ["signature : \"a\"\"b\""]);
    assert_eq!(
        contract_rows_query(&texts(&["Nat", "Int"])),
        "signature : \"Nat\" OR signature : \"Int\""
    );
    assert_eq!(contract_rows_query(&Vec::new()), "");
    let laws = application_laws(&texts(&["Units.map"]));
    assert!(laws.iter().any(|law| law.starts_with("Units.map_")), "{laws:?}");
    let text = failure_context(
        "type mismatch\n  x\nhas type\n  Units Nat\nbut is expected to have type\n  Nat",
        &Vec::new(),
        &vec![row("Units.val_eq", "(u : Units Nat) : u.val = u")],
        None,
        None,
        None,
    );
    assert!(!text.is_empty());
}

#[test]
fn rows_are_kept_once_a_name() {
    let kept = keep_once_named(&vec![row("A", "x"), row("B", ""), row("A", "y")]);
    let found: Vec<&str> = kept.iter().map(|r| r.name.as_str()).collect();
    assert_eq!(found, ["A", "B"]);
}

fn response(version: u64, ok: bool) -> TypeSearchResponse {
    TypeSearchResponse {
        ok,
        detail: "told".into(),
        count: 1,
        hits: vec![TypeSearchHit {
            name: "Demo.alpha".into(),
            signature: "Nat".into(),
            module: None,
            doc: None,
        }],
        version,
    }
}

#[test]
fn type_answers_are_kept_and_stale_ones_refused() {
    let mut worker = TypeSearchWorker::new();
    assert!(worker.lookup("a\nb", "x").is_none());
    let version = worker.next_version();
    let stale = worker.accept("a\nb", "x", Vec::new(), response(version + 1, true)).unwrap_err();
    assert_eq!(stale.to_text(), "stale type search response");
    assert!(worker.lookup("a\nb", "x").is_none());
    let answer = worker.accept("a\nb", "x", texts(&["try"]), response(version, true)).unwrap();
    assert_eq!((answer.count, answer.error), (1, None));
    let kept = worker.lookup("a b", "x").unwrap();
    assert_eq!(kept.hits[0].name, "Demo.alpha");
    assert_eq!(kept.suggestions, ["try"]);
    assert!(worker.lookup("a b", "y").is_none());
    let version = worker.next_version();
    let failed = worker.accept("c", "x", Vec::new(), response(version, false)).unwrap();
    assert_eq!(failed.error.as_deref(), Some("told"));
    assert!(failed.hits.is_empty());
    assert_eq!(flatten_query("a\nb"), "a b");
}

#[test]
fn type_searches_tell_how_they_started() {
    let parts = vec![("load".to_owned(), 12), ("index".to_owned(), 5)];
    assert_eq!(
        startup_detail(true, Some("ready"), &parts, "").unwrap(),
        "load=12ms index=5ms"
    );
    assert_eq!(startup_detail(true, Some("ready"), &Vec::new(), "").unwrap(), "type search ready");
    assert_eq!(
        startup_detail(true, Some("busy"), &parts, "{}").unwrap_err().to_text(),
        "unexpected type search startup response: {}"
    );
}

#[test]
fn references_are_not_given_twice() {
    let mut state = State::new();
    let given: Vec<String> = (0..12).map(|_| state.next_ref('c')).collect();
    assert_eq!(given[0], "c1");
    assert_eq!(given[11], "c12");
    assert_eq!(state.next_ref('w'), "w1");
    assert_eq!(state.last_number('c'), 12);
}

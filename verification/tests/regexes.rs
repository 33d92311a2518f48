//! Regular expressions over sources, and the plan of a search.
use mathmux::search::groups::{
    add_source_match_group, answer_regex, source_display_path, source_regex_result, ScannedFile,
    SourceMatchGroup, SourceRegexQuery,
};
use mathmux::search::names::{declaration_glob_matches, declaration_glob_query};
use mathmux::search::plan::{plan_search, SearchPlan};
use mathmux::search::regex_request::{parse_source_regex_query, split_range, split_regex_query};
use mathmux::search::tree::SourceTree;

fn tree(files: &[&str], directories: &[&str]) -> SourceTree {
    let place = |path: &str| (format!("/w/{path}"), format!("/w/{path}"));
    SourceTree {
        root: "/w".into(),
        real_root: "/w".into(),
        cwd: "/w".into(),
        packages: None,
        package_roots: Vec::new(),
        project_files: files.iter().map(|f| (*f).to_owned()).collect(),
        package_files: Vec::new(),
        files: files.iter().map(|f| place(f)).collect(),
        directories: directories.iter().map(|d| place(d)).collect(),
    }
}

fn query(pattern: &str, first_line: u64, last_line: u64) -> SourceRegexQuery {
    SourceRegexQuery { scope: "/w".into(), pattern: pattern.into(), first_line, last_line }
}

const SOURCE: &str = "namespace Demo\ntheorem first (n : Nat) : n = n := by\n  have a := 1\n  have b := 2\n  have c := 3\n  have d := 4\n  rfl\nend Demo\n";

fn scanned(path: &str, source: &str) -> ScannedFile {
    ScannedFile { path: path.into(), module: "Demo".into(), source: source.into() }
}

#[test]
fn matches_are_counted_whole_and_shown_three_a_declaration() {
    let files = vec![scanned("Demo.lean", SOURCE)];
    let result = source_regex_result(&query("have [a-z]", 1, u64::MAX), &files, false, false).unwrap();
    assert_eq!(result.hits.len(), 1);
    assert_eq!(result.inference, "source-regex");
    assert!(result.note.is_none());
    let hit = &result.hits[0];
    assert_eq!(hit.name, "Demo.first");
    assert!(hit.signature.as_deref().unwrap().starts_with("4 matches; lines 2-"), "{hit:?}");
    assert_eq!(
        hit.source.as_deref(),
        Some(">    3 |   have a := 1\n>    4 |   have b := 2\n>    5 |   have c := 3")
    );
}

#[test]
fn expressions_keep_to_their_lines() {
    let files = vec![scanned("Demo.lean", SOURCE)];
    let result = source_regex_result(&query("have", 5, 6), &files, false, false).unwrap();
    assert!(result.hits[0].signature.as_deref().unwrap().starts_with("2 matches;"));
    let none = source_regex_result(&query("absurd", 1, u64::MAX), &files, false, false).unwrap();
    assert!(none.hits.is_empty());
    assert_eq!(none.note.as_deref(), Some("no regex source matches"));
    let late = source_regex_result(&query("have", 1, u64::MAX), &files, true, false).unwrap();
    assert_eq!(late.note.as_deref(), Some("source regex scan timed out; narrow the scope"));
    assert!(source_regex_result(&query("(", 1, u64::MAX), &files, false, false).is_err());
}

#[test]
fn lines_outside_declarations_stand_alone() {
    let mut groups: Vec<SourceMatchGroup> = Vec::new();
    add_source_match_group(&mut groups, "A.lean", &Vec::new(), 7, "  text  ");
    add_source_match_group(&mut groups, "A.lean", &Vec::new(), 8, "more");
    assert_eq!(groups.len(), 2);
    assert_eq!(groups[0].name, "source match at A.lean:7");
    assert_eq!(groups[0].matches, [">    7 |   text"]);
    assert_eq!(groups[1].count, 1);
    let result = answer_regex(&groups, 2, false, false);
    assert_eq!(result.hits[0].signature.as_deref(), Some("1 match; lines 7-7"));
}

#[test]
fn groups_beyond_the_limit_are_told() {
    let mut groups: Vec<SourceMatchGroup> = Vec::new();
    for line in 1..=15 {
        add_source_match_group(&mut groups, "A.lean", &Vec::new(), line, "x");
    }
    let result = answer_regex(&groups, 15, false, false);
    assert_eq!(result.hits.len(), 12);
    assert_eq!(
        result.note.as_deref(),
        Some("+3 matches in 3 declarations omitted; narrow the scope")
    );
    assert_eq!(answer_regex(&groups, 15, false, true).hits.len(), 15);
}

#[test]
fn expressions_are_told_from_words() {
    assert_eq!(
        split_regex_query("/foo.*bar/ Demo.lean"),
        Some(("foo.*bar".to_owned(), "Demo.lean".to_owned()))
    );
    assert_eq!(
        split_regex_query("Demo.lean /foo\\/bar/"),
        Some(("foo\\/bar".to_owned(), "Demo.lean".to_owned()))
    );
    assert!(split_regex_query("List.map foo").is_none());
    assert_eq!(split_range("Demo.lean:3-9"), ("Demo.lean", Some((3, 9))));
    assert_eq!(split_range("Demo.lean"), ("Demo.lean", None));
}

#[test]
fn faulty_expressions_are_refused() {
    let files = tree(&["Demo.lean"], &["Demo"]);
    let refusal = |query: &str| {
        parse_source_regex_query(&files, None, query).unwrap_err().to_text()
    };
    assert_eq!(refusal("/(/"), "invalid source regex");
    assert_eq!(refusal(&format!("/{}/", "a".repeat(501))), "source regex is too long");
    assert_eq!(
        refusal("/foo/ --all"),
        "source regex options must be outside the query; use `mathmux search '/REGEX/' --all`"
    );
    assert_eq!(
        refusal("/foo/ --limit 3"),
        "source regex options must be outside the query; use `mathmux search '/REGEX/' --limit N`"
    );
    assert_eq!(
        refusal("/foo/ Source"),
        "source is a help label, not a keyword; use /REGEX/ or PATH /REGEX/ directly"
    );
    assert_eq!(
        refusal("/foo/ A.lean B.lean"),
        "source regex accepts at most one file or directory scope"
    );
    assert!(refusal("/foo/ Absent.lean").contains("Absent.lean"));
    let whole = parse_source_regex_query(&files, None, "/foo/").unwrap().unwrap();
    assert_eq!((whole.scope.as_str(), whole.pattern.as_str()), ("/w", "foo"));
    let part = parse_source_regex_query(&files, None, "/foo/ Demo.lean:2-4").unwrap().unwrap();
    assert_eq!((part.first_line, part.last_line), (2, 4));
    assert_eq!(part.scope, "/w/Demo.lean");
    let folder = parse_source_regex_query(&files, None, "/foo/ Demo").unwrap().unwrap();
    assert_eq!(folder.scope, "/w/Demo");
}

#[test]
fn wildcards_match_names_as_a_whole() {
    assert!(declaration_glob_query("List.*map"));
    assert!(!declaration_glob_query("List.map"));
    assert!(declaration_glob_matches("List.filterMap", "List.*map"));
    assert!(!declaration_glob_matches("Array.filterMap", "List.*map"));
    assert!(declaration_glob_matches("List.map+x", "List.map+*"));
}

#[test]
fn searches_are_planned_by_their_most_particular_reading() {
    let files = tree(&["Demo.lean"], &[]);
    let plan = |query: &str, context: bool| plan_search(&files, None, query, context);
    assert!(matches!(plan("Demo.lean:3", false).unwrap().plan, SearchPlan::Location(_)));
    assert!(matches!(plan("/foo/", false).unwrap().plan, SearchPlan::SourceRegex(_)));
    assert!(matches!(plan("Demo.lean:2-4", false).unwrap().plan, SearchPlan::Source(_)));
    assert!(matches!(plan("List.map", false).unwrap().plan, SearchPlan::Text(_)));
    assert!(matches!(plan("  ", true).unwrap().plan, SearchPlan::StoredContext));
    assert_eq!(plan("  ", false).unwrap_err().to_text(), "search query is empty");
    assert_eq!(plan("  List.map ", false).unwrap().query, "List.map");
}

#[test]
fn sources_are_shown_below_their_root() {
    assert_eq!(source_display_path("/w/A/B.lean", "/w", None), "A/B.lean");
    assert_eq!(source_display_path("/d/A/B.lean", "/w", Some("/d")), "<dependency>/B.lean");
    assert_eq!(source_display_path("/x/B.lean", "/w", None), "/x/B.lean");
    assert_eq!(source_display_path("/x/B.lean", "", None), "/x/B.lean");
    assert_eq!(source_display_path("./w/B.lean", "w", None), "./w/B.lean");
}

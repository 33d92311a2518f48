//! How a search is carried out.
use crate::failure::{refuse, Failure};
use crate::search::exact::{text_plan, text_search_plan, TextSearchPlan};
use crate::search::groups::{RegexQueryView, SourceRegexQuery};
use crate::search::locations::{
    location_request, parse_source_location, LocationRequest, LocationRequestView,
};
use crate::search::occurrences::{
    occurrence_request, parse_source_occurrence_query, OccurrenceView, SourceOccurrenceQuery,
};
use crate::search::regex_request::{parse_source_regex_query, regex_request};
use crate::search::tree::{opt_tree, SourceTree, TreeView};
use crate::text::make::own;
use crate::text::scan::{bare, trim};
use vstd::prelude::*;

verus! {

/// What a search works on.
#[derive(Debug)]
pub enum SearchPlan {
    /// What an earlier search found.
    StoredContext,
    /// A line of a file.
    Location(LocationRequest),
    /// Files, by a regular expression.
    SourceRegex(SourceRegexQuery),
    /// Files, by text or range.
    Source(SourceOccurrenceQuery),
    /// The index.
    Text(TextSearchPlan),
}

/// The contents of a [`SearchPlan`].
pub enum PlanView {
    StoredContext,
    Location(LocationRequestView),
    SourceRegex(RegexQueryView),
    Source(OccurrenceView),
    Text(TextSearchPlan),
}

impl View for SearchPlan {
    type V = PlanView;

    open spec fn view(&self) -> PlanView {
        match self {
            SearchPlan::StoredContext => PlanView::StoredContext,
            SearchPlan::Location(at) => PlanView::Location(at@),
            SearchPlan::SourceRegex(q) => PlanView::SourceRegex(q@),
            SearchPlan::Source(q) => PlanView::Source(q@),
            SearchPlan::Text(t) => PlanView::Text(*t),
        }
    }
}

/// A search with its plan.
#[derive(Debug)]
pub struct PlannedSearch {
    pub query: String,
    pub plan: SearchPlan,
}

/// The view of a planned search.
pub open spec fn planned_view(r: Result<PlannedSearch, Failure>) -> Result<
    (Seq<char>, PlanView),
    Seq<char>,
> {
    match r {
        Ok(p) => Ok((p.query@, p.plan@)),
        Err(e) => Err(e@),
    }
}

/// The plan of a search that names no line of a file.
pub open spec fn plan_without_line(tree: TreeView, main: Option<TreeView>, query: Seq<char>) -> Result<
    PlanView,
    Seq<char>,
> {
    match regex_request(tree, main, query) {
        Err(message) => Err(message),
        Ok(Some(q)) => Ok(PlanView::SourceRegex(q)),
        Ok(None) => match occurrence_request(tree, main, query) {
            Err(message) => Err(message),
            Ok(Some(q)) => Ok(PlanView::Source(q)),
            Ok(None) => Ok(PlanView::Text(text_plan(query))),
        },
    }
}

/// The plan of a search: the most particular reading that its query has. `has_context`
/// tells whether it goes on from an earlier one.
pub open spec fn search_plan(
    tree: TreeView,
    main: Option<TreeView>,
    query: Seq<char>,
    has_context: bool,
) -> Result<(Seq<char>, PlanView), Seq<char>> {
    let text = bare(query);
    match location_request(tree, main, query) {
        Err(message) => Err(message),
        Ok(location) => if text.len() == 0 {
            if has_context {
                Ok((text, PlanView::StoredContext))
            } else {
                Err("search query is empty"@)
            }
        } else if location is Some {
            Ok((text, PlanView::Location(location->0)))
        } else {
            match plan_without_line(tree, main, text) {
                Ok(plan) => Ok((text, plan)),
                Err(message) => Err(message),
            }
        },
    }
}

/// Computes [`search_plan`].
pub fn plan_search(
    tree: &SourceTree,
    main: Option<&SourceTree>,
    query: &str,
    has_context: bool,
) -> (r: Result<PlannedSearch, Failure>)
    ensures
        planned_view(r) == search_plan(tree@, opt_tree(main), query@, has_context),
{
    let location = match parse_source_location(tree, main, query) {
        Ok(found) => found,
        Err(e) => {
            return Err(e);
        },
    };
    let text = trim(query);
    if text.is_empty() {
        return if has_context {
            Ok(PlannedSearch { query: own(text), plan: SearchPlan::StoredContext })
        } else {
            refuse("search query is empty")
        };
    }
    if let Some(at) = location {
        return Ok(PlannedSearch { query: own(text), plan: SearchPlan::Location(at) });
    }
    match parse_source_regex_query(tree, main, text) {
        Err(e) => {
            return Err(e);
        },
        Ok(Some(q)) => {
            return Ok(PlannedSearch { query: own(text), plan: SearchPlan::SourceRegex(q) });
        },
        Ok(None) => {},
    }
    match parse_source_occurrence_query(tree, main, text) {
        Err(e) => Err(e),
        Ok(Some(q)) => Ok(PlannedSearch { query: own(text), plan: SearchPlan::Source(q) }),
        Ok(None) => Ok(
            PlannedSearch { query: own(text), plan: SearchPlan::Text(text_search_plan(text)) },
        ),
    }
}

} // verus!

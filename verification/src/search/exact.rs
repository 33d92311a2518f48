//! Queries for one declaration, and what is said when it is missing.
use crate::order::{key_list, positions, rank, ranking};
use crate::search::names::{
    announced_name, canonical, canonical_declaration_name, declaration_name_query, exact_match,
    exact_declaration_name_matches, explicit_declaration_name, field_inventory,
    field_inventory_query, name_query, qualified_match, qualified_name_matches,
};
use crate::search::rank::{codes, sort_and_merge_candidates, sorted_and_merged, take_at};
use crate::search::records::{
    candidate_views, candidate_views_push, hit_views, hit_views_push, Candidate, CandidateView,
    HitView, IndexedRow, ResultView, RowView, SearchHit, SearchResult,
};
use crate::search::score::{lexical_points, lexical_score, narrow, narrowed, type_like, type_shaped};
use crate::search::tokens::{
    body_word, distinct, is_body_word, keep_passing, meaningful_query_tokens, passing,
    query_requests_proof_body, query_tokens, query_words, search_tokens, wants_body,
    without_repeats, TokenTest,
};
use crate::text::class::{any_of, is_any, is_uppercase, uppercase, Class};
use crate::text::make::{
    alike, cat2, cat3, join, joined, lower, lowercased, own, prefix_all, prefix_step, push_str,
    same, same_ignoring_case, strings, strings_push, strs, strs_push, to_chars, to_lower,
    to_lowercase,
};
use crate::text::pieces::{
    fields, first_in, first_in_bounds, position, split_text, split_words, words,
};
use crate::text::scan::{
    bare, begins, contains, has_text, opt_string, starts_with, trim,
};
use vstd::prelude::*;

verus! {

broadcast use {strings_push, strs_push, candidate_views_push, hit_views_push};

/// The canonical names, in lower case, of the hits with exactly that name.
pub open spec fn exact_names_of(hits: Seq<HitView>, query: Seq<char>) -> Seq<Seq<char>>
    decreases hits.len(),
{
    if hits.len() == 0 {
        Seq::empty()
    } else {
        let earlier = exact_names_of(hits.drop_last(), query);
        let name = canonical(hits.last().name);
        if alike(name, query) {
            earlier.push(lowercased(name))
        } else {
            earlier
        }
    }
}

/// The canonical names, in lower case, of the hits that a qualified name fits.
pub open spec fn qualified_names_of(hits: Seq<HitView>, query: Seq<char>) -> Seq<Seq<char>>
    decreases hits.len(),
{
    if hits.len() == 0 {
        Seq::empty()
    } else {
        let earlier = qualified_names_of(hits.drop_last(), query);
        if qualified_match(hits.last().name, query) {
            earlier.push(lowercased(canonical(hits.last().name)))
        } else {
            earlier
        }
    }
}

/// The only text of a list, where all its texts are the same.
pub open spec fn sole(list: Seq<Seq<char>>) -> Option<Seq<char>> {
    if distinct(list).len() == 1 {
        Some(distinct(list)[0])
    } else {
        None
    }
}

fn sole_of(list: &Vec<String>) -> (r: Option<String>)
    ensures
        opt_string(r) == sole(strings(list@)),
{
    let names = without_repeats(list);
    assert(strings(names@).len() == names.len());
    if names.len() == 1 {
        assert(strings(names@)[0] == names@[0]@);
        Some(names[0].clone())
    } else {
        None
    }
}

/// The one name that a query means among hits: in full, or else by its last components.
pub open spec fn unique_name(hits: Seq<HitView>, query: Seq<char>) -> Option<Seq<char>> {
    let q = canonical(query);
    match sole(exact_names_of(hits, q)) {
        Some(name) => Some(name),
        None => sole(qualified_names_of(hits, q)),
    }
}

/// Computes [`unique_name`].
pub fn unique_qualified_hit_name(hits: &Vec<SearchHit>, query: &str) -> (r: Option<String>)
    ensures
        opt_string(r) == unique_name(hit_views(hits@), query@),
{
    let q = canonical_declaration_name(query);
    let ghost views = hit_views(hits@);
    let mut exact: Vec<String> = Vec::new();
    let mut qualified: Vec<String> = Vec::new();
    for i in 0..hits.len()
        invariant
            views == hit_views(hits@),
            strings(exact@) == exact_names_of(views.take(i as int), q@),
            strings(qualified@) == qualified_names_of(views.take(i as int), q@),
    {
        proof {
            prefix_step(views, i as int);
        }
        assert(views[i as int] == hits@[i as int]@);
        let name = canonical_declaration_name(hits[i].name.as_str());
        if same_ignoring_case(name, q) {
            exact.push(to_lowercase(name));
        }
        if qualified_name_matches(hits[i].name.as_str(), q) {
            qualified.push(to_lowercase(name));
        }
    }
    proof {
        prefix_all(views);
    }
    match sole_of(&exact) {
        Some(name) => Some(name),
        None => sole_of(&qualified),
    }
}

/// The hits of candidates.
pub open spec fn hits_of(list: Seq<CandidateView>) -> Seq<HitView> {
    list.map_values(|c: CandidateView| c.hit)
}

/// The canonical names, in lower case, of the candidates that a name means.
pub open spec fn meant_names(list: Seq<CandidateView>, query: Seq<char>) -> Seq<Seq<char>>
    decreases list.len(),
{
    if list.len() == 0 {
        Seq::empty()
    } else {
        let earlier = meant_names(list.drop_last(), query);
        if exact_match(list.last().hit.name, query) {
            earlier.push(lowercased(canonical(list.last().hit.name)))
        } else {
            earlier
        }
    }
}

/// The candidates with a canonical name, whatever its case.
pub open spec fn called(list: Seq<CandidateView>, name: Seq<char>) -> Seq<CandidateView>
    decreases list.len(),
{
    if list.len() == 0 {
        Seq::empty()
    } else if alike(canonical(list.last().hit.name), name) {
        called(list.drop_last(), name).push(list.last())
    } else {
        called(list.drop_last(), name)
    }
}

/// The candidates of the one declaration that a query means.
pub open spec fn resolved(list: Seq<CandidateView>, query: Seq<char>) -> Option<
    Seq<CandidateView>,
> {
    let exact = exact_names_of(hits_of(list), canonical(query));
    let names = if exact.len() > 0 {
        exact
    } else {
        meant_names(list, query)
    };
    match sole(names) {
        Some(name) => Some(called(list, name)),
        None => None,
    }
}

/// The contents of an optional list of candidates.
pub open spec fn opt_candidates(list: Option<Vec<Candidate>>) -> Option<Seq<CandidateView>> {
    match list {
        Some(l) => Some(candidate_views(l@)),
        None => None,
    }
}

fn keep_called(list: &Vec<Candidate>, name: &str) -> (r: Vec<Candidate>)
    ensures
        candidate_views(r@) == called(candidate_views(list@), name@),
{
    let ghost views = candidate_views(list@);
    let mut out: Vec<Candidate> = Vec::new();
    for i in 0..list.len()
        invariant
            views == candidate_views(list@),
            candidate_views(out@) == called(views.take(i as int), name@),
    {
        proof {
            prefix_step(views, i as int);
        }
        assert(views[i as int] == list@[i as int]@);
        if same_ignoring_case(canonical_declaration_name(list[i].hit.name.as_str()), name) {
            out.push(list[i].copy());
        }
    }
    proof {
        prefix_all(views);
    }
    out
}

/// Computes [`resolved`].
pub fn resolved_exact_candidates(list: &Vec<Candidate>, query: &str) -> (r: Option<Vec<Candidate>>)
    ensures
        opt_candidates(r) == resolved(candidate_views(list@), query@),
{
    let q = canonical_declaration_name(query);
    let ghost views = candidate_views(list@);
    let ghost hits = hits_of(views);
    let mut exact: Vec<String> = Vec::new();
    let mut meant: Vec<String> = Vec::new();
    for i in 0..list.len()
        invariant
            views == candidate_views(list@),
            hits == hits_of(views),
            q@ == canonical(query@),
            strings(exact@) == exact_names_of(hits.take(i as int), q@),
            strings(meant@) == meant_names(views.take(i as int), query@),
    {
        proof {
            prefix_step(views, i as int);
            prefix_step(hits, i as int);
        }
        assert(views[i as int] == list@[i as int]@);
        let name = canonical_declaration_name(list[i].hit.name.as_str());
        if same_ignoring_case(name, q) {
            exact.push(to_lowercase(name));
        }
        if exact_declaration_name_matches(list[i].hit.name.as_str(), query) {
            meant.push(to_lowercase(name));
        }
    }
    proof {
        prefix_all(views);
        prefix_all(hits);
    }
    assert(strings(exact@).len() == exact.len());
    let names = if exact.len() > 0 {
        exact
    } else {
        meant
    };
    match sole_of(&names) {
        Some(name) => Some(keep_called(list, name.as_str())),
        None => None,
    }
}

/// The candidates of one declaration as one.
pub fn merge_exact_candidates(list: &Vec<Candidate>) -> (r: Option<Candidate>)
    ensures
        match r {
            Some(c) => sorted_and_merged(candidate_views(list@)).len() > 0 && c@
                == sorted_and_merged(candidate_views(list@))[0],
            None => sorted_and_merged(candidate_views(list@)).len() == 0,
        },
{
    let mut all = sort_and_merge_candidates(list);
    assert(candidate_views(all@).len() == all.len());
    if all.len() > 0 {
        Some(take_at(&mut all, 0))
    } else {
        None
    }
}

/// The points of an indexed row: more in the workspace that searches.
pub open spec fn row_points(
    query: Seq<char>,
    row: RowView,
    workspace: Seq<char>,
) -> int {
    narrowed(lexical_points(query, search_tokens(query), row)) + if row.owner == "workspace:"@
        + workspace {
        8int
    } else {
        0
    }
}

/// The score of an indexed row.
pub fn exact_row_score(query: &str, row: &IndexedRow, workspace: &str) -> (r: i64)
    ensures
        r == narrowed(row_points(query@, row@, workspace@)),
{
    let points = lexical_score(query, &meaningful_query_tokens(query), row) as i128;
    let owner = cat2("workspace:", workspace);
    if same(row.owner.as_str(), owner.as_str()) {
        narrow(points + 8)
    } else {
        narrow(points)
    }
}

/// Texts in the order of their characters.
pub open spec fn sorted_texts(list: Seq<Seq<char>>) -> Seq<Seq<char>> {
    ranking(list.map_values(|t: Seq<char>| codes(t))).map_values(|i: int| list[i])
}

pub(crate) fn codes_of(text: &str) -> (r: Vec<u64>)
    ensures
        r@ == codes(text@),
{
    let chars = to_chars(text);
    let mut out: Vec<u64> = Vec::new();
    assert(codes(chars@.take(0)) =~= Seq::empty());
    for i in 0..chars.len()
        invariant
            chars@ == text@,
            out@ == codes(chars@.take(i as int)),
    {
        proof {
            prefix_step(chars@, i as int);
        }
        out.push(chars[i] as u64);
        assert(out@ =~= codes(chars@.take(i + 1)));
    }
    proof {
        prefix_all(chars@);
    }
    out
}

/// Computes [`sorted_texts`].
pub fn sort_texts(list: &Vec<String>) -> (r: Vec<String>)
    ensures
        strings(r@) == sorted_texts(strings(list@)),
{
    let ghost wanted = strings(list@).map_values(|t: Seq<char>| codes(t));
    let mut keys: Vec<Vec<u64>> = Vec::new();
    assert(key_list(keys@) =~= wanted.take(0));
    for i in 0..list.len()
        invariant
            wanted == strings(list@).map_values(|t: Seq<char>| codes(t)),
            keys.len() == i,
            key_list(keys@) == wanted.take(i as int),
    {
        proof {
            prefix_step(wanted, i as int);
        }
        let ghost before = key_list(keys@);
        keys.push(codes_of(list[i].as_str()));
        assert(key_list(keys@) =~= before.push(wanted[i as int]));
    }
    proof {
        prefix_all(wanted);
    }
    let order = rank(&keys);
    let ghost sorted = sorted_texts(strings(list@));
    assert(positions(order@).len() == order.len());
    let mut out: Vec<String> = Vec::new();
    for i in 0..order.len()
        invariant
            order.len() == keys.len(),
            list.len() == keys.len(),
            forall|j: int| 0 <= j < order.len() ==> (#[trigger] order@[j]) < keys.len(),
            positions(order@) == ranking(key_list(keys@)),
            key_list(keys@) == strings(list@).map_values(|t: Seq<char>| codes(t)),
            sorted == sorted_texts(strings(list@)),
            sorted.len() == order.len(),
            strings(out@) == sorted.take(i as int),
    {
        proof {
            prefix_step(sorted, i as int);
            assert(positions(order@)[i as int] == order@[i as int] as int);
        }
        out.push(list[order[i]].clone());
    }
    proof {
        prefix_all(sorted);
    }
    out
}

/// A refinement that asks for a declaration as a whole.
pub open spec fn refinement_word(t: Seq<char>) -> bool {
    ||| t == "declarations"@ || t == "body"@ || t == "implementation"@ || t == "implementation body"@
    ||| t == "proof"@ || t == "proof body"@ || t == "source"@
}

/// Decides [`refinement_word`].
pub fn is_refinement_word(t: &str) -> (r: bool)
    ensures
        r == refinement_word(t@),
{
    same(t, "declarations")
        || same(t, "body")
        || same(t, "implementation")
        || same(t, "implementation body")
        || same(t, "proof")
        || same(t, "proof body")
        || same(t, "source")
}

/// A declaration to look up, and what to look for in its surroundings.
#[derive(Debug)]
pub struct AnchoredQuery {
    pub anchor: String,
    pub tokens: Vec<String>,
    pub requested: Vec<String>,
}

/// The contents of an [`AnchoredQuery`].
pub struct AnchoredView {
    pub anchor: Seq<char>,
    pub tokens: Seq<Seq<char>>,
    pub requested: Seq<Seq<char>>,
}

impl View for AnchoredQuery {
    type V = AnchoredView;

    open spec fn view(&self) -> AnchoredView {
        AnchoredView {
            anchor: self.anchor@,
            tokens: strings(self.tokens@),
            requested: strings(self.requested@),
        }
    }
}

/// A name that cannot be a plain word: with a dot, an underscore, or an inner capital.
pub open spec fn telling_anchor(anchor: Seq<char>) -> bool {
    any_of(anchor, Class::Only("._")) || exists|i: int|
        1 <= i < anchor.len() && uppercase(#[trigger] anchor[i])
}

fn is_telling_anchor(anchor: &str) -> (r: bool)
    ensures
        r == telling_anchor(anchor@),
{
    if is_any(anchor, Class::Only("._")) {
        return true;
    }
    let chars = to_chars(anchor);
    if chars.len() == 0 {
        return false;
    }
    for i in 1..chars.len()
        invariant
            chars@ == anchor@,
            forall|j: int| 1 <= j < i ==> !uppercase(#[trigger] anchor@[j]),
    {
        if is_uppercase(chars[i]) {
            return true;
        }
    }
    false
}

/// The terms that a refinement asks for, in order and each once.
pub open spec fn requested_terms(refinement: Seq<char>) -> Seq<Seq<char>> {
    distinct(sorted_texts(passing(query_words(refinement), TokenTest::AtLeast(3))))
}

/// The query for a declaration followed by what to look for around it.
pub open spec fn anchored(query: Seq<char>) -> Option<AnchoredView> {
    let q = bare(query);
    let at = first_in(q, Class::Space);
    if at >= q.len() {
        None
    } else {
        let anchor = q.take(at);
        let refinement = q.skip(at + 1);
        if anchor.len() < 6 || !telling_anchor(anchor) || !name_query(anchor) {
            None
        } else if refinement_word(lower(bare(refinement))) {
            Some(AnchoredView { anchor, tokens: Seq::empty(), requested: Seq::empty() })
        } else if 0 < search_tokens(refinement).len() <= 24 {
            Some(
                AnchoredView {
                    anchor,
                    tokens: search_tokens(refinement),
                    requested: requested_terms(refinement),
                },
            )
        } else {
            None
        }
    }
}

/// The contents of an optional anchored query.
pub open spec fn opt_anchored(o: Option<AnchoredQuery>) -> Option<AnchoredView> {
    match o {
        Some(a) => Some(a@),
        None => None,
    }
}

/// Computes [`anchored`].
pub fn anchored_api_query(query: &str) -> (r: Option<AnchoredQuery>)
    ensures
        opt_anchored(r) == anchored(query@),
{
    let q = trim(query);
    let at = position(q, Class::Space);
    let length = q.unicode_len();
    proof {
        first_in_bounds(q@, Class::Space);
    }
    if at >= length {
        return None;
    }
    let anchor = q.substring_char(0, at);
    assert(anchor@ =~= q@.take(at as int));
    let refinement = q.substring_char(at + 1, length);
    assert(refinement@ =~= q@.skip(at + 1));
    if anchor.unicode_len() < 6 || !is_telling_anchor(anchor) || !declaration_name_query(anchor) {
        return None;
    }
    if is_refinement_word(to_lower(trim(refinement)).as_str()) {
        let tokens: Vec<String> = Vec::new();
        let requested: Vec<String> = Vec::new();
        assert(strings(tokens@) =~= Seq::empty());
        assert(strings(requested@) =~= Seq::empty());
        return Some(AnchoredQuery { anchor: own(anchor), tokens, requested });
    }
    let tokens = meaningful_query_tokens(refinement);
    assert(strings(tokens@).len() == tokens.len());
    if tokens.len() == 0 || tokens.len() > 24 {
        return None;
    }
    let requested = without_repeats(
        &sort_texts(&keep_passing(&query_tokens(refinement), TokenTest::AtLeast(3))),
    );
    Some(AnchoredQuery { anchor: own(anchor), tokens, requested })
}

/// How to look up one declaration.
#[derive(Debug)]
pub struct ExactPlan {
    pub anchor: String,
    pub refinement_tokens: Vec<String>,
    pub requested_terms: Vec<String>,
    pub recover_continuation: bool,
    pub source_requested: bool,
}

/// The contents of an [`ExactPlan`].
pub struct ExactPlanView {
    pub anchor: Seq<char>,
    pub refinement_tokens: Seq<Seq<char>>,
    pub requested_terms: Seq<Seq<char>>,
    pub recover_continuation: bool,
    pub source_requested: bool,
}

impl View for ExactPlan {
    type V = ExactPlanView;

    open spec fn view(&self) -> ExactPlanView {
        ExactPlanView {
            anchor: self.anchor@,
            refinement_tokens: strings(self.refinement_tokens@),
            requested_terms: strings(self.requested_terms@),
            recover_continuation: self.recover_continuation,
            source_requested: self.source_requested,
        }
    }
}

/// A plan for a name alone.
pub open spec fn plain_plan(anchor: Seq<char>, recover: bool, source: bool) -> ExactPlanView {
    ExactPlanView {
        anchor,
        refinement_tokens: Seq::empty(),
        requested_terms: Seq::empty(),
        recover_continuation: recover,
        source_requested: source,
    }
}

fn make_plain_plan(anchor: &str, recover: bool, source: bool) -> (r: ExactPlan)
    ensures
        r@ == plain_plan(anchor@, recover, source),
{
    let refinement_tokens: Vec<String> = Vec::new();
    let requested_terms: Vec<String> = Vec::new();
    assert(strings(refinement_tokens@) =~= Seq::empty());
    assert(strings(requested_terms@) =~= Seq::empty());
    ExactPlan {
        anchor: own(anchor),
        refinement_tokens,
        requested_terms,
        recover_continuation: recover,
        source_requested: source,
    }
}

/// A name followed by words that ask for its text.
pub open spec fn asks_text(query: Seq<char>) -> bool {
    let list = words(query);
    &&& list.len() > 1
    &&& name_query(list[0])
    &&& wants_body(query)
    &&& forall|i: int| 1 <= i < list.len() ==> body_word(lower(#[trigger] list[i]))
}

fn is_asking_text(query: &str, list: &Vec<&str>) -> (r: bool)
    requires
        strs(list@) == words(query@),
    ensures
        r == asks_text(query@),
{
    let ghost views = strs(list@);
    assert(views.len() == list.len());
    if list.len() <= 1 {
        return false;
    }
    assert(views[0] == list@[0]@);
    if !declaration_name_query(list[0]) || !query_requests_proof_body(query) {
        return false;
    }
    for i in 1..list.len()
        invariant
            views == strs(list@),
            views == words(query@),
            forall|j: int| 1 <= j < i ==> body_word(lower(#[trigger] views[j])),
    {
        assert(views[i as int] == list@[i as int]@);
        if !is_body_word(to_lower(list[i]).as_str()) {
            return false;
        }
    }
    true
}

/// The plan for a query for one declaration; a type has none.
pub open spec fn planned(query: Seq<char>, type_search: bool) -> Option<ExactPlanView> {
    if type_search {
        None
    } else {
        match anchored(query) {
            Some(a) => Some(
                ExactPlanView {
                    anchor: a.anchor,
                    refinement_tokens: a.tokens,
                    requested_terms: a.requested,
                    recover_continuation: false,
                    source_requested: wants_body(query),
                },
            ),
            None => if asks_text(query) {
                Some(plain_plan(words(query)[0], false, true))
            } else if name_query(query) {
                Some(plain_plan(query, true, false))
            } else {
                None
            },
        }
    }
}

/// The contents of an optional plan.
pub open spec fn opt_plan(o: Option<ExactPlan>) -> Option<ExactPlanView> {
    match o {
        Some(p) => Some(p@),
        None => None,
    }
}

/// Computes [`planned`].
pub fn exact_plan(query: &str, type_search: bool) -> (r: Option<ExactPlan>)
    ensures
        opt_plan(r) == planned(query@, type_search),
{
    if type_search {
        return None;
    }
    if let Some(a) = anchored_api_query(query) {
        return Some(
            ExactPlan {
                anchor: a.anchor,
                refinement_tokens: a.tokens,
                requested_terms: a.requested,
                recover_continuation: false,
                source_requested: query_requests_proof_body(query),
            },
        );
    }
    let list = split_words(query);
    if is_asking_text(query, &list) {
        assert(strs(list@)[0] == list@[0]@);
        return Some(make_plain_plan(list[0], false, true));
    }
    if declaration_name_query(query) {
        Some(make_plain_plan(query, true, false))
    } else {
        None
    }
}

/// How a query in plain text is searched.
#[derive(Clone, Copy, Debug, PartialEq, Eq, Structural)]
pub enum TextSearchPlan {
    /// A declaration is looked up before anything else.
    ExactFirst,
    /// Types are matched.
    Type,
    /// Everything is searched.
    Discovery,
}

/// The plan for a query in plain text.
pub open spec fn text_plan(query: Seq<char>) -> TextSearchPlan {
    if type_like(query) {
        TextSearchPlan::Type
    } else if field_inventory(query) is Some || planned(query, false) is Some || (announced_name(
        query,
    ) is Some && name_query(announced_name(query)->0)) {
        TextSearchPlan::ExactFirst
    } else {
        TextSearchPlan::Discovery
    }
}

/// Computes [`text_plan`].
pub fn text_search_plan(query: &str) -> (r: TextSearchPlan)
    ensures
        r == text_plan(query@),
{
    if type_shaped(query) {
        return TextSearchPlan::Type;
    }
    let announced = match explicit_declaration_name(query) {
        Some(name) => declaration_name_query(name),
        None => false,
    };
    if field_inventory_query(query).is_some() || exact_plan(query, false).is_some() || announced {
        TextSearchPlan::ExactFirst
    } else {
        TextSearchPlan::Discovery
    }
}

/// An optional text, or nothing.
pub open spec fn or_nothing(text: Option<Seq<char>>) -> Seq<char> {
    match text {
        Some(t) => t,
        None => ""@,
    }
}

fn str_or_nothing<'a>(text: &'a Option<String>) -> (r: &'a str)
    ensures
        r@ == or_nothing(opt_string(*text)),
{
    match text {
        Some(t) => t.as_str(),
        None => "",
    }
}

/// The texts of hits in which terms are looked for.
pub open spec fn searchable_texts(hits: Seq<HitView>) -> Seq<Seq<char>> {
    hits.map_values(
        |h: HitView|
            h.name + " "@ + or_nothing(h.signature) + " "@ + or_nothing(h.doc) + " "@ + or_nothing(
                h.source,
            ),
    )
}

/// The terms that a text lacks.
pub open spec fn absent(terms: Seq<Seq<char>>, text: Seq<char>) -> Seq<Seq<char>>
    decreases terms.len(),
{
    if terms.len() == 0 {
        Seq::empty()
    } else if has_text(text, terms.last()) {
        absent(terms.drop_last(), text)
    } else {
        absent(terms.drop_last(), text).push(terms.last())
    }
}

/// At most `n` of the first texts.
pub open spec fn at_most(list: Seq<Seq<char>>, n: nat) -> Seq<Seq<char>> {
    if list.len() <= n {
        list
    } else {
        list.take(n as int)
    }
}

/// The first four terms that no hit mentions.
pub open spec fn missing_terms(hits: Seq<HitView>, terms: Seq<Seq<char>>) -> Seq<Seq<char>> {
    at_most(absent(terms, lowercased(joined(searchable_texts(hits), " "@))), 4)
}

fn collect_searchable(hits: &Vec<SearchHit>) -> (r: Vec<String>)
    ensures
        strings(r@) == searchable_texts(hit_views(hits@)),
{
    let ghost wanted = searchable_texts(hit_views(hits@));
    let mut out: Vec<String> = Vec::new();
    for i in 0..hits.len()
        invariant
            wanted == searchable_texts(hit_views(hits@)),
            strings(out@) == wanted.take(i as int),
    {
        proof {
            prefix_step(wanted, i as int);
        }
        let hit = &hits[i];
        let mut text = cat3(hit.name.as_str(), " ", str_or_nothing(&hit.signature));
        push_str(&mut text, " ");
        push_str(&mut text, str_or_nothing(&hit.doc));
        push_str(&mut text, " ");
        push_str(&mut text, str_or_nothing(&hit.source));
        out.push(text);
    }
    proof {
        prefix_all(wanted);
    }
    out
}

/// Computes [`missing_terms`].
pub fn missing_hit_terms(hits: &Vec<SearchHit>, terms: &Vec<String>) -> (r: Vec<String>)
    ensures
        strings(r@) == missing_terms(hit_views(hits@), strings(terms@)),
{
    let text = to_lowercase(join(&collect_searchable(hits), " ").as_str());
    let ghost views = strings(terms@);
    let mut all: Vec<String> = Vec::new();
    for i in 0..terms.len()
        invariant
            views == strings(terms@),
            strings(all@) == absent(views.take(i as int), text@),
    {
        proof {
            prefix_step(views, i as int);
        }
        assert(views[i as int] == terms@[i as int]@);
        if !contains(text.as_str(), terms[i].as_str()) {
            all.push(terms[i].clone());
        }
    }
    proof {
        prefix_all(views);
    }
    let ghost whole = strings(all@);
    assert(whole.len() == all.len());
    if all.len() > 4 {
        all.truncate(4);
        assert(strings(all@) =~= whole.take(4));
    }
    all
}

/// How many characters of the tokens stand in the name and signature of a hit.
pub open spec fn refinement_weight(text: Seq<char>, tokens: Seq<Seq<char>>) -> nat
    decreases tokens.len(),
{
    if tokens.len() == 0 {
        0
    } else {
        refinement_weight(text, tokens.drop_last()) + if has_text(text, tokens.last()) {
            tokens.last().len()
        } else {
            0
        }
    }
}

/// The weight of the tokens in the name and signature of a hit, see
/// [`refinement_weight`].
pub fn context_refinement_score(hit: &SearchHit, tokens: &Vec<String>) -> (r: u64)
    ensures
        r == crate::search::score::capped(
            refinement_weight(
                lowercased(hit@.name + " "@ + or_nothing(hit@.signature)),
                strings(tokens@),
            ),
        ),
{
    let text = to_lowercase(
        cat3(hit.name.as_str(), " ", str_or_nothing(&hit.signature)).as_str(),
    );
    let ghost views = strings(tokens@);
    let mut weight: u64 = 0;
    for i in 0..tokens.len()
        invariant
            views == strings(tokens@),
            weight == crate::search::score::capped(
                refinement_weight(text@, views.take(i as int)),
            ),
    {
        proof {
            prefix_step(views, i as int);
        }
        assert(views[i as int] == tokens@[i as int]@);
        if contains(text.as_str(), tokens[i].as_str()) {
            weight = weight.saturating_add(tokens[i].as_str().unicode_len() as u64);
        }
    }
    proof {
        prefix_all(views);
    }
    weight
}

/// A note with something put before it.
pub open spec fn noted(note: Option<Seq<char>>, prefix: Seq<char>) -> Option<Seq<char>> {
    match note {
        Some(existing) => Some(prefix + "; "@ + existing),
        None => Some(prefix),
    }
}

/// Puts something before a note, see [`noted`].
pub fn prepend_search_note(note: &mut Option<String>, prefix: &str)
    ensures
        opt_string(*final(note)) == noted(opt_string(*old(note)), prefix@),
{
    let next = match note {
        Some(existing) => cat3(prefix, "; ", existing.as_str()),
        None => own(prefix),
    };
    *note = Some(next);
}

/// A result with a note on the terms that no hit mentions.
pub open spec fn annotated(result: ResultView, requested: Seq<Seq<char>>) -> ResultView {
    let missing = missing_terms(result.hits, requested);
    if missing.len() == 0 {
        result
    } else {
        ResultView {
            note: noted(result.note, "no nearby match for "@ + joined(missing, ", "@)),
            ..result
        }
    }
}

/// Notes the missing terms, see [`annotated`].
pub fn annotate_missing_hit_terms(result: &mut SearchResult, requested: &Vec<String>)
    ensures
        final(result)@ == annotated(old(result)@, strings(requested@)),
{
    let missing = missing_hit_terms(&result.hits, requested);
    assert(strings(missing@).len() == missing.len());
    if missing.len() == 0 {
        return;
    }
    let list = join(&missing, ", ");
    prepend_search_note(&mut result.note, cat2("no nearby match for ", list.as_str()).as_str());
}

/// The parts of a note that say nothing of missing terms.
pub open spec fn other_notes(parts: Seq<Seq<char>>) -> Seq<Seq<char>>
    decreases parts.len(),
{
    if parts.len() == 0 {
        Seq::empty()
    } else if begins(parts.last(), "no nearby match for "@) {
        other_notes(parts.drop_last())
    } else {
        other_notes(parts.drop_last()).push(parts.last())
    }
}

/// A note without what it says of missing terms.
pub open spec fn without_missing(note: Option<Seq<char>>) -> Option<Seq<char>> {
    match note {
        Some(text) => {
            let kept = joined(other_notes(fields(text, "; "@)), "; "@);
            if kept.len() > 0 {
                Some(kept)
            } else {
                None
            }
        },
        None => None,
    }
}

/// Takes out of a note what it says of missing terms, see [`without_missing`].
pub fn suppress_inferred_missing_note(note: &mut Option<String>)
    ensures
        opt_string(*final(note)) == without_missing(opt_string(*old(note))),
{
    let Some(text) = note else {
        return;
    };
    proof {
        reveal_strlit("; ");
    }
    let parts = split_text(text.as_str(), "; ");
    let ghost views = strs(parts@);
    let mut kept: Vec<String> = Vec::new();
    for i in 0..parts.len()
        invariant
            views == strs(parts@),
            strings(kept@) == other_notes(views.take(i as int)),
    {
        proof {
            prefix_step(views, i as int);
        }
        assert(views[i as int] == parts@[i as int]@);
        if !starts_with(parts[i], "no nearby match for ") {
            kept.push(own(parts[i]));
        }
    }
    proof {
        prefix_all(views);
    }
    let retained = join(&kept, "; ");
    if retained.as_str().is_empty() {
        *note = None;
    } else {
        *note = Some(retained);
    }
}

/// A hit by its absolute name, unless it is an inventory of fields.
pub open spec fn absolute(hit: HitView) -> HitView {
    if hit.kind != "fields"@ && !begins(hit.name, "_root_."@) {
        HitView { name: "_root_."@ + hit.name, ..hit }
    } else {
        hit
    }
}

/// The result of looking up one declaration: the first hit by its absolute name.
pub open spec fn exact_result(hits: Seq<HitView>, warming: bool) -> ResultView {
    ResultView {
        hits: if hits.len() > 0 {
            hits.update(0, absolute(hits[0]))
        } else {
            hits
        },
        inference: "exact"@,
        note: if warming {
            Some("source index warming"@)
        } else {
            None
        },
        ok: true,
    }
}

/// Computes [`exact_result`].
pub fn exact_search_result(hits: Vec<SearchHit>, base_warming: bool) -> (r: SearchResult)
    ensures
        r@ == exact_result(hit_views(hits@), base_warming),
{
    let mut list = hits;
    let ghost before = hit_views(list@);
    assert(before.len() == list.len());
    if list.len() > 0 {
        assert(before[0] == list@[0]@);
        let mut first = list[0].copy();
        if !same(first.kind.as_str(), "fields") && !starts_with(first.name.as_str(), "_root_.") {
            first.name = cat2("_root_.", first.name.as_str());
        }
        list.set(0, first);
        assert(hit_views(list@) =~= before.update(0, first@));
    }
    SearchResult {
        hits: list,
        inference: own("exact"),
        note: if base_warming {
            Some(own("source index warming"))
        } else {
            None
        },
        ok: true,
    }
}

/// Looking up a declaration by its absolute name finds the same declaration.
pub proof fn absolute_keeps_the_name(hit: HitView)
    ensures
        canonical(absolute(hit).name) == canonical(hit.name),
{
    reveal_strlit("_root_.");
    if hit.kind != "fields"@ && !begins(hit.name, "_root_."@) {
        let named = "_root_."@ + hit.name;
        assert(named.take("_root_."@.len() as int) =~= "_root_."@);
        assert(named.subrange(0, "_root_."@.len() as int) =~= "_root_."@);
        assert(begins(named, "_root_."@));
        assert(named.skip("_root_."@.len() as int) =~= hit.name);
    }
}

proof fn absent_are_absent(terms: Seq<Seq<char>>, text: Seq<char>)
    ensures
        forall|i: int|
            0 <= i < absent(terms, text).len() ==> terms.contains(#[trigger] absent(terms, text)[i])
                && !has_text(text, absent(terms, text)[i]),
    decreases terms.len(),
{
    if terms.len() > 0 {
        let shorter = terms.drop_last();
        absent_are_absent(shorter, text);
        let earlier = absent(shorter, text);
        let list = absent(terms, text);
        assert forall|i: int| 0 <= i < list.len() implies terms.contains(#[trigger] list[i])
            && !has_text(text, list[i]) by {
            if i < earlier.len() {
                assert(list[i] == earlier[i]);
                assert(terms[shorter.index_of(earlier[i])] == list[i]);
            } else {
                assert(terms[terms.len() - 1] == list[i]);
            }
        }
    }
}

/// At most four terms are said to be missing, each of them asked for and mentioned by no
/// hit.
pub proof fn missing_terms_are_missing(hits: Seq<HitView>, terms: Seq<Seq<char>>)
    ensures
        missing_terms(hits, terms).len() <= 4,
        forall|i: int|
            0 <= i < missing_terms(hits, terms).len() ==> terms.contains(
                #[trigger] missing_terms(hits, terms)[i],
            ) && !has_text(
                lowercased(joined(searchable_texts(hits), " "@)),
                missing_terms(hits, terms)[i],
            ),
{
    let text = lowercased(joined(searchable_texts(hits), " "@));
    absent_are_absent(terms, text);
    assert forall|i: int| 0 <= i < missing_terms(hits, terms).len() implies terms.contains(
        #[trigger] missing_terms(hits, terms)[i],
    ) && !has_text(text, missing_terms(hits, terms)[i]) by {
        assert(missing_terms(hits, terms)[i] == absent(terms, text)[i]);
    }
}

proof fn called_are_called(list: Seq<CandidateView>, name: Seq<char>)
    ensures
        forall|i: int|
            0 <= i < called(list, name).len() ==> alike(
                canonical((#[trigger] called(list, name)[i]).hit.name),
                name,
            ) && list.contains(called(list, name)[i]),
    decreases list.len(),
{
    if list.len() > 0 {
        let shorter = list.drop_last();
        called_are_called(shorter, name);
        let earlier = called(shorter, name);
        let all = called(list, name);
        assert forall|i: int| 0 <= i < all.len() implies alike(
            canonical((#[trigger] all[i]).hit.name),
            name,
        ) && list.contains(all[i]) by {
            if i < earlier.len() {
                assert(all[i] == earlier[i]);
                assert(list[shorter.index_of(earlier[i])] == all[i]);
            } else {
                assert(list[list.len() - 1] == all[i]);
            }
        }
    }
}

/// A query resolves to candidates of one declaration: their names differ in their case
/// and in the mark of the root namespace at most.
pub proof fn queries_resolve_to_one_declaration(
    list: Seq<CandidateView>,
    query: Seq<char>,
    i: int,
    j: int,
)
    requires
        resolved(list, query) is Some,
        0 <= i < (resolved(list, query)->0).len(),
        0 <= j < (resolved(list, query)->0).len(),
    ensures
        list.contains((resolved(list, query)->0)[i]),
        alike(
            canonical((resolved(list, query)->0)[i].hit.name),
            canonical((resolved(list, query)->0)[j].hit.name),
        ),
{
    let exact = exact_names_of(hits_of(list), canonical(query));
    let names = if exact.len() > 0 {
        exact
    } else {
        meant_names(list, query)
    };
    called_are_called(list, sole(names)->0);
}

} // verus!

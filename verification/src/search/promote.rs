//! Which candidates come first: those that cover the query, and those that belong
//! together.
use crate::order::key_list;
use crate::search::names::{
    count_chars, declaration_glob_leaf_matches, declaration_glob_query, declaration_name_query,
    glob_leaf_match, glob_query, name_query, qualified_match, qualified_name_matches,
    split_alternatives, tally,
};
use crate::search::rank::{
    all_in_context, apply_context_scores, apply_declaration_glob, arrange, arranged, best_named,
    find_best_named, find_only, find_passing, find_sole_alternative, first_passing, glob_kept,
    glob_missed, is_whole_file, only_passing, opt_imports, opt_index, promote_at, promoted_at,
    put_first, real_alternatives, sole_alternative, sort_and_merge_candidates, sorted_and_merged,
    take_at, whole_file, CandidateTest, ImportContext, ImportContextView, Split, TestView,
    CONTEXT_GROUP, SUMMARY_LIMIT,
};
use crate::search::records::{
    candidate_views, candidate_views_push, Candidate, CandidateView, HitView, SearchHit,
};
use crate::search::score::{capped_pair, coverage, hit_query_coverage, name_tally, tally_name};
use crate::search::tokens::{
    distinct, identifier_query_parts, keep_passing, leaf, leaf_of, meaningful_query_tokens,
    name_parts, passing, search_tokens, without_repeats, TokenTest,
};
use crate::text::class::{has_char, Class};
use crate::text::make::{
    byte_length, prefix_all, prefix_step, same, strings, strings_push, strs, strs_push,
};
use crate::text::pieces::keep_nonempty;
use crate::text::scan::{contains, ends, ends_with, rcut, rsplit_once};
use vstd::prelude::*;

verus! {

broadcast use {strings_push, strs_push, candidate_views_push};

/// A token that is a qualified name and no file.
pub open spec fn qualified_token(t: Seq<char>) -> bool {
    t.contains('.') && !ends(t, ".lean"@)
}

fn is_qualified_token(t: &str) -> (r: bool)
    ensures
        r == qualified_token(t@),
{
    has_char(t, '.') && !ends_with(t, ".lean")
}

/// The qualified names among tokens.
pub open spec fn qualified_tokens(list: Seq<Seq<char>>) -> Seq<Seq<char>>
    decreases list.len(),
{
    if list.len() == 0 {
        Seq::empty()
    } else if qualified_token(list.last()) {
        qualified_tokens(list.drop_last()).push(list.last())
    } else {
        qualified_tokens(list.drop_last())
    }
}

fn keep_qualified(list: &Vec<String>) -> (r: Vec<String>)
    ensures
        strings(r@) == qualified_tokens(strings(list@)),
{
    let ghost views = strings(list@);
    let mut out: Vec<String> = Vec::new();
    for i in 0..list.len()
        invariant
            views == strings(list@),
            strings(out@) == qualified_tokens(views.take(i as int)),
    {
        proof {
            prefix_step(views, i as int);
        }
        assert(views[i as int] == list@[i as int]@);
        if is_qualified_token(list[i].as_str()) {
            out.push(list[i].clone());
        }
    }
    proof {
        prefix_all(views);
    }
    out
}

/// The candidate for a qualified name: what it names, or its owner; with several
/// qualified names the owner first.
pub open spec fn qualified_choice(
    list: Seq<CandidateView>,
    token: Seq<char>,
    single: bool,
) -> Option<int> {
    let direct = first_passing(list, TestView::Direct(token), 0);
    let owner = first_passing(list, TestView::Owner(token), 0);
    if single {
        if direct is Some {
            direct
        } else {
            owner
        }
    } else if owner is Some {
        owner
    } else {
        direct
    }
}

fn choose_qualified(list: &Vec<Candidate>, token: &str, single: bool) -> (r: Option<usize>)
    ensures
        opt_index(r) == qualified_choice(candidate_views(list@), token@, single),
        r is Some ==> r->0 < list.len(),
{
    let direct = find_passing(list, CandidateTest::Direct(token), 0);
    let owner = find_passing(list, CandidateTest::Owner(token), 0);
    if single {
        if direct.is_some() {
            direct
        } else {
            owner
        }
    } else if owner.is_some() {
        owner
    } else {
        direct
    }
}

/// The candidates for the qualified names promoted.
pub open spec fn qualified_promoted(state: Split, tokens: Seq<Seq<char>>, single: bool) -> Split
    decreases tokens.len(),
{
    if tokens.len() == 0 {
        state
    } else {
        let earlier = qualified_promoted(state, tokens.drop_last(), single);
        promoted_at(earlier, qualified_choice(earlier.1, tokens.last(), single))
    }
}

/// Four numbers in lexicographic order.
pub open spec fn four_less(a: (u64, u64, u64, u64), b: (u64, u64, u64, u64)) -> bool {
    a.0 < b.0 || (a.0 == b.0 && (a.1 < b.1 || (a.1 == b.1 && (a.2 < b.2 || (a.2 == b.2 && a.3
        < b.3)))))
}

fn is_four_less(a: (u64, u64, u64, u64), b: (u64, u64, u64, u64)) -> (r: bool)
    ensures
        r == four_less(a, b),
{
    a.0 < b.0 || (a.0 == b.0 && (a.1 < b.1 || (a.1 == b.1 && (a.2 < b.2 || (a.2 == b.2 && a.3
        < b.3)))))
}

/// The best coverage of any of several lists of tokens.
pub open spec fn best_coverage(hit: HitView, lists: Seq<Seq<Seq<char>>>) -> (u64, u64, u64, u64)
    decreases lists.len(),
{
    if lists.len() == 0 {
        (0, 0, 0, 0)
    } else {
        let earlier = best_coverage(hit, lists.drop_last());
        let here = coverage(hit, lists.last());
        if four_less(earlier, here) {
            here
        } else {
            earlier
        }
    }
}

/// The tokens of the alternatives that have any.
pub open spec fn alternative_tokens(parts: Seq<Seq<char>>) -> Seq<Seq<Seq<char>>>
    decreases parts.len(),
{
    if parts.len() == 0 {
        Seq::empty()
    } else {
        let earlier = alternative_tokens(parts.drop_last());
        if search_tokens(parts.last()).len() > 0 {
            earlier.push(search_tokens(parts.last()))
        } else {
            earlier
        }
    }
}

/// The contents of lists of strings.
pub open spec fn token_lists(lists: Seq<Vec<String>>) -> Seq<Seq<Seq<char>>> {
    lists.map_values(|l: Vec<String>| strings(l@))
}

fn collect_alternative_tokens(parts: &Vec<&str>) -> (r: Vec<Vec<String>>)
    ensures
        token_lists(r@) == alternative_tokens(strs(parts@)),
{
    let ghost views = strs(parts@);
    let mut out: Vec<Vec<String>> = Vec::new();
    assert(token_lists(out@) =~= Seq::empty());
    for i in 0..parts.len()
        invariant
            views == strs(parts@),
            token_lists(out@) == alternative_tokens(views.take(i as int)),
    {
        proof {
            prefix_step(views, i as int);
        }
        assert(views[i as int] == parts@[i as int]@);
        let tokens = meaningful_query_tokens(parts[i]);
        assert(strings(tokens@).len() == tokens.len());
        if tokens.len() > 0 {
            let ghost before = token_lists(out@);
            out.push(tokens);
            assert(token_lists(out@) =~= before.push(strings(tokens@)));
        }
    }
    proof {
        prefix_all(views);
    }
    out
}

fn find_best_coverage(hit: &SearchHit, lists: &Vec<Vec<String>>) -> (r: (u64, u64, u64, u64))
    ensures
        r == best_coverage(hit@, token_lists(lists@)),
{
    let ghost views = token_lists(lists@);
    let mut best: (u64, u64, u64, u64) = (0, 0, 0, 0);
    for i in 0..lists.len()
        invariant
            views == token_lists(lists@),
            best == best_coverage(hit@, views.take(i as int)),
    {
        proof {
            prefix_step(views, i as int);
        }
        assert(views[i as int] == strings(lists@[i as int]@));
        let here = hit_query_coverage(hit, &lists[i]);
        if is_four_less(best, here) {
            best = here;
        }
    }
    proof {
        prefix_all(views);
    }
    best
}

/// The parts of a compound name without a namespace, where it has two or more.
pub open spec fn compound_parts(query: Seq<char>) -> Option<Seq<Seq<char>>> {
    let parts = passing(name_parts(query), TokenTest::Bytes(3));
    if name_query(query) && !query.contains('.') && parts.len() >= 2 {
        Some(parts)
    } else {
        None
    }
}

/// The contents of an optional list of strings.
pub open spec fn opt_strings(list: Option<Vec<String>>) -> Option<Seq<Seq<char>>> {
    match list {
        Some(l) => Some(strings(l@)),
        None => None,
    }
}

/// Computes [`compound_parts`].
pub fn compound_name_query_parts(query: &str) -> (r: Option<Vec<String>>)
    ensures
        opt_strings(r) == compound_parts(query@),
{
    if !(declaration_name_query(query) && !has_char(query, '.')) {
        return None;
    }
    let parts = keep_passing(&identifier_query_parts(query), TokenTest::Bytes(3));
    assert(strings(parts@).len() == parts.len());
    if parts.len() >= 2 {
        Some(parts)
    } else {
        None
    }
}

/// How a name covers the parts of a compound name.
pub open spec fn compound_cover(name: Seq<char>, parts: Option<Seq<Seq<char>>>) -> (u64, u64) {
    match parts {
        Some(list) => capped_pair(name_tally(name, list)),
        None => (0, 0),
    }
}

fn cover_compound(name: &str, parts: &Option<Vec<String>>) -> (r: (u64, u64))
    ensures
        r == compound_cover(name@, opt_strings(*parts)),
{
    match parts {
        Some(list) => tally_name(name, list),
        None => (0, 0),
    }
}

/// The coverage of a hit: by its best alternative, or by all tokens.
pub open spec fn hit_cover(
    hit: HitView,
    lists: Seq<Seq<Seq<char>>>,
    tokens: Seq<Seq<char>>,
) -> (u64, u64, u64, u64) {
    if lists.len() > 1 {
        best_coverage(hit, lists)
    } else {
        coverage(hit, tokens)
    }
}

/// The key that orders by coverage, the best first.
pub open spec fn cover_key(
    c: CandidateView,
    lists: Seq<Seq<Seq<char>>>,
    tokens: Seq<Seq<char>>,
    parts: Option<Seq<Seq<char>>>,
) -> Seq<u64> {
    let compound = compound_cover(c.hit.name, parts);
    let cover = hit_cover(c.hit, lists, tokens);
    seq![
        (u64::MAX - compound.0) as u64,
        (u64::MAX - compound.1) as u64,
        (u64::MAX - cover.0) as u64,
        (u64::MAX - cover.1) as u64,
        (u64::MAX - cover.2) as u64,
        (u64::MAX - cover.3) as u64,
    ]
}

/// A list in the order of coverage.
pub open spec fn by_cover(
    list: Seq<CandidateView>,
    lists: Seq<Seq<Seq<char>>>,
    tokens: Seq<Seq<char>>,
    parts: Option<Seq<Seq<char>>>,
) -> Seq<CandidateView> {
    arranged(list, list.map_values(|c: CandidateView| cover_key(c, lists, tokens, parts)))
}

fn order_by_cover(
    list: &Vec<Candidate>,
    lists: &Vec<Vec<String>>,
    tokens: &Vec<String>,
    parts: &Option<Vec<String>>,
) -> (r: Vec<Candidate>)
    ensures
        candidate_views(r@) == by_cover(
            candidate_views(list@),
            token_lists(lists@),
            strings(tokens@),
            opt_strings(*parts),
        ),
{
    let ghost wanted = candidate_views(list@).map_values(
        |c: CandidateView|
            cover_key(c, token_lists(lists@), strings(tokens@), opt_strings(*parts)),
    );
    let mut keys: Vec<Vec<u64>> = Vec::new();
    assert(key_list(keys@) =~= wanted.take(0));
    for i in 0..list.len()
        invariant
            wanted == candidate_views(list@).map_values(
                |c: CandidateView|
                    cover_key(c, token_lists(lists@), strings(tokens@), opt_strings(*parts)),
            ),
            keys.len() == i,
            key_list(keys@) == wanted.take(i as int),
    {
        proof {
            prefix_step(wanted, i as int);
        }
        let hit = &list[i].hit;
        let compound = cover_compound(hit.name.as_str(), parts);
        assert(token_lists(lists@).len() == lists.len());
        let cover = if lists.len() > 1 {
            find_best_coverage(hit, lists)
        } else {
            hit_query_coverage(hit, tokens)
        };
        let mut key: Vec<u64> = Vec::new();
        key.push(u64::MAX - compound.0);
        key.push(u64::MAX - compound.1);
        key.push(u64::MAX - cover.0);
        key.push(u64::MAX - cover.1);
        key.push(u64::MAX - cover.2);
        key.push(u64::MAX - cover.3);
        assert(key@ =~= wanted[i as int]);
        let ghost before = key_list(keys@);
        keys.push(key);
        assert(key_list(keys@) =~= before.push(wanted[i as int]));
    }
    proof {
        prefix_all(wanted);
    }
    arrange(list, &keys)
}

/// The candidate that a token calls for: the only one with that name, else the one
/// whose name answers it and most of the others, else for a long token that nothing
/// promoted answers the first that does.
pub open spec fn token_choice(
    state: Split,
    token: Seq<char>,
    tokens: Seq<Seq<char>>,
) -> Option<int> {
    let exact = only_passing(state.1, TestView::Exact(token));
    let named = best_named(state.1, TestView::Named(token), tokens);
    if exact is Some {
        exact
    } else if named is Some {
        named
    } else if byte_length(token) >= 6 && first_passing(state.0, TestView::Answers(token), 0)
        is None {
        first_passing(state.1, TestView::Told(token), 0)
    } else {
        None
    }
}

fn choose_for_token(
    promoted: &Vec<Candidate>,
    remaining: &Vec<Candidate>,
    token: &str,
    tokens: &Vec<String>,
) -> (r: Option<usize>)
    ensures
        opt_index(r) == token_choice(
            (candidate_views(promoted@), candidate_views(remaining@)),
            token@,
            strings(tokens@),
        ),
        r is Some ==> r->0 < remaining.len(),
{
    let exact = find_only(remaining, CandidateTest::Exact(token));
    if exact.is_some() {
        return exact;
    }
    let named = find_best_named(remaining, CandidateTest::Named(token), tokens);
    if named.is_some() {
        return named;
    }
    if token.len() >= 6 && find_passing(promoted, CandidateTest::Answers(token), 0).is_none() {
        find_passing(remaining, CandidateTest::Told(token), 0)
    } else {
        None
    }
}

/// What is promoted and what remains, and whether the summary is full.
pub type Progress = (Split, bool);

/// The candidates that the tokens call for promoted, until the summary is full.
pub open spec fn token_promoted(
    state: Split,
    list: Seq<Seq<char>>,
    tokens: Seq<Seq<char>>,
) -> Progress
    decreases list.len(),
{
    if list.len() == 0 {
        (state, false)
    } else {
        let (earlier, full) = token_promoted(state, list.drop_last(), tokens);
        if full || byte_length(list.last()) < 3 || first_passing(
            earlier.0,
            TestView::NameAnswers(list.last()),
            0,
        ) is Some {
            (earlier, full)
        } else {
            let next = promoted_at(earlier, token_choice(earlier, list.last(), tokens));
            (next, next.0.len() == SUMMARY_LIMIT)
        }
    }
}

/// The candidates in the order of what they cover of the query.
pub open spec fn cover_promoted(
    ranked: Seq<CandidateView>,
    query: Seq<char>,
    tokens: Seq<Seq<char>>,
) -> Seq<CandidateView> {
    if ranked.len() <= 1 || tokens.len() <= 1 {
        ranked
    } else {
        let parts = real_alternatives(query);
        let start: Split = (Seq::empty(), ranked);
        let named = if parts.len() > 1 {
            promoted_at(start, sole_alternative(ranked, parts, 0))
        } else {
            start
        };
        let qualified = qualified_tokens(tokens);
        let owned = if parts.len() > 1 {
            named
        } else {
            qualified_promoted(named, qualified, qualified.len() == 1)
        };
        let sorted = (
            owned.0,
            by_cover(owned.1, alternative_tokens(parts), tokens, compound_parts(query)),
        );
        let led = if sorted.0.len() < SUMMARY_LIMIT && sorted.1.len() > 0 {
            promoted_at(sorted, Some(0))
        } else {
            sorted
        };
        let done = token_promoted(led, tokens, tokens).0;
        done.0 + done.1
    }
}

fn promote_qualified(
    promoted: &mut Vec<Candidate>,
    remaining: &mut Vec<Candidate>,
    qualified: &Vec<String>,
)
    ensures
        (candidate_views(final(promoted)@), candidate_views(final(remaining)@))
            == qualified_promoted(
            (candidate_views(old(promoted)@), candidate_views(old(remaining)@)),
            strings(qualified@),
            qualified.len() == 1,
        ),
{
    let ghost start = (candidate_views(promoted@), candidate_views(remaining@));
    let ghost views = strings(qualified@);
    let single = qualified.len() == 1;
    for i in 0..qualified.len()
        invariant
            views == strings(qualified@),
            (candidate_views(promoted@), candidate_views(remaining@)) == qualified_promoted(
                start,
                views.take(i as int),
                single,
            ),
    {
        proof {
            prefix_step(views, i as int);
        }
        assert(views[i as int] == qualified@[i as int]@);
        let at = choose_qualified(remaining, qualified[i].as_str(), single);
        promote_at(promoted, remaining, at);
    }
    proof {
        prefix_all(views);
    }
}

fn promote_tokens(
    promoted: &mut Vec<Candidate>,
    remaining: &mut Vec<Candidate>,
    tokens: &Vec<String>,
)
    ensures
        (candidate_views(final(promoted)@), candidate_views(final(remaining)@)) == token_promoted(
            (candidate_views(old(promoted)@), candidate_views(old(remaining)@)),
            strings(tokens@),
            strings(tokens@),
        ).0,
{
    let ghost start = (candidate_views(promoted@), candidate_views(remaining@));
    let ghost views = strings(tokens@);
    let mut full = false;
    for i in 0..tokens.len()
        invariant
            views == strings(tokens@),
            ((candidate_views(promoted@), candidate_views(remaining@)), full) == token_promoted(
                start,
                views.take(i as int),
                views,
            ),
    {
        proof {
            prefix_step(views, i as int);
        }
        assert(views[i as int] == tokens@[i as int]@);
        let token = tokens[i].as_str();
        if !(full || token.len() < 3 || find_passing(
            promoted,
            CandidateTest::NameAnswers(token),
            0,
        ).is_some()) {
            let at = choose_for_token(promoted, remaining, token, tokens);
            promote_at(promoted, remaining, at);
            assert(candidate_views(promoted@).len() == promoted.len());
            full = promoted.len() == SUMMARY_LIMIT;
        }
    }
    proof {
        prefix_all(views);
    }
}

/// Computes [`cover_promoted`].
pub fn promote_query_coverage(ranked: &mut Vec<Candidate>, query: &str, tokens: &Vec<String>)
    ensures
        candidate_views(final(ranked)@) == cover_promoted(
            candidate_views(old(ranked)@),
            query@,
            strings(tokens@),
        ),
{
    assert(candidate_views(ranked@).len() == ranked.len());
    assert(strings(tokens@).len() == tokens.len());
    if ranked.len() <= 1 || tokens.len() <= 1 {
        return;
    }
    let mut remaining: Vec<Candidate> = Vec::new();
    std::mem::swap(&mut remaining, ranked);
    let mut promoted: Vec<Candidate> = Vec::new();
    assert(candidate_views(promoted@) =~= Seq::empty());
    let parts = keep_nonempty(split_alternatives(query));
    assert(strs(parts@).len() == parts.len());
    if parts.len() > 1 {
        let at = find_sole_alternative(&remaining, &parts);
        promote_at(&mut promoted, &mut remaining, at);
    } else {
        let qualified = keep_qualified(tokens);
        assert(strings(qualified@).len() == qualified.len());
        promote_qualified(&mut promoted, &mut remaining, &qualified);
    }
    let lists = collect_alternative_tokens(&parts);
    let compound = compound_name_query_parts(query);
    remaining = order_by_cover(&remaining, &lists, tokens, &compound);
    assert(candidate_views(promoted@).len() == promoted.len());
    assert(candidate_views(remaining@).len() == remaining.len());
    if promoted.len() < SUMMARY_LIMIT && remaining.len() > 0 {
        promote_at(&mut promoted, &mut remaining, Some(0));
    }
    promote_tokens(&mut promoted, &mut remaining, tokens);
    let ghost first = candidate_views(promoted@);
    let ghost second = candidate_views(remaining@);
    promoted.append(&mut remaining);
    assert(candidate_views(promoted@) =~= first + second);
    *ranked = promoted;
}

/// The tokens that a group of candidates is found by.
pub open spec fn context_tokens(query: Seq<char>, tokens: Seq<Seq<char>>) -> Seq<Seq<char>> {
    match compound_parts(query) {
        Some(parts) => parts,
        None => distinct(tokens),
    }
}

/// How the last component of a name covers tokens.
pub open spec fn leaf_cover(c: CandidateView, tokens: Seq<Seq<char>>) -> (u64, u64) {
    capped_pair(name_tally(leaf(c.hit.name), tokens))
}

/// The key of an anchor: for a compound name by coverage first, then by the depth of its
/// namespace.
pub open spec fn anchor_key(c: CandidateView, tokens: Seq<Seq<char>>, compound: bool) -> (
    u64,
    u64,
    nat,
) {
    let cover = leaf_cover(c, tokens);
    if compound {
        (
            (u64::MAX - cover.0) as u64,
            (u64::MAX - cover.1) as u64,
            tally(c.hit.name, Class::Is('.')),
        )
    } else {
        (0, 0, tally(c.hit.name, Class::Is('.')))
    }
}

/// Three numbers in lexicographic order.
pub open spec fn three_less(a: (u64, u64, nat), b: (u64, u64, nat)) -> bool {
    a.0 < b.0 || (a.0 == b.0 && (a.1 < b.1 || (a.1 == b.1 && a.2 < b.2)))
}

/// A declaration whose last component covers two tokens.
pub open spec fn may_anchor(c: CandidateView, tokens: Seq<Seq<char>>) -> bool {
    !whole_file(c.hit.kind) && leaf_cover(c, tokens).0 >= 2
}

/// The first of the best anchors.
pub open spec fn anchor_of(
    list: Seq<CandidateView>,
    tokens: Seq<Seq<char>>,
    compound: bool,
) -> Option<int>
    decreases list.len(),
{
    if list.len() == 0 {
        None
    } else {
        let earlier = anchor_of(list.drop_last(), tokens, compound);
        if may_anchor(list.last(), tokens) && (earlier is None || three_less(
            anchor_key(list.last(), tokens, compound),
            anchor_key(list[earlier->0], tokens, compound),
        )) {
            Some(list.len() - 1)
        } else {
            earlier
        }
    }
}

proof fn anchor_bounds(list: Seq<CandidateView>, tokens: Seq<Seq<char>>, compound: bool)
    ensures
        anchor_of(list, tokens, compound) is Some ==> 0 <= anchor_of(list, tokens, compound)->0
            < list.len(),
    decreases list.len(),
{
    if list.len() > 0 {
        anchor_bounds(list.drop_last(), tokens, compound);
    }
}

fn key_of_anchor(c: &Candidate, cover: (u64, u64), compound: bool, tokens: &Vec<String>) -> (r: (
    u64,
    u64,
    usize,
))
    requires
        cover == leaf_cover(c@, strings(tokens@)),
    ensures
        (r.0, r.1, r.2 as nat) == anchor_key(c@, strings(tokens@), compound),
{
    let depth = count_chars(c.hit.name.as_str(), Class::Is('.'));
    if compound {
        (u64::MAX - cover.0, u64::MAX - cover.1, depth)
    } else {
        (0, 0, depth)
    }
}

fn find_anchor(list: &Vec<Candidate>, tokens: &Vec<String>, compound: bool) -> (r: Option<usize>)
    ensures
        opt_index(r) == anchor_of(candidate_views(list@), strings(tokens@), compound),
        r is Some ==> r->0 < list.len(),
{
    let ghost views = candidate_views(list@);
    let mut best: Option<usize> = None;
    let mut least: (u64, u64, usize) = (0, 0, 0);
    for i in 0..list.len()
        invariant
            views == candidate_views(list@),
            opt_index(best) == anchor_of(views.take(i as int), strings(tokens@), compound),
            best is Some ==> best->0 < i && (least.0, least.1, least.2 as nat) == anchor_key(
                views[best->0 as int],
                strings(tokens@),
                compound,
            ),
    {
        proof {
            prefix_step(views, i as int);
            anchor_bounds(views.take(i as int), strings(tokens@), compound);
        }
        assert(views[i as int] == list@[i as int]@);
        let c = &list[i];
        let cover = tally_name(leaf_of(c.hit.name.as_str()), tokens);
        if !is_whole_file(c.hit.kind.as_str()) && cover.0 >= 2 {
            let here = key_of_anchor(c, cover, compound, tokens);
            let less = here.0 < least.0 || (here.0 == least.0 && (here.1 < least.1 || (here.1
                == least.1 && here.2 < least.2)));
            if best.is_none() || less {
                best = Some(i);
                least = here;
            }
        }
    }
    proof {
        prefix_all(views);
    }
    best
}

/// A declaration of the same source that answers some token.
pub open spec fn same_group(
    c: CandidateView,
    module: Seq<char>,
    path: Seq<char>,
    tokens: Seq<Seq<char>>,
) -> bool {
    (if module.len() == 0 {
        c.hit.path == path
    } else {
        c.hit.module == module
    }) && !whole_file(c.hit.kind) && leaf_cover(c, tokens).0 > 0
}

fn is_same_group(c: &Candidate, module: &str, path: &str, tokens: &Vec<String>) -> (r: bool)
    ensures
        r == same_group(c@, module@, path@, strings(tokens@)),
{
    let same_source = if module.is_empty() {
        same(c.hit.path.as_str(), path)
    } else {
        same(c.hit.module.as_str(), module)
    };
    same_source && !is_whole_file(c.hit.kind.as_str()) && tally_name(
        leaf_of(c.hit.name.as_str()),
        tokens,
    ).0 > 0
}

/// A group filled from the candidates from `i` on, and what is left of them.
pub open spec fn gathered(
    group: Seq<CandidateView>,
    rest: Seq<CandidateView>,
    i: int,
    module: Seq<char>,
    path: Seq<char>,
    tokens: Seq<Seq<char>>,
) -> Split
    decreases rest.len() - i,
{
    if group.len() >= CONTEXT_GROUP || i >= rest.len() || i < 0 {
        (group, rest)
    } else if same_group(rest[i], module, path, tokens) {
        gathered(group.push(rest[i]), rest.remove(i), i, module, path, tokens)
    } else {
        gathered(group, rest, i + 1, module, path, tokens)
    }
}

/// The best anchor first, followed by candidates of its source.
pub open spec fn context_promoted(
    ranked: Seq<CandidateView>,
    query: Seq<char>,
    tokens: Seq<Seq<char>>,
) -> Seq<CandidateView> {
    let found = context_tokens(query, tokens);
    match anchor_of(ranked, found, compound_parts(query) is Some) {
        None => ranked,
        Some(at) => {
            let anchor = ranked[at];
            let done = gathered(
                seq![anchor],
                ranked.remove(at),
                0,
                anchor.hit.module,
                anchor.hit.path,
                found,
            );
            done.0 + done.1
        },
    }
}

/// Computes [`context_promoted`].
pub fn promote_result_context(ranked: &mut Vec<Candidate>, query: &str, tokens: &Vec<String>)
    ensures
        candidate_views(final(ranked)@) == context_promoted(
            candidate_views(old(ranked)@),
            query@,
            strings(tokens@),
        ),
{
    let compound = compound_name_query_parts(query);
    let is_compound = compound.is_some();
    let found = match compound {
        Some(parts) => parts,
        None => without_repeats(tokens),
    };
    let Some(at) = find_anchor(ranked, &found, is_compound) else {
        return;
    };
    let anchor = take_at(ranked, at);
    let module = anchor.hit.module.clone();
    let path = anchor.hit.path.clone();
    let mut group: Vec<Candidate> = Vec::new();
    group.push(anchor);
    assert(candidate_views(group@) =~= seq![anchor@]);
    let ghost done = gathered(
        candidate_views(group@),
        candidate_views(ranked@),
        0,
        module@,
        path@,
        strings(found@),
    );
    let mut i: usize = 0;
    while group.len() < CONTEXT_GROUP && i < ranked.len()
        invariant
            i <= ranked.len(),
            done == gathered(
                candidate_views(group@),
                candidate_views(ranked@),
                i as int,
                module@,
                path@,
                strings(found@),
            ),
        decreases ranked.len() - i,
    {
        assert(candidate_views(ranked@)[i as int] == ranked@[i as int]@);
        assert(candidate_views(group@).len() == group.len());
        assert(candidate_views(ranked@).len() == ranked.len());
        if is_same_group(&ranked[i], module.as_str(), path.as_str(), &found) {
            let c = take_at(ranked, i);
            group.push(c);
        } else {
            i += 1;
        }
    }
    assert(candidate_views(group@).len() == group.len());
    assert(candidate_views(ranked@).len() == ranked.len());
    let ghost first = candidate_views(group@);
    let ghost second = candidate_views(ranked@);
    group.append(ranked);
    assert(candidate_views(group@) =~= first + second);
    *ranked = group;
}

/// The last of the candidates behind the first that cover most tokens.
pub open spec fn strongest(list: Seq<CandidateView>, tokens: Seq<Seq<char>>) -> Option<int>
    decreases list.len(),
{
    if list.len() <= 1 {
        None
    } else {
        let earlier = strongest(list.drop_last(), tokens);
        if earlier is None || coverage(list.last().hit, tokens).0 >= coverage(
            list[earlier->0].hit,
            tokens,
        ).0 {
            Some(list.len() - 1)
        } else {
            earlier
        }
    }
}

/// A candidate moved to the front.
pub open spec fn moved_first(list: Seq<CandidateView>, at: int) -> Seq<CandidateView> {
    list.remove(at).insert(0, list[at])
}

fn move_first(list: &mut Vec<Candidate>, at: usize)
    requires
        at < old(list).len(),
    ensures
        candidate_views(final(list)@) == moved_first(candidate_views(old(list)@), at as int),
{
    let c = take_at(list, at);
    put_first(list, c);
}

/// The candidate that covers most tokens first, where it covers two and more than the
/// first.
pub open spec fn strongest_promoted(
    ranked: Seq<CandidateView>,
    tokens: Seq<Seq<char>>,
) -> Seq<CandidateView> {
    if ranked.len() <= 1 || tokens.len() <= 1 {
        ranked
    } else {
        let at = strongest(ranked, tokens)->0;
        let most = coverage(ranked[at].hit, tokens).0;
        if most >= 2 && most > coverage(ranked[0].hit, tokens).0 {
            moved_first(ranked, at)
        } else {
            ranked
        }
    }
}

/// Computes [`strongest_promoted`].
pub fn promote_strongest_query_coverage(ranked: &mut Vec<Candidate>, tokens: &Vec<String>)
    ensures
        candidate_views(final(ranked)@) == strongest_promoted(
            candidate_views(old(ranked)@),
            strings(tokens@),
        ),
{
    let ghost views = candidate_views(ranked@);
    assert(views.len() == ranked.len());
    assert(strings(tokens@).len() == tokens.len());
    if ranked.len() <= 1 || tokens.len() <= 1 {
        return;
    }
    assert(views[0] == ranked@[0]@);
    assert(views[1] == ranked@[1]@);
    let top = hit_query_coverage(&ranked[0].hit, tokens).0;
    let mut best: usize = 1;
    let mut most = hit_query_coverage(&ranked[1].hit, tokens).0;
    proof {
        reveal_with_fuel(strongest, 3);
        assert(views.take(2).drop_last() =~= views.take(1));
        assert(views.take(2).last() == views[1]);
    }
    for i in 2..ranked.len()
        invariant
            views == candidate_views(ranked@),
            2 <= i,
            1 <= best < i,
            strongest(views.take(i as int), strings(tokens@)) == Some(best as int),
            most == coverage(views[best as int].hit, strings(tokens@)).0,
            ranked.len() >= 2,
    {
        proof {
            prefix_step(views, i as int);
        }
        assert(views[i as int] == ranked@[i as int]@);
        let here = hit_query_coverage(&ranked[i].hit, tokens).0;
        if here >= most {
            best = i;
            most = here;
        }
    }
    proof {
        prefix_all(views);
    }
    if most >= 2 && most > top {
        move_first(ranked, best);
    }
}

/// A candidate has the name of a qualified token, or of its owner.
pub open spec fn anchored_by(name: Seq<char>, tokens: Seq<Seq<char>>) -> bool {
    exists|i: int|
        0 <= i < tokens.len() && {
            let t = #[trigger] tokens[i];
            qualified_match(name, t) || (rcut(t, "."@) is Some && qualified_match(
                name,
                (rcut(t, "."@)->0).0,
            ))
        }
}

fn is_anchored_by(name: &str, tokens: &Vec<String>) -> (r: bool)
    ensures
        r == anchored_by(name@, strings(tokens@)),
{
    let ghost views = strings(tokens@);
    for i in 0..tokens.len()
        invariant
            views == strings(tokens@),
            forall|j: int|
                0 <= j < i ==> {
                    let t = #[trigger] views[j];
                    !(qualified_match(name@, t) || (rcut(t, "."@) is Some && qualified_match(
                        name@,
                        (rcut(t, "."@)->0).0,
                    )))
                },
    {
        let t = tokens[i].as_str();
        assert(views[i as int] == t@);
        if qualified_name_matches(name, t) {
            return true;
        }
        if let Some((owner, _)) = rsplit_once(t, ".") {
            if qualified_name_matches(name, owner) {
                return true;
            }
        }
    }
    false
}

/// The candidates with groups of one source and the strongest promoted; the first stays
/// first where a qualified name asks for it.
pub open spec fn diversified(
    ranked: Seq<CandidateView>,
    query: Seq<char>,
    tokens: Seq<Seq<char>>,
) -> Seq<CandidateView> {
    let grouped = if query.contains('|') {
        ranked
    } else if name_query(query) {
        context_promoted(ranked, query, tokens)
    } else {
        strongest_promoted(context_promoted(ranked, query, tokens), tokens)
    };
    if ranked.len() > 0 && anchored_by(ranked[0].hit.name, qualified_tokens(tokens)) {
        match first_passing(grouped, TestView::Called(ranked[0].hit.name), 0) {
            Some(at) => moved_first(grouped, at),
            None => grouped,
        }
    } else {
        grouped
    }
}

/// Computes [`diversified`].
pub fn diversify_ranked_candidates(ranked: &mut Vec<Candidate>, query: &str, tokens: &Vec<String>)
    ensures
        candidate_views(final(ranked)@) == diversified(
            candidate_views(old(ranked)@),
            query@,
            strings(tokens@),
        ),
{
    assert(candidate_views(ranked@).len() == ranked.len());
    let mut anchor: Option<String> = None;
    if ranked.len() > 0 {
        assert(candidate_views(ranked@)[0] == ranked@[0]@);
        if is_anchored_by(ranked[0].hit.name.as_str(), &keep_qualified(tokens)) {
            anchor = Some(ranked[0].hit.name.clone());
        }
    }
    if !has_char(query, '|') {
        promote_result_context(ranked, query, tokens);
        if !declaration_name_query(query) {
            promote_strongest_query_coverage(ranked, tokens);
        }
    }
    if let Some(name) = anchor {
        if let Some(at) = find_passing(ranked, CandidateTest::Called(name.as_str()), 0) {
            move_first(ranked, at);
        }
    }
}

/// A name matches an announced name, with or without wildcards.
pub open spec fn announced_match(name: Seq<char>, query: Seq<char>) -> bool {
    if glob_query(query) {
        glob_leaf_match(name, query)
    } else {
        qualified_match(name, query)
    }
}

/// The key that puts matching names first.
pub open spec fn announced_key(c: CandidateView, query: Seq<char>) -> Seq<u64> {
    seq![
        if announced_match(c.hit.name, query) {
            0u64
        } else {
            1u64
        },
    ]
}

/// The candidates with matching names first.
pub open spec fn announced_first(ranked: Seq<CandidateView>, query: Seq<char>) -> Seq<
    CandidateView,
> {
    arranged(ranked, ranked.map_values(|c: CandidateView| announced_key(c, query)))
}

fn put_announced_first(ranked: &mut Vec<Candidate>, query: &str)
    ensures
        candidate_views(final(ranked)@) == announced_first(candidate_views(old(ranked)@), query@),
{
    let ghost wanted = candidate_views(ranked@).map_values(
        |c: CandidateView| announced_key(c, query@),
    );
    let glob = declaration_glob_query(query);
    let mut keys: Vec<Vec<u64>> = Vec::new();
    assert(key_list(keys@) =~= wanted.take(0));
    for i in 0..ranked.len()
        invariant
            glob == glob_query(query@),
            wanted == candidate_views(ranked@).map_values(
                |c: CandidateView| announced_key(c, query@),
            ),
            keys.len() == i,
            key_list(keys@) == wanted.take(i as int),
    {
        proof {
            prefix_step(wanted, i as int);
        }
        let name = ranked[i].hit.name.as_str();
        let matching = if glob {
            declaration_glob_leaf_matches(name, query)
        } else {
            qualified_name_matches(name, query)
        };
        let mut key: Vec<u64> = Vec::new();
        if matching {
            key.push(0);
        } else {
            key.push(1);
        }
        assert(key@ =~= wanted[i as int]);
        let ghost before = key_list(keys@);
        keys.push(key);
        assert(key_list(keys@) =~= before.push(wanted[i as int]));
    }
    proof {
        prefix_all(wanted);
    }
    *ranked = arrange(ranked, &keys);
}

/// The order in which discovered candidates are shown: filtered by wildcards, scored by
/// imports, sorted and merged, and then promoted.
pub open spec fn discovery_ranked(
    list: Seq<CandidateView>,
    query: Seq<char>,
    tokens: Seq<Seq<char>>,
    explicit: bool,
    context: Option<ImportContextView>,
) -> Seq<CandidateView> {
    let ranked = sorted_and_merged(all_in_context(glob_kept(list, query), context));
    if explicit {
        announced_first(ranked, query)
    } else {
        diversified(cover_promoted(ranked, query, tokens), query, tokens)
    }
}

/// Computes [`discovery_ranked`], and tells whether a name with wildcards was missed.
pub fn rank_discovery_candidates(
    candidates: Vec<Candidate>,
    query: &str,
    tokens: &Vec<String>,
    explicit: bool,
    context: Option<&ImportContext>,
) -> (r: (Vec<Candidate>, bool))
    ensures
        candidate_views(r.0@) == discovery_ranked(
            candidate_views(candidates@),
            query@,
            strings(tokens@),
            explicit,
            opt_imports(context),
        ),
        r.1 == glob_missed(candidate_views(candidates@), query@),
{
    let mut list = candidates;
    let missed = apply_declaration_glob(&mut list, query);
    apply_context_scores(&mut list, context);
    let mut ranked = sort_and_merge_candidates(&list);
    if explicit {
        put_announced_first(&mut ranked, query);
    } else {
        promote_query_coverage(&mut ranked, query, tokens);
        diversify_ranked_candidates(&mut ranked, query, tokens);
    }
    (ranked, missed)
}

} // verus!

//! Ranking changes the order of the candidates, and loses none.
use crate::order::{ranking, ranking_is_permutation};
use crate::search::promote::{
    alternative_tokens, anchor_of, announced_first, announced_key, by_cover, compound_parts,
    context_promoted, context_tokens, cover_key, cover_promoted, discovery_ranked, diversified,
    gathered, moved_first, qualified_choice, qualified_promoted, qualified_tokens, strongest,
    strongest_promoted, token_choice, token_promoted,
};
use crate::search::rank::{
    all_in_context, arranged, best_named, first_passing, glob_kept, promoted_at, real_alternatives,
    sole_alternative, sorted_and_merged, ImportContextView, Split, TestView,
};
use crate::search::records::CandidateView;
use vstd::multiset::Multiset;
use vstd::prelude::*;

verus! {

/// All that is promoted or remains.
pub open spec fn held(state: Split) -> Multiset<CandidateView> {
    state.0.to_multiset().add(state.1.to_multiset())
}

/// An order that lists every position of a list once keeps what the list holds.
proof fn reordering_keeps(list: Seq<CandidateView>, order: Seq<int>)
    requires
        order.no_duplicates(),
        order.len() == list.len(),
        forall|y: int| #[trigger] order.contains(y) <==> 0 <= y < list.len(),
    ensures
        order.map_values(|i: int| list[i]).to_multiset() == list.to_multiset(),
    decreases list.len(),
{
    let shown = order.map_values(|i: int| list[i]);
    if list.len() == 0 {
        assert(shown =~= list);
    } else {
        let n = list.len() - 1;
        assert(order.contains(n));
        let p = order.index_of(n);
        let rest = order.remove(p);
        let shorter = list.drop_last();
        assert forall|y: int| #[trigger] rest.contains(y) <==> 0 <= y < shorter.len() by {
            if rest.contains(y) {
                let k = rest.index_of(y);
                if k < p {
                    assert(order[k] == y);
                } else {
                    assert(order[k + 1] == y);
                }
                assert(order.contains(y));
                assert(y != n);
            }
            if 0 <= y < shorter.len() {
                assert(order.contains(y));
                let k = order.index_of(y);
                if k < p {
                    assert(rest[k] == y);
                } else {
                    assert(rest[k - 1] == y);
                }
            }
        }
        reordering_keeps(shorter, rest);
        let earlier = rest.map_values(|i: int| shorter[i]);
        assert forall|k: int| 0 <= k < rest.len() implies #[trigger] earlier[k] == list[rest[k]] by {
            assert(rest.contains(rest[k]));
        }
        assert(shown =~= earlier.insert(p, list[n]));
        vstd::seq_lib::to_multiset_insert(earlier, p, list[n]);
        assert(list =~= shorter.insert(n, list[n]));
        vstd::seq_lib::to_multiset_insert(shorter, n, list[n]);
    }
}

/// Arranging a list by keys keeps what it holds.
pub proof fn arranging_keeps_candidates(list: Seq<CandidateView>, keys: Seq<Seq<u64>>)
    requires
        keys.len() == list.len(),
    ensures
        arranged(list, keys).to_multiset() == list.to_multiset(),
{
    ranking_is_permutation(keys);
    reordering_keeps(list, ranking(keys));
}

proof fn promoting_keeps(state: Split, at: Option<int>)
    requires
        at is Some ==> 0 <= at->0 < state.1.len(),
    ensures
        held(promoted_at(state, at)) == held(state),
{
    if let Some(i) = at {
        broadcast use vstd::seq_lib::group_to_multiset_ensures;

        vstd::seq_lib::to_multiset_remove(state.1, i);
        assert(state.1.to_multiset().count(state.1[i]) > 0);
        assert(held(promoted_at(state, at)) =~= held(state));
    }
}

proof fn passing_is_within(list: Seq<CandidateView>, test: TestView, i: int)
    ensures
        first_passing(list, test, i) is Some ==> i <= first_passing(list, test, i)->0 < list.len(),
    decreases list.len() - i,
{
    if i < list.len() && !test.passes(list[i]) {
        passing_is_within(list, test, i + 1);
    }
}

proof fn best_is_within(list: Seq<CandidateView>, test: TestView, tokens: Seq<Seq<char>>)
    ensures
        best_named(list, test, tokens) is Some ==> 0 <= best_named(list, test, tokens)->0
            < list.len(),
    decreases list.len(),
{
    if list.len() > 0 {
        best_is_within(list.drop_last(), test, tokens);
    }
}

proof fn sole_is_within(list: Seq<CandidateView>, parts: Seq<Seq<char>>, i: int)
    ensures
        sole_alternative(list, parts, i) is Some ==> 0 <= sole_alternative(list, parts, i)->0
            < list.len(),
    decreases parts.len() - i,
{
    if i < parts.len() {
        passing_is_within(list, TestView::Declared(parts[i]), 0);
        sole_is_within(list, parts, i + 1);
    }
}

proof fn qualified_keeps(state: Split, tokens: Seq<Seq<char>>, single: bool)
    ensures
        held(qualified_promoted(state, tokens, single)) == held(state),
    decreases tokens.len(),
{
    if tokens.len() > 0 {
        let earlier = qualified_promoted(state, tokens.drop_last(), single);
        qualified_keeps(state, tokens.drop_last(), single);
        passing_is_within(earlier.1, TestView::Direct(tokens.last()), 0);
        passing_is_within(earlier.1, TestView::Owner(tokens.last()), 0);
        promoting_keeps(earlier, qualified_choice(earlier.1, tokens.last(), single));
    }
}

proof fn tokens_keep(state: Split, list: Seq<Seq<char>>, tokens: Seq<Seq<char>>)
    ensures
        held(token_promoted(state, list, tokens).0) == held(state),
    decreases list.len(),
{
    if list.len() > 0 {
        let earlier = token_promoted(state, list.drop_last(), tokens).0;
        let token = list.last();
        tokens_keep(state, list.drop_last(), tokens);
        passing_is_within(earlier.1, TestView::Exact(token), 0);
        passing_is_within(earlier.1, TestView::Told(token), 0);
        best_is_within(earlier.1, TestView::Named(token), tokens);
        promoting_keeps(earlier, token_choice(earlier, token, tokens));
    }
}

/// Promoting what covers the query keeps every candidate.
pub proof fn promotion_keeps_candidates(
    ranked: Seq<CandidateView>,
    query: Seq<char>,
    tokens: Seq<Seq<char>>,
)
    ensures
        cover_promoted(ranked, query, tokens).to_multiset() == ranked.to_multiset(),
{
    if ranked.len() > 1 && tokens.len() > 1 {
        broadcast use vstd::seq_lib::group_to_multiset_ensures;

        let parts = real_alternatives(query);
        let start: Split = (Seq::empty(), ranked);
        assert(held(start) =~= ranked.to_multiset());
        sole_is_within(ranked, parts, 0);
        promoting_keeps(start, sole_alternative(ranked, parts, 0));
        let named = if parts.len() > 1 {
            promoted_at(start, sole_alternative(ranked, parts, 0))
        } else {
            start
        };
        let qualified = qualified_tokens(tokens);
        qualified_keeps(named, qualified, qualified.len() == 1);
        let owned = if parts.len() > 1 {
            named
        } else {
            qualified_promoted(named, qualified, qualified.len() == 1)
        };
        let lists = alternative_tokens(parts);
        let compound = compound_parts(query);
        arranging_keeps_candidates(
            owned.1,
            owned.1.map_values(|c: CandidateView| cover_key(c, lists, tokens, compound)),
        );
        let sorted: Split = (owned.0, by_cover(owned.1, lists, tokens, compound));
        assert(held(sorted) == held(owned));
        if sorted.1.len() > 0 {
            promoting_keeps(sorted, Some(0));
        }
        let led = if sorted.0.len() < crate::search::rank::SUMMARY_LIMIT && sorted.1.len() > 0 {
            promoted_at(sorted, Some(0))
        } else {
            sorted
        };
        tokens_keep(led, tokens, tokens);
        let done = token_promoted(led, tokens, tokens).0;
        vstd::seq_lib::lemma_multiset_commutative(done.0, done.1);
    }
}

proof fn gathering_keeps(
    group: Seq<CandidateView>,
    rest: Seq<CandidateView>,
    i: int,
    module: Seq<char>,
    path: Seq<char>,
    tokens: Seq<Seq<char>>,
)
    ensures
        held(gathered(group, rest, i, module, path, tokens)) == held((group, rest)),
    decreases rest.len() - i,
{
    if group.len() >= crate::search::rank::CONTEXT_GROUP || i >= rest.len() || i < 0 {
    } else if crate::search::promote::same_group(rest[i], module, path, tokens) {
        promoting_keeps((group, rest), Some(i));
        gathering_keeps(group.push(rest[i]), rest.remove(i), i, module, path, tokens);
    } else {
        gathering_keeps(group, rest, i + 1, module, path, tokens);
    }
}

proof fn anchor_is_within(list: Seq<CandidateView>, tokens: Seq<Seq<char>>, compound: bool)
    ensures
        anchor_of(list, tokens, compound) is Some ==> 0 <= anchor_of(list, tokens, compound)->0
            < list.len(),
    decreases list.len(),
{
    if list.len() > 0 {
        anchor_is_within(list.drop_last(), tokens, compound);
    }
}

proof fn context_keeps(ranked: Seq<CandidateView>, query: Seq<char>, tokens: Seq<Seq<char>>)
    ensures
        context_promoted(ranked, query, tokens).to_multiset() == ranked.to_multiset(),
{
    let found = context_tokens(query, tokens);
    anchor_is_within(ranked, found, compound_parts(query) is Some);
    if let Some(at) = anchor_of(ranked, found, compound_parts(query) is Some) {
        broadcast use vstd::seq_lib::group_to_multiset_ensures;

        let anchor = ranked[at];
        let start: Split = (Seq::empty(), ranked);
        assert(held(start) =~= ranked.to_multiset());
        promoting_keeps(start, Some(at));
        assert(promoted_at(start, Some(at)).0 =~= seq![anchor]);
        gathering_keeps(
            seq![anchor],
            ranked.remove(at),
            0,
            anchor.hit.module,
            anchor.hit.path,
            found,
        );
        let done = gathered(
            seq![anchor],
            ranked.remove(at),
            0,
            anchor.hit.module,
            anchor.hit.path,
            found,
        );
        vstd::seq_lib::lemma_multiset_commutative(done.0, done.1);
    }
}

proof fn moving_keeps(list: Seq<CandidateView>, at: int)
    requires
        0 <= at < list.len(),
    ensures
        moved_first(list, at).to_multiset() == list.to_multiset(),
{
    broadcast use vstd::seq_lib::group_to_multiset_ensures;

    vstd::seq_lib::to_multiset_remove(list, at);
    vstd::seq_lib::to_multiset_insert(list.remove(at), 0, list[at]);
    assert(list.to_multiset().count(list[at]) > 0);
    assert(moved_first(list, at).to_multiset() =~= list.to_multiset());
}

proof fn strongest_is_within(list: Seq<CandidateView>, tokens: Seq<Seq<char>>)
    ensures
        list.len() > 1 ==> strongest(list, tokens) is Some && 0 < strongest(list, tokens)->0
            < list.len(),
    decreases list.len(),
{
    if list.len() > 1 {
        strongest_is_within(list.drop_last(), tokens);
    }
}

/// Showing together what belongs together keeps every candidate.
pub proof fn diversifying_keeps_candidates(
    ranked: Seq<CandidateView>,
    query: Seq<char>,
    tokens: Seq<Seq<char>>,
)
    ensures
        diversified(ranked, query, tokens).to_multiset() == ranked.to_multiset(),
{
    context_keeps(ranked, query, tokens);
    let grouped = context_promoted(ranked, query, tokens);
    strongest_is_within(grouped, tokens);
    if grouped.len() > 1 {
        moving_keeps(grouped, strongest(grouped, tokens)->0);
    }
    assert(strongest_promoted(grouped, tokens).to_multiset() == ranked.to_multiset());
    if ranked.len() > 0 {
        let called = TestView::Called(ranked[0].hit.name);
        passing_is_within(ranked, called, 0);
        if let Some(at) = first_passing(ranked, called, 0) {
            moving_keeps(ranked, at);
        }
        passing_is_within(grouped, called, 0);
        if let Some(at) = first_passing(grouped, called, 0) {
            moving_keeps(grouped, at);
        }
        let strong = strongest_promoted(grouped, tokens);
        passing_is_within(strong, called, 0);
        if let Some(at) = first_passing(strong, called, 0) {
            moving_keeps(strong, at);
        }
    }
}

/// Putting the declarations that an announced name matches first keeps every candidate.
pub proof fn announcing_keeps_candidates(ranked: Seq<CandidateView>, query: Seq<char>)
    ensures
        announced_first(ranked, query).to_multiset() == ranked.to_multiset(),
{
    arranging_keeps_candidates(
        ranked,
        ranked.map_values(|c: CandidateView| announced_key(c, query)),
    );
}

/// However candidates are promoted, a discovery shows just those that are left once
/// wildcards have been applied and duplicates merged.
pub proof fn discovery_loses_nothing(
    list: Seq<CandidateView>,
    query: Seq<char>,
    tokens: Seq<Seq<char>>,
    explicit: bool,
    context: Option<ImportContextView>,
)
    ensures
        discovery_ranked(list, query, tokens, explicit, context).to_multiset()
            == sorted_and_merged(all_in_context(glob_kept(list, query), context)).to_multiset(),
{
    let ranked = sorted_and_merged(all_in_context(glob_kept(list, query), context));
    if explicit {
        announcing_keeps_candidates(ranked, query);
    } else {
        promotion_keeps_candidates(ranked, query, tokens);
        diversifying_keeps_candidates(cover_promoted(ranked, query, tokens), query, tokens);
    }
}

} // verus!

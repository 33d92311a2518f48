//! What ranks above what, on every input.
use crate::order::{lex_less, lex_less_at, ranking, ranking_is_permutation, ranking_is_sorted};
use crate::search::names::glob_query;
use crate::search::promote::{
    announced_first, announced_key, announced_match, best_coverage, by_cover, compound_parts,
    cover_key, cover_promoted, hit_cover, qualified_promoted, qualified_tokens, strongest,
    strongest_promoted, token_promoted,
};
use crate::search::rank::{
    arranged, completed, first_passing, glob_kept, glob_missed, merged, named_by, promoted_at,
    real_alternatives, score_keys, sorted_and_merged, Split, TestView,
};
use crate::search::records::{CandidateView, HitView, RowView};
use crate::search::score::{
    concept_in, coverage, exact_token, fits, hit_match, hit_tally, lexical_points, member_points,
    name_match, name_tally, part_points, place_points, result_type, result_type_points, row_body,
    same_concept, same_word, shared_end_from, shared_from, token_parts, token_points, type_points,
};
use crate::search::tokens::{distinct, leaf, name_parts};
use crate::text::chain::pushed_holds;
use crate::text::make::{alike, byte_length, lowercased};
use crate::text::scan::{begins, ends, has_text, rcut};
use vstd::prelude::*;

verus! {

/// The nearer a name comes to a query, the more points it has: a name that is the query
/// has more than one that ends with it as its last component, that more than one that
/// ends with it otherwise, that more than one that begins with it, that more than one
/// that just holds it, and that more than one that does not hold it.
pub proof fn nearer_names_score_more(a: Seq<char>, b: Seq<char>, query: Seq<char>)
    ensures
        a == query && b != query ==> place_points(a, query) > place_points(b, query),
        leaf(a) == query && b != query && leaf(b) != query ==> place_points(a, query)
            > place_points(b, query),
        ends(a, "."@ + query) && b != query && leaf(b) != query && !ends(b, "."@ + query)
            ==> place_points(a, query) > place_points(b, query),
        (begins(a, query) || begins(leaf(a), query)) && b != query && leaf(b) != query && !ends(
            b,
            "."@ + query,
        ) && !begins(b, query) && !begins(leaf(b), query) ==> place_points(a, query)
            > place_points(b, query),
        has_text(a, query) && !has_text(b, query) && b != query && leaf(b) != query && !ends(
            b,
            "."@ + query,
        ) && !begins(b, query) && !begins(leaf(b), query) ==> place_points(a, query)
            > place_points(b, query),
        place_points(a, query) >= 0,
{
}

/// A token that stands in the name counts more than one that stands in the texts alone,
/// and that more than one that stands in neither, which counts nothing.
pub proof fn tokens_count_where_they_stand(
    tokens: Seq<Seq<char>>,
    token: Seq<char>,
    name: Seq<char>,
    body: Seq<char>,
)
    ensures
        ({
            let gain = token_points(tokens.push(token), name, body) - token_points(
                tokens,
                name,
                body,
            );
            &&& !has_text(name, token) && !has_text(body, token) ==> gain == 0
            &&& !has_text(name, token) && has_text(body, token) ==> 0 < gain < 12
            &&& has_text(name, token) ==> gain == 12
        }),
        token_points(Seq::empty(), name, body) == 0,
{
    assert(tokens.push(token).drop_last() =~= tokens);
}

/// A part of a query that a name has counts more than one that it has only a like of, and
/// one that it has no like of counts nothing.
pub proof fn parts_count_by_likeness(
    parts: Seq<Seq<char>>,
    part: Seq<char>,
    of_name: Seq<Seq<char>>,
)
    ensures
        ({
            let gain = part_points(parts.push(part), of_name) - part_points(parts, of_name);
            &&& of_name.contains(part) ==> gain == 40
            &&& !of_name.contains(part) && concept_in(of_name, part) ==> 0 < gain < 40
            &&& !of_name.contains(part) && !concept_in(of_name, part) ==> gain == 0
        }),
{
    assert(parts.push(part).drop_last() =~= parts);
}

proof fn token_points_count(tokens: Seq<Seq<char>>, name: Seq<char>, body: Seq<char>)
    ensures
        token_points(tokens, name, body) >= 0,
        (forall|i: int|
            0 <= i < tokens.len() ==> !has_text(name, #[trigger] tokens[i]) && !has_text(
                body,
                tokens[i],
            )) ==> token_points(tokens, name, body) == 0,
    decreases tokens.len(),
{
    if tokens.len() > 0 {
        token_points_count(tokens.drop_last(), name, body);
        if forall|i: int|
            0 <= i < tokens.len() ==> !has_text(name, #[trigger] tokens[i]) && !has_text(
                body,
                tokens[i],
            ) {
            assert forall|i: int| 0 <= i < tokens.drop_last().len() implies !has_text(
                name,
                #[trigger] tokens.drop_last()[i],
            ) && !has_text(body, tokens.drop_last()[i]) by {
                assert(tokens.drop_last()[i] == tokens[i]);
            }
            assert(tokens[tokens.len() - 1] == tokens.last());
        }
    }
}

proof fn part_points_count(parts: Seq<Seq<char>>, of_name: Seq<Seq<char>>)
    ensures
        part_points(parts, of_name) >= 0,
        (forall|i: int|
            0 <= i < parts.len() ==> !of_name.contains(#[trigger] parts[i]) && !concept_in(
                of_name,
                parts[i],
            )) ==> part_points(parts, of_name) == 0,
    decreases parts.len(),
{
    if parts.len() > 0 {
        part_points_count(parts.drop_last(), of_name);
        if forall|i: int|
            0 <= i < parts.len() ==> !of_name.contains(#[trigger] parts[i]) && !concept_in(
                of_name,
                parts[i],
            ) {
            assert forall|i: int| 0 <= i < parts.drop_last().len() implies !of_name.contains(
                #[trigger] parts.drop_last()[i],
            ) && !concept_in(of_name, parts.drop_last()[i]) by {
                assert(parts.drop_last()[i] == parts[i]);
            }
            assert(parts[parts.len() - 1] == parts.last());
        }
    }
}

proof fn shared_is_counted(a: Seq<char>, b: Seq<char>, i: int)
    requires
        0 <= i,
    ensures
        shared_from(a, b, i) >= i,
        shared_end_from(a, b, i) >= i,
    decreases a.len() - i,
{
    if i < a.len() && i < b.len() {
        shared_is_counted(a, b, i + 1);
    }
}

/// A member of the owner that a qualified name asks for has points, and any other
/// declaration has none for that.
pub proof fn members_of_the_owner_score(query: Seq<char>, name: Seq<char>)
    ensures
        member_points(query, name) == 0 || member_points(query, name) >= 300,
        rcut(name, "."@) is None ==> member_points(query, name) == 0,
{
    if rcut(crate::text::scan::bare(query), "."@) is Some && rcut(name, "."@) is Some {
        let a = lowercased((rcut(crate::text::scan::bare(query), "."@)->0).1);
        let b = lowercased((rcut(name, "."@)->0).1);
        shared_is_counted(a, b, 0);
    }
}

/// A declaration with just the name that is asked for, in the same letters, scores higher
/// than any row that has nothing of the query, for a query without a namespace.
pub proof fn exact_names_outrank_the_unrelated(
    query: Seq<char>,
    tokens: Seq<Seq<char>>,
    named: RowView,
    other: RowView,
)
    requires
        named.name == query,
        rcut(lowercased(query), "."@) is None,
        rcut(crate::text::scan::bare(lowercased(query)), "."@) is None,
        place_points(lowercased(other.name), lowercased(query)) == 0,
        !exact_token(lowercased(other.name), tokens),
        other.name != query,
        leaf(other.name) != query,
        forall|i: int|
            0 <= i < tokens.len() ==> !has_text(lowercased(other.name), #[trigger] tokens[i])
                && !has_text(row_body(other), tokens[i]),
        forall|i: int|
            0 <= i < distinct(token_parts(tokens)).len() ==> !name_parts(other.name).contains(
                #[trigger] distinct(token_parts(tokens))[i],
            ) && !concept_in(name_parts(other.name), distinct(token_parts(tokens))[i]),
    ensures
        lexical_points(query, tokens, named) > lexical_points(query, tokens, other),
{
    token_points_count(tokens, lowercased(named.name), row_body(named));
    token_points_count(tokens, lowercased(other.name), row_body(other));
    part_points_count(distinct(token_parts(tokens)), name_parts(named.name));
    part_points_count(distinct(token_parts(tokens)), name_parts(other.name));
}

/// A declaration scores higher than a file with the same texts.
pub proof fn declarations_outrank_files(query: Seq<char>, tokens: Seq<Seq<char>>, row: RowView)
    requires
        row.kind != "file"@,
    ensures
        lexical_points(query, tokens, row) > lexical_points(
            query,
            tokens,
            RowView { kind: "file"@, ..row },
        ),
{
}

/// The characters that two texts share at their beginning are just as many as they have
/// in common there.
pub proof fn shared_beginnings_are_longest(a: Seq<char>, b: Seq<char>)
    ensures
        ({
            let n = shared_from(a, b, 0);
            &&& 0 <= n <= a.len() && n <= b.len()
            &&& a.take(n) == b.take(n)
            &&& n < a.len() && n < b.len() ==> a[n] != b[n]
        }),
{
    shared_beginning(a, b, 0);
    let n = shared_from(a, b, 0);
    assert(a.take(n) =~= b.take(n));
}

proof fn shared_beginning(a: Seq<char>, b: Seq<char>, i: int)
    requires
        0 <= i <= a.len(),
        i <= b.len(),
        forall|j: int| 0 <= j < i ==> a[j] == #[trigger] b[j],
    ensures
        ({
            let n = shared_from(a, b, i);
            &&& i <= n <= a.len() && n <= b.len()
            &&& forall|j: int| 0 <= j < n ==> a[j] == #[trigger] b[j]
            &&& n < a.len() && n < b.len() ==> a[n] != b[n]
        }),
    decreases a.len() - i,
{
    if i < a.len() && i < b.len() && a[i] == b[i] {
        shared_beginning(a, b, i + 1);
    }
}

/// A word is the same as itself and, where it is not too short, as its plural.
pub proof fn plurals_are_the_same_word(word: Seq<char>)
    ensures
        same_word(word, word),
        same_concept(word, word),
        byte_length(word) >= 4 ==> same_word(word, word + "s"@) && same_word(word + "s"@, word),
{
    let many = word + "s"@;
    assert(many.skip(many.len() - "s"@.len()) =~= "s"@);
    assert(many.take(many.len() - "s"@.len()) =~= word);
}

/// A token more that a hit answers counts once, with its characters; one that it does not
/// answer does not count. The same holds of names.
pub proof fn answered_tokens_are_counted(hit: HitView, tokens: Seq<Seq<char>>, token: Seq<char>)
    ensures
        hit_tally(hit, Seq::empty()) == (0nat, 0nat),
        hit_match(hit, token) ==> hit_tally(hit, tokens.push(token)).0 == hit_tally(hit, tokens).0
            + 1 && hit_tally(hit, tokens.push(token)).1 == hit_tally(hit, tokens).1 + token.len(),
        !hit_match(hit, token) ==> hit_tally(hit, tokens.push(token)) == hit_tally(hit, tokens),
        name_match(hit.name, token) ==> name_tally(hit.name, tokens.push(token)).0 == name_tally(
            hit.name,
            tokens,
        ).0 + 1,
        !name_match(hit.name, token) ==> name_tally(hit.name, tokens.push(token)) == name_tally(
            hit.name,
            tokens,
        ),
        name_match(hit.name, token) ==> hit_match(hit, token),
{
    assert(tokens.push(token).drop_last() =~= tokens);
}

/// What a declaration gives is only scored where it holds every relation that the pattern
/// asks for, and every token of it.
pub proof fn asked_relations_are_held(pattern: Seq<char>, signature: Seq<char>, symbol: Seq<char>)
    requires
        result_type_points(pattern, signature) != 0,
        symbol == "≃L"@ || symbol == "↔"@ || symbol == "≤"@ || symbol == "≥"@ || symbol == "≠"@
            || symbol == "∈"@ || symbol == "⊆"@ || symbol == "∘"@ || symbol == " = "@ || symbol
            == " < "@ || symbol == " > "@,
        has_text(pattern, symbol),
    ensures
        has_text(result_type(signature), symbol),
        fits(pattern, result_type(signature)),
        result_type_points(pattern, signature) == type_points(pattern, result_type(signature)),
{
}

/// A result that holds every relation of the pattern scores as its type does.
pub proof fn results_score_as_types(pattern: Seq<char>, signature: Seq<char>)
    requires
        forall|symbol: Seq<char>|
            has_text(pattern, symbol) ==> #[trigger] has_text(result_type(signature), symbol),
    ensures
        result_type_points(pattern, signature) == type_points(pattern, result_type(signature)),
{
    assert forall|symbol: Seq<char>|
        has_text(pattern, symbol) implies !#[trigger] crate::search::score::lacks(
        pattern,
        result_type(signature),
        symbol,
    ) by {}
}

proof fn merged_keeps_order(list: Seq<CandidateView>)
    requires
        forall|i: int, j: int|
            0 <= i <= j < list.len() ==> (#[trigger] list[i]).score >= (#[trigger] list[j]).score,
    ensures
        merged(list).0.len() == merged(list).1.len(),
        forall|i: int, j: int|
            0 <= i <= j < merged(list).1.len() ==> (#[trigger] merged(list).1[i]).score >= (
            #[trigger] merged(list).1[j]).score,
        list.len() > 0 ==> forall|i: int|
            0 <= i < merged(list).1.len() ==> (#[trigger] merged(list).1[i]).score
                >= list.last().score,
    decreases list.len(),
{
    if list.len() > 0 {
        let shorter = list.drop_last();
        assert forall|i: int, j: int| 0 <= i <= j < shorter.len() implies (
        #[trigger] shorter[i]).score >= (#[trigger] shorter[j]).score by {
            assert(list[i].score >= list[j].score);
        }
        merged_keeps_order(shorter);
        let (ids, out) = merged(shorter);
        let last = list.last();
        let after = merged(list).1;
        if shorter.len() > 0 {
            assert(list[shorter.len() - 1].score >= list[list.len() - 1].score);
            assert(shorter.last() == list[shorter.len() - 1]);
        } else {
            assert(out.len() == 0);
        }
        place_in_bounds(ids, crate::search::rank::identity(last.hit), 0);
        assert forall|i: int| 0 <= i < out.len() implies (#[trigger] after[i]).score
            == out[i].score by {}
        assert forall|i: int, j: int| 0 <= i <= j < after.len() implies (#[trigger] after[i]).score
            >= (#[trigger] after[j]).score by {
            if j < out.len() {
                assert(out[i].score >= out[j].score);
            } else if i < out.len() {
                assert(out[i].score >= shorter.last().score);
            }
        }
        assert forall|i: int| 0 <= i < after.len() implies (#[trigger] after[i]).score
            >= last.score by {
            if i < out.len() {
                assert(out[i].score >= shorter.last().score);
            }
        }
    }
}

proof fn place_in_bounds(list: Seq<Seq<char>>, item: Seq<char>, i: int)
    requires
        0 <= i <= list.len(),
    ensures
        i <= crate::search::rank::place_from(list, item, i) <= list.len(),
    decreases list.len() - i,
{
    if i < list.len() && list[i] != item {
        place_in_bounds(list, item, i + 1);
    }
}

/// Sorted and merged candidates come by their scores, the highest first.
pub proof fn candidates_come_by_score(list: Seq<CandidateView>, i: int, j: int)
    requires
        0 <= i <= j < sorted_and_merged(list).len(),
    ensures
        sorted_and_merged(list)[i].score >= sorted_and_merged(list)[j].score,
{
    let keys = score_keys(list);
    let sorted = arranged(list, keys);
    ranking_is_permutation(keys);
    assert forall|a: int, b: int| 0 <= a <= b < sorted.len() implies (#[trigger] sorted[a]).score
        >= (#[trigger] sorted[b]).score by {
        if a < b {
            ranking_is_sorted(keys, a, b);
            let x = ranking(keys)[a];
            let y = ranking(keys)[b];
            assert(keys[x][0] == crate::search::rank::flipped(list[x].score));
            assert(keys[y][0] == crate::search::rank::flipped(list[y].score));
        }
    }
    merged_keeps_order(sorted);
}

/// A hit that is completed keeps what it has, and takes from the other hit what it lacks.
pub proof fn completing_fills_gaps(existing: HitView, other: HitView)
    ensures
        ({
            let done = completed(existing, other);
            &&& done.name == existing.name && done.path == existing.path && done.module
                == existing.module && done.line == existing.line
            &&& existing.signature is Some ==> done.signature == existing.signature
            &&& existing.signature is None ==> done.signature == other.signature
            &&& existing.doc is Some ==> done.doc == existing.doc
            &&& existing.doc is None ==> done.doc == other.doc
            &&& existing.source is None ==> done.source == other.source
            &&& existing.usages.len() > 0 ==> done.usages == existing.usages
            &&& existing.usages.len() == 0 ==> done.usages == other.usages
            &&& done.applicable <==> existing.applicable || other.applicable
            &&& existing.kind != "declaration"@ ==> done.kind == existing.kind
            &&& existing.kind == "declaration"@ && other.kind != "file"@ ==> done.kind == other.kind
        }),
{
}

proof fn named_by_holds(list: Seq<CandidateView>, query: Seq<char>, c: CandidateView)
    ensures
        named_by(list, query).contains(c) <==> list.contains(c)
            && crate::search::names::alternative_match(c.hit.name, query),
    decreases list.len(),
{
    if list.len() > 0 {
        named_by_holds(list.drop_last(), query, c);
        assert(list =~= list.drop_last().push(list.last()));
        pushed_holds(list.drop_last(), list.last(), c);
        pushed_holds(named_by(list.drop_last(), query), list.last(), c);
    }
}

/// A query with wildcards keeps just the candidates with such a name where there is one,
/// and else says that the name was missed and keeps them all. Without wildcards all are
/// kept.
pub proof fn wildcards_filter_names(list: Seq<CandidateView>, query: Seq<char>, c: CandidateView)
    ensures
        !glob_query(query) ==> glob_kept(list, query) == list && !glob_missed(list, query),
        glob_missed(list, query) ==> glob_kept(list, query) == list,
        glob_query(query) && list.len() > 0 && !glob_missed(list, query) ==> (glob_kept(
            list,
            query,
        ).contains(c) <==> list.contains(c) && crate::search::names::alternative_match(
            c.hit.name,
            query,
        )),
        glob_query(query) && list.contains(c) && crate::search::names::alternative_match(
            c.hit.name,
            query,
        ) ==> !glob_missed(list, query),
{
    named_by_holds(list, query, c);
}

/// Where a name is announced, no candidate without it comes before one with it.
pub proof fn announced_names_come_first(
    ranked: Seq<CandidateView>,
    query: Seq<char>,
    i: int,
    j: int,
)
    requires
        0 <= i < j < announced_first(ranked, query).len(),
        announced_match(announced_first(ranked, query)[j].hit.name, query),
    ensures
        announced_match(announced_first(ranked, query)[i].hit.name, query),
{
    let keys = ranked.map_values(|c: CandidateView| announced_key(c, query));
    ranking_is_permutation(keys);
    ranking_is_sorted(keys, i, j);
    let a = ranking(keys)[i];
    let b = ranking(keys)[j];
    assert(keys[a][0] == announced_key(ranked[a], query)[0]);
    assert(keys[b][0] == announced_key(ranked[b], query)[0]);
}

/// One coverage comes no later than another: it has more tokens, or as many with more
/// characters, or by its name alone more tokens, or as many with more characters.
pub open spec fn covers_as_well(
    a: (u64, u64, u64, u64),
    b: (u64, u64, u64, u64),
) -> bool {
    ||| a.0 > b.0
    ||| a.0 == b.0 && a.1 > b.1
    ||| a.0 == b.0 && a.1 == b.1 && a.2 > b.2
    ||| a.0 == b.0 && a.1 == b.1 && a.2 == b.2 && a.3 >= b.3
}

/// The best coverage of several lists of tokens is that of one of them, and none is
/// better.
pub proof fn best_coverage_is_best(hit: HitView, lists: Seq<Seq<Seq<char>>>, i: int)
    requires
        0 <= i < lists.len(),
    ensures
        covers_as_well(best_coverage(hit, lists), coverage(hit, lists[i])),
    decreases lists.len(),
{
    if i < lists.len() - 1 {
        best_coverage_is_best(hit, lists.drop_last(), i);
    }
}

proof fn cover_keys_order(
    a: CandidateView,
    b: CandidateView,
    lists: Seq<Seq<Seq<char>>>,
    tokens: Seq<Seq<char>>,
)
    requires
        !lex_less(cover_key(b, lists, tokens, None), cover_key(a, lists, tokens, None)),
    ensures
        covers_as_well(hit_cover(a.hit, lists, tokens), hit_cover(b.hit, lists, tokens)),
{
    let x = cover_key(a, lists, tokens, None);
    let y = cover_key(b, lists, tokens, None);
    let p = hit_cover(a.hit, lists, tokens);
    let q = hit_cover(b.hit, lists, tokens);
    assert(x[0] == y[0] && x[1] == y[1]);
    if p.0 != q.0 {
        lex_less_at(y, x, 2);
    } else if p.1 != q.1 {
        lex_less_at(y, x, 3);
    } else if p.2 != q.2 {
        lex_less_at(y, x, 4);
    } else if p.3 != q.3 {
        lex_less_at(y, x, 5);
    }
}

/// Candidates in the order of coverage: none comes before one that covers the query
/// better, unless a compound name decides.
pub proof fn better_coverage_comes_first(
    list: Seq<CandidateView>,
    lists: Seq<Seq<Seq<char>>>,
    tokens: Seq<Seq<char>>,
    i: int,
    j: int,
)
    requires
        0 <= i <= j < by_cover(list, lists, tokens, None).len(),
    ensures
        covers_as_well(
            hit_cover(by_cover(list, lists, tokens, None)[i].hit, lists, tokens),
            hit_cover(by_cover(list, lists, tokens, None)[j].hit, lists, tokens),
        ),
{
    let keys = list.map_values(|c: CandidateView| cover_key(c, lists, tokens, None));
    ranking_is_permutation(keys);
    if i < j {
        ranking_is_sorted(keys, i, j);
        let a = ranking(keys)[i];
        let b = ranking(keys)[j];
        crate::order::lex_irreflexive(keys[a]);
        if lex_less(keys[b], keys[a]) {
            if lex_less(keys[a], keys[b]) {
                crate::order::lex_transitive(keys[a], keys[b], keys[a]);
            }
        }
        cover_keys_order(list[a], list[b], lists, tokens);
    }
}

proof fn token_promotion_keeps_front(
    state: Split,
    list: Seq<Seq<char>>,
    tokens: Seq<Seq<char>>,
    i: int,
)
    requires
        0 <= i < state.0.len(),
    ensures
        token_promoted(state, list, tokens).0.0.len() >= state.0.len(),
        token_promoted(state, list, tokens).0.0[i] == state.0[i],
    decreases list.len(),
{
    if list.len() > 0 {
        token_promotion_keeps_front(state, list.drop_last(), tokens, i);
    }
}

/// The declaration that a query calls by the one qualified name in it comes first.
pub proof fn qualified_names_come_first(
    ranked: Seq<CandidateView>,
    query: Seq<char>,
    tokens: Seq<Seq<char>>,
    at: int,
)
    requires
        ranked.len() > 1,
        tokens.len() > 1,
        real_alternatives(query).len() <= 1,
        qualified_tokens(tokens).len() == 1,
        0 <= at < ranked.len(),
        alike(ranked[at].hit.name, qualified_tokens(tokens)[0]),
        forall|k: int|
            0 <= k < at ==> !TestView::Direct(qualified_tokens(tokens)[0]).passes(
                #[trigger] ranked[k],
            ),
    ensures
        cover_promoted(ranked, query, tokens).len() > 0,
        cover_promoted(ranked, query, tokens)[0] == ranked[at],
{
    let token = qualified_tokens(tokens)[0];
    let start: Split = (Seq::empty(), ranked);
    passing_is_first(ranked, TestView::Direct(token), 0, at);
    assert(qualified_tokens(tokens).drop_last() =~= Seq::empty());
    let owned = qualified_promoted(start, qualified_tokens(tokens), true);
    assert(qualified_promoted(start, qualified_tokens(tokens).drop_last(), true) == start);
    assert(owned.0 =~= seq![ranked[at]]);
    let sorted = (
        owned.0,
        by_cover(
            owned.1,
            crate::search::promote::alternative_tokens(real_alternatives(query)),
            tokens,
            compound_parts(query),
        ),
    );
    let led = if sorted.0.len() < crate::search::rank::SUMMARY_LIMIT && sorted.1.len() > 0 {
        promoted_at(sorted, Some(0))
    } else {
        sorted
    };
    assert(led.0[0] == ranked[at]);
    token_promotion_keeps_front(led, tokens, tokens, 0);
}

proof fn passing_is_first(list: Seq<CandidateView>, test: TestView, from: int, at: int)
    requires
        0 <= from <= at < list.len(),
        test.passes(list[at]),
        forall|k: int| from <= k < at ==> !test.passes(#[trigger] list[k]),
    ensures
        first_passing(list, test, from) == Some(at),
    decreases at - from,
{
    if from < at {
        passing_is_first(list, test, from + 1, at);
    }
}

/// Where no qualified name, no alternative and no compound name decides, the candidate
/// that comes first covers the query at least as well as every other.
pub proof fn the_first_covers_best(
    ranked: Seq<CandidateView>,
    query: Seq<char>,
    tokens: Seq<Seq<char>>,
    i: int,
)
    requires
        ranked.len() > 1,
        tokens.len() > 1,
        real_alternatives(query).len() <= 1,
        qualified_tokens(tokens).len() == 0,
        compound_parts(query) is None,
        0 <= i < ranked.len(),
    ensures
        cover_promoted(ranked, query, tokens).len() > 0,
        covers_as_well(
            coverage(cover_promoted(ranked, query, tokens)[0].hit, tokens),
            coverage(ranked[i].hit, tokens),
        ),
{
    let lists = crate::search::promote::alternative_tokens(real_alternatives(query));
    let start: Split = (Seq::empty(), ranked);
    assert(qualified_promoted(start, qualified_tokens(tokens), false) == start);
    let order = by_cover(ranked, lists, tokens, None);
    let keys = ranked.map_values(|c: CandidateView| cover_key(c, lists, tokens, None));
    ranking_is_permutation(keys);
    alternatives_are_few(real_alternatives(query));
    assert(ranking(keys).contains(i));
    let j = ranking(keys).index_of(i);
    assert(order[j] == ranked[i]);
    better_coverage_comes_first(ranked, lists, tokens, 0, j);
    let sorted: Split = (Seq::empty(), order);
    let led = promoted_at(sorted, Some(0));
    assert(led.0[0] == order[0]);
    token_promotion_keeps_front(led, tokens, tokens, 0);
}

proof fn alternatives_are_few(parts: Seq<Seq<char>>)
    ensures
        crate::search::promote::alternative_tokens(parts).len() <= parts.len(),
    decreases parts.len(),
{
    if parts.len() > 0 {
        alternatives_are_few(parts.drop_last());
    }
}

proof fn strongest_is_strongest(list: Seq<CandidateView>, tokens: Seq<Seq<char>>)
    requires
        list.len() > 1,
    ensures
        strongest(list, tokens) matches Some(k) && 1 <= k < list.len() && forall|i: int|
            1 <= i < list.len() ==> coverage((#[trigger] list[i]).hit, tokens).0 <= coverage(
                list[k].hit,
                tokens,
            ).0,
    decreases list.len(),
{
    let shorter = list.drop_last();
    if shorter.len() > 1 {
        strongest_is_strongest(shorter, tokens);
        let k = strongest(list, tokens)->0;
        assert forall|i: int| 1 <= i < list.len() implies coverage(
            (#[trigger] list[i]).hit,
            tokens,
        ).0 <= coverage(list[k].hit, tokens).0 by {
            if i < shorter.len() {
                assert(list[i] == shorter[i]);
            }
        }
    } else {
        assert(strongest(shorter, tokens) is None);
        assert(strongest(list, tokens) == Some(1int));
    }
}

/// A candidate that covers two tokens or more is never kept behind a first one that covers
/// fewer than it does.
pub proof fn the_strongest_comes_first(
    ranked: Seq<CandidateView>,
    tokens: Seq<Seq<char>>,
    i: int,
)
    requires
        tokens.len() > 1,
        0 <= i < ranked.len(),
        coverage(ranked[i].hit, tokens).0 >= 2,
    ensures
        strongest_promoted(ranked, tokens).len() > 0,
        coverage(strongest_promoted(ranked, tokens)[0].hit, tokens).0 >= coverage(
            ranked[i].hit,
            tokens,
        ).0,
{
    if ranked.len() > 1 {
        strongest_is_strongest(ranked, tokens);
        if i > 0 {
            let k = strongest(ranked, tokens)->0;
            assert(coverage(ranked[i].hit, tokens).0 <= coverage(ranked[k].hit, tokens).0);
        }
    }
}

} // verus!

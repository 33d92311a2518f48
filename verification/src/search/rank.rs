//! The order in which candidates are shown.
use crate::order::{key_list, positions, rank, ranking, ranking_is_permutation, ranking_is_sorted};
use crate::search::names::{
    alternative_match, canonical, canonical_declaration_name, alternatives,
    declaration_alternative_matches, declaration_glob_query, glob_query, qualified_match,
    qualified_name_matches,
};
use crate::search::records::{
    candidate_views, candidate_views_push, copy_usages, usage_views, Candidate, CandidateView,
    HitView, SearchHit,
};
use crate::search::score::{
    capped_pair, hit_match, hit_matches_token, hit_name_matches, leaf_path_match, name_match,
    name_tally, narrow, narrowed, qualified_leaf_path_match, tally_name,
};
use crate::text::make::{
    alike, cat2, copy_opt, lowercased, own, prefix_all, prefix_step, same, same_ignoring_case,
    strings, strings_push, strs, strs_push, to_chars, to_lowercase,
};
use crate::text::pieces::{has_string, nonempty_of};
use crate::text::scan::{blank, contains, ends, ends_with, is_blank, opt_string, rcut, rsplit_once};
use vstd::prelude::*;

verus! {

broadcast use {strings_push, strs_push, candidate_views_push};

/// How many results a summary shows.
pub const SUMMARY_LIMIT: usize = 5;

/// How many candidates of one source are shown together.
pub const CONTEXT_GROUP: usize = 4;

/// A hit that is no declaration but a whole file.
pub open spec fn whole_file(kind: Seq<char>) -> bool {
    kind == "file"@ || kind == "imports"@
}

/// Decides [`whole_file`].
pub fn is_whole_file(kind: &str) -> (r: bool)
    ensures
        r == whole_file(kind@),
{
    same(kind, "file") || same(kind, "imports")
}

/// A hit completed by what another hit of the same declaration knows.
pub open spec fn completed(existing: HitView, other: HitView) -> HitView {
    HitView {
        kind: if existing.kind == "declaration"@ && other.kind != "declaration"@ && other.kind
            != "file"@ {
            other.kind
        } else {
            existing.kind
        },
        signature: if existing.signature is None {
            other.signature
        } else {
            existing.signature
        },
        doc: if existing.doc is None {
            other.doc
        } else {
            existing.doc
        },
        source: if existing.source is None || blank(existing.source->0) {
            other.source
        } else {
            existing.source
        },
        usages: if existing.usages.len() == 0 {
            other.usages
        } else {
            existing.usages
        },
        applicable: existing.applicable || other.applicable,
        required_import: if existing.required_import is None {
            other.required_import
        } else {
            existing.required_import
        },
        ..existing
    }
}

/// Completes a hit, see [`completed`].
pub fn merge_duplicate_hit(existing: &mut SearchHit, candidate: &SearchHit)
    ensures
        final(existing)@ == completed(old(existing)@, candidate@),
{
    if same(existing.kind.as_str(), "declaration") && !same(candidate.kind.as_str(), "declaration")
        && !same(candidate.kind.as_str(), "file") {
        existing.kind = candidate.kind.clone();
    }
    if existing.signature.is_none() {
        existing.signature = copy_opt(&candidate.signature);
    }
    if existing.doc.is_none() {
        existing.doc = copy_opt(&candidate.doc);
    }
    let sourceless = match &existing.source {
        Some(source) => is_blank(source.as_str()),
        None => true,
    };
    if sourceless {
        existing.source = copy_opt(&candidate.source);
    }
    assert(usage_views(existing.usages@).len() == existing.usages.len());
    if existing.usages.len() == 0 {
        existing.usages = copy_usages(&candidate.usages);
    }
    existing.applicable = existing.applicable || candidate.applicable;
    if existing.required_import.is_none() {
        existing.required_import = copy_opt(&candidate.required_import);
    }
}

/// Completing a hit twice with the same hit is completing it once.
pub proof fn completing_twice_is_completing_once(existing: HitView, other: HitView)
    ensures
        completed(completed(existing, other), other) == completed(existing, other),
{
}

/// What identifies the declaration of a hit.
pub open spec fn identity(hit: HitView) -> Seq<char> {
    if whole_file(hit.kind) {
        hit.name
    } else {
        canonical(hit.name)
    }
}

fn identity_of(hit: &SearchHit) -> (r: String)
    ensures
        r@ == identity(hit@),
{
    if is_whole_file(hit.kind.as_str()) {
        hit.name.clone()
    } else {
        own(canonical_declaration_name(hit.name.as_str()))
    }
}

/// The first position of a text from `i` on, or the length of the list.
pub open spec fn place_from(list: Seq<Seq<char>>, item: Seq<char>, i: int) -> int
    decreases list.len() - i,
{
    if i >= list.len() || list[i] == item {
        i
    } else {
        place_from(list, item, i + 1)
    }
}

fn place_of(list: &Vec<String>, item: &str) -> (r: usize)
    ensures
        r == place_from(strings(list@), item@, 0),
        r <= list.len(),
{
    for i in 0..list.len()
        invariant
            place_from(strings(list@), item@, 0) == place_from(strings(list@), item@, i as int),
    {
        assert(strings(list@)[i as int] == list@[i as int]@);
        if same(list[i].as_str(), item) {
            return i;
        }
    }
    list.len()
}

/// The key that orders by score, the largest first.
pub open spec fn flipped(score: i64) -> u64 {
    (i64::MAX - score) as u64
}

/// Computes [`flipped`].
pub fn flip(score: i64) -> (r: u64)
    ensures
        r == flipped(score),
{
    (i64::MAX as i128 - score as i128) as u64
}

/// Characters as numbers.
pub open spec fn codes(text: Seq<char>) -> Seq<u64> {
    text.map_values(|c: char| c as u64)
}

/// Candidates are ordered by score, then by name.
pub open spec fn score_key(c: CandidateView) -> Seq<u64> {
    seq![flipped(c.score)] + codes(c.hit.name)
}

/// The keys of a list of candidates.
pub open spec fn score_keys(list: Seq<CandidateView>) -> Seq<Seq<u64>> {
    list.map_values(|c: CandidateView| score_key(c))
}

fn key_of_score(c: &Candidate) -> (r: Vec<u64>)
    ensures
        r@ == score_key(c@),
{
    let chars = to_chars(c.hit.name.as_str());
    let mut out: Vec<u64> = Vec::new();
    out.push(flip(c.score));
    assert(codes(chars@.take(0)) =~= Seq::empty());
    for i in 0..chars.len()
        invariant
            chars@ == c.hit.name@,
            out@ == seq![flipped(c.score)] + codes(chars@.take(i as int)),
    {
        proof {
            prefix_step(chars@, i as int);
        }
        out.push(chars[i] as u64);
        assert(out@ =~= seq![flipped(c.score)] + codes(chars@.take(i + 1)));
    }
    proof {
        prefix_all(chars@);
    }
    out
}

/// A list in the order of its keys.
pub open spec fn arranged(list: Seq<CandidateView>, keys: Seq<Seq<u64>>) -> Seq<CandidateView> {
    ranking(keys).map_values(|i: int| list[i])
}

pub(crate) fn arrange(list: &Vec<Candidate>, keys: &Vec<Vec<u64>>) -> (r: Vec<Candidate>)
    requires
        list.len() == keys.len(),
    ensures
        candidate_views(r@) == arranged(candidate_views(list@), key_list(keys@)),
{
    let order = rank(keys);
    let ghost wanted = arranged(candidate_views(list@), key_list(keys@));
    assert(positions(order@).len() == order.len());
    let mut out: Vec<Candidate> = Vec::new();
    for i in 0..order.len()
        invariant
            order.len() == keys.len(),
            list.len() == keys.len(),
            forall|j: int| 0 <= j < order.len() ==> (#[trigger] order@[j]) < keys.len(),
            positions(order@) == ranking(key_list(keys@)),
            wanted == arranged(candidate_views(list@), key_list(keys@)),
            wanted.len() == order.len(),
            candidate_views(out@) == wanted.take(i as int),
    {
        proof {
            prefix_step(wanted, i as int);
            assert(positions(order@)[i as int] == order@[i as int] as int);
        }
        out.push(list[order[i]].copy());
    }
    proof {
        prefix_all(wanted);
    }
    out
}

/// Candidates with those of the same identity merged into the first, with the
/// identities that they were listed under.
pub open spec fn merged(list: Seq<CandidateView>) -> (Seq<Seq<char>>, Seq<CandidateView>)
    decreases list.len(),
{
    if list.len() == 0 {
        (Seq::empty(), Seq::empty())
    } else {
        let (ids, out) = merged(list.drop_last());
        let c = list.last();
        let at = place_from(ids, identity(c.hit), 0);
        if at < ids.len() {
            (
                ids,
                out.update(
                    at,
                    CandidateView {
                        hit: completed(out[at].hit, c.hit),
                        origins: out[at].origins | c.origins,
                        ..out[at]
                    },
                ),
            )
        } else {
            (ids.push(identity(c.hit)), out.push(c))
        }
    }
}

/// Candidates by score and name, one for each declaration.
pub open spec fn sorted_and_merged(list: Seq<CandidateView>) -> Seq<CandidateView> {
    merged(arranged(list, score_keys(list))).1
}

fn merge_all(list: &Vec<Candidate>) -> (r: Vec<Candidate>)
    ensures
        candidate_views(r@) == merged(candidate_views(list@)).1,
{
    let ghost views = candidate_views(list@);
    let mut ids: Vec<String> = Vec::new();
    let mut out: Vec<Candidate> = Vec::new();
    assert(strings(ids@) =~= Seq::empty());
    assert(candidate_views(out@) =~= Seq::empty());
    for i in 0..list.len()
        invariant
            views == candidate_views(list@),
            ids.len() == out.len(),
            (strings(ids@), candidate_views(out@)) == merged(views.take(i as int)),
    {
        proof {
            prefix_step(views, i as int);
        }
        assert(views[i as int] == list@[i as int]@);
        let id = identity_of(&list[i].hit);
        let at = place_of(&ids, id.as_str());
        assert(strings(ids@).len() == ids.len());
        if at < ids.len() {
            let ghost before = candidate_views(out@);
            assert(before[at as int] == out@[at as int]@);
            let mut kept = out[at].copy();
            merge_duplicate_hit(&mut kept.hit, &list[i].hit);
            kept.origins = kept.origins | list[i].origins;
            out.set(at, kept);
            assert(candidate_views(out@) =~= before.update(at as int, kept@));
        } else {
            ids.push(id);
            out.push(list[i].copy());
        }
    }
    proof {
        prefix_all(views);
    }
    out
}

/// Computes [`sorted_and_merged`].
pub fn sort_and_merge_candidates(list: &Vec<Candidate>) -> (r: Vec<Candidate>)
    ensures
        candidate_views(r@) == sorted_and_merged(candidate_views(list@)),
{
    let ghost wanted = score_keys(candidate_views(list@));
    let mut keys: Vec<Vec<u64>> = Vec::new();
    assert(key_list(keys@) =~= wanted.take(0));
    for i in 0..list.len()
        invariant
            wanted == score_keys(candidate_views(list@)),
            keys.len() == i,
            key_list(keys@) == wanted.take(i as int),
    {
        proof {
            prefix_step(wanted, i as int);
        }
        let ghost before = key_list(keys@);
        keys.push(key_of_score(&list[i]));
        assert(key_list(keys@) =~= before.push(wanted[i as int]));
    }
    proof {
        prefix_all(wanted);
    }
    merge_all(&arrange(list, &keys))
}

proof fn merged_ids_are_distinct(list: Seq<CandidateView>)
    ensures
        merged(list).0.no_duplicates(),
        merged(list).0.len() == merged(list).1.len(),
        merged(list).0.len() <= list.len(),
    decreases list.len(),
{
    if list.len() > 0 {
        merged_ids_are_distinct(list.drop_last());
        let ids = merged(list.drop_last()).0;
        place_is_first(ids, identity(list.last().hit), 0);
    }
}

proof fn place_is_first(list: Seq<Seq<char>>, item: Seq<char>, i: int)
    requires
        0 <= i <= list.len(),
    ensures
        i <= place_from(list, item, i) <= list.len(),
        place_from(list, item, i) < list.len() ==> list[place_from(list, item, i)] == item,
        place_from(list, item, i) == list.len() ==> forall|j: int|
            i <= j < list.len() ==> #[trigger] list[j] != item,
    decreases list.len() - i,
{
    if i < list.len() && list[i] != item {
        place_is_first(list, item, i + 1);
    }
}

/// Whether a candidate is of a declaration.
pub open spec fn is_of(c: CandidateView, id: Seq<char>) -> bool {
    identity(c.hit) == id
}

/// The candidate at `f` is the first of its declaration in a list.
spec fn leads(list: Seq<CandidateView>, id: Seq<char>, f: int) -> bool {
    &&& 0 <= f < list.len()
    &&& is_of(list[f], id)
    &&& forall|j: int| 0 <= j < list.len() && is_of(#[trigger] list[j], id) ==> f <= j
}

/// Whether a candidate comes from the source with a number.
pub open spec fn from_origin(origins: u8, bit: u8) -> bool {
    (origins >> bit) & 1 == 1
}

/// Some candidate of a declaration comes from the source with a number.
pub open spec fn some_from(list: Seq<CandidateView>, id: Seq<char>, bit: u8) -> bool {
    exists|i: int|
        0 <= i < list.len() && is_of(#[trigger] list[i], id) && from_origin(list[i].origins, bit)
}

proof fn joined_origins(a: u8, b: u8, bit: u8)
    ensures
        bit < 8 ==> (from_origin(a | b, bit) <==> from_origin(a, bit) || from_origin(b, bit)),
{
    assert(bit < 8 ==> ((((a | b) >> bit) & 1 == 1) <==> ((a >> bit) & 1 == 1) || ((b >> bit) & 1
        == 1))) by (bit_vector);
}

proof fn some_from_step(list: Seq<CandidateView>, id: Seq<char>, bit: u8)
    requires
        list.len() > 0,
    ensures
        some_from(list, id, bit) <==> some_from(list.drop_last(), id, bit) || (is_of(
            list.last(),
            id,
        ) && from_origin(list.last().origins, bit)),
{
    let shorter = list.drop_last();
    if some_from(shorter, id, bit) {
        let i = choose|i: int|
            0 <= i < shorter.len() && is_of(#[trigger] shorter[i], id) && from_origin(
                shorter[i].origins,
                bit,
            );
        assert(is_of(list[i], id));
    }
    if some_from(list, id, bit) {
        let i = choose|i: int|
            0 <= i < list.len() && is_of(#[trigger] list[i], id) && from_origin(
                list[i].origins,
                bit,
            );
        if i < shorter.len() {
            assert(is_of(shorter[i], id));
        }
    }
    if is_of(list.last(), id) {
        assert(is_of(list[list.len() - 1], id));
    }
}

/// Every declaration of a list is among those of the merged list.
proof fn merged_keeps_ids(list: Seq<CandidateView>, i: int)
    requires
        0 <= i < list.len(),
    ensures
        merged(list).0.contains(identity(list[i].hit)),
    decreases list.len(),
{
    let shorter = list.drop_last();
    let ids = merged(shorter).0;
    let id = identity(list.last().hit);
    place_is_first(ids, id, 0);
    if i < shorter.len() {
        merged_keeps_ids(shorter, i);
        let at = ids.index_of(identity(shorter[i].hit));
        assert(merged(list).0[at] == identity(list[i].hit));
    } else if place_from(ids, id, 0) == ids.len() {
        assert(merged(list).0[ids.len() as int] == id);
    }
}

/// A merged candidate has the score of the first of its declaration.
proof fn merged_follows_first(list: Seq<CandidateView>, k: int) -> (f: int)
    requires
        0 <= k < merged(list).0.len(),
    ensures
        leads(list, merged(list).0[k], f),
        merged(list).1[k].score == list[f].score,
    decreases list.len(),
{
    let shorter = list.drop_last();
    let (ids, out) = merged(shorter);
    let id = identity(list.last().hit);
    merged_ids_are_distinct(shorter);
    merged_ids_are_distinct(list);
    place_is_first(ids, id, 0);
    if k < ids.len() {
        let f = merged_follows_first(shorter, k);
        assert(list[f] == shorter[f]);
        assert forall|j: int| 0 <= j < list.len() && is_of(
            #[trigger] list[j],
            ids[k],
        ) implies f <= j by {
            if j < shorter.len() {
                assert(is_of(shorter[j], ids[k]));
            }
        }
        f
    } else {
        let f = list.len() - 1;
        assert forall|j: int| 0 <= j < list.len() && is_of(#[trigger] list[j], id) implies f
            <= j by {
            if j < shorter.len() {
                merged_keeps_ids(shorter, j);
                assert(list[j] == shorter[j]);
            }
        }
        f
    }
}

/// A merged candidate comes from the sources of all candidates of its declaration.
proof fn merged_joins_origins(list: Seq<CandidateView>, k: int, bit: u8)
    requires
        0 <= k < merged(list).0.len(),
        bit < 8,
    ensures
        from_origin(merged(list).1[k].origins, bit) <==> some_from(list, merged(list).0[k], bit),
    decreases list.len(),
{
    let shorter = list.drop_last();
    let (ids, out) = merged(shorter);
    let c = list.last();
    let id = identity(c.hit);
    merged_ids_are_distinct(shorter);
    merged_ids_are_distinct(list);
    place_is_first(ids, id, 0);
    let at = place_from(ids, id, 0);
    some_from_step(list, merged(list).0[k], bit);
    if k < ids.len() {
        merged_joins_origins(shorter, k, bit);
        if at == k {
            joined_origins(out[k].origins, c.origins, bit);
        } else if at < ids.len() {
            assert(ids[k] != ids[at]);
        } else {
            assert(ids[k] != id);
        }
    } else if some_from(shorter, id, bit) {
        let i = choose|i: int|
            0 <= i < shorter.len() && is_of(#[trigger] shorter[i], id) && from_origin(
                shorter[i].origins,
                bit,
            );
        merged_keeps_ids(shorter, i);
    }
}

/// No declaration is listed twice after merging, and merging adds none and loses none.
pub proof fn merging_lists_each_once(list: Seq<CandidateView>)
    ensures
        merged(list).0.no_duplicates(),
        merged(list).0.len() == merged(list).1.len(),
        merged(list).1.len() <= list.len(),
        forall|id: Seq<char>| #[trigger]
            merged(list).0.contains(id) <==> exists|i: int|
                0 <= i < list.len() && is_of(#[trigger] list[i], id),
{
    merged_ids_are_distinct(list);
    assert forall|id: Seq<char>| #[trigger] merged(list).0.contains(id) <==> exists|i: int|
        0 <= i < list.len() && is_of(#[trigger] list[i], id) by {
        if merged(list).0.contains(id) {
            let f = merged_follows_first(list, merged(list).0.index_of(id));
            assert(is_of(list[f], id));
        }
        if exists|i: int| 0 <= i < list.len() && is_of(#[trigger] list[i], id) {
            let i = choose|i: int| 0 <= i < list.len() && is_of(#[trigger] list[i], id);
            merged_keeps_ids(list, i);
        }
    }
}

proof fn arranged_by_score(list: Seq<CandidateView>, i: int, j: int)
    requires
        0 <= i <= j < list.len(),
    ensures
        arranged(list, score_keys(list)).len() == list.len(),
        arranged(list, score_keys(list))[i].score >= arranged(list, score_keys(list))[j].score,
{
    let keys = score_keys(list);
    ranking_is_permutation(keys);
    if i < j {
        ranking_is_sorted(keys, i, j);
        let a = ranking(keys)[i];
        let b = ranking(keys)[j];
        assert(keys[a] == score_key(list[a]) && keys[b] == score_key(list[b]));
        assert(keys[a][0] == flipped(list[a].score));
        assert(keys[b][0] == flipped(list[b].score));
    }
}

/// Where a candidate stands once its list is arranged.
proof fn arranged_holds(list: Seq<CandidateView>, i: int) -> (p: int)
    requires
        0 <= i < list.len(),
    ensures
        0 <= p < arranged(list, score_keys(list)).len(),
        arranged(list, score_keys(list))[p] == list[i],
{
    let keys = score_keys(list);
    ranking_is_permutation(keys);
    assert(ranking(keys).contains(i));
    ranking(keys).index_of(i)
}

/// Sorting and merging list each declaration of the candidates once. A merged candidate
/// has the greatest score among the candidates of its declaration, and comes from all
/// the sources that they come from.
pub proof fn merging_keeps_the_best(list: Seq<CandidateView>)
    ensures
        ({
            let (ids, out) = merged(arranged(list, score_keys(list)));
            &&& out == sorted_and_merged(list)
            &&& ids.no_duplicates()
            &&& ids.len() == out.len()
            &&& forall|id: Seq<char>| #[trigger]
                ids.contains(id) <==> exists|i: int|
                    0 <= i < list.len() && is_of(#[trigger] list[i], id)
            &&& forall|k: int, i: int|
                0 <= k < ids.len() && 0 <= i < list.len() && is_of(
                    #[trigger] list[i],
                    #[trigger] ids[k],
                ) ==> list[i].score <= out[k].score
            &&& forall|k: int|
                0 <= k < ids.len() ==> exists|i: int|
                    0 <= i < list.len() && is_of(#[trigger] list[i], #[trigger] ids[k])
                        && list[i].score == out[k].score
            &&& forall|k: int, bit: u8|
                0 <= k < ids.len() && bit < 8 ==> (#[trigger] from_origin(out[k].origins, bit)
                    <==> some_from(list, ids[k], bit))
        }),
{
    let keys = score_keys(list);
    let sorted = arranged(list, keys);
    let (ids, out) = merged(sorted);
    ranking_is_permutation(keys);
    merging_lists_each_once(sorted);
    assert forall|id: Seq<char>| #[trigger] ids.contains(id) <==> exists|i: int|
        0 <= i < list.len() && is_of(#[trigger] list[i], id) by {
        if ids.contains(id) {
            let p = choose|p: int| 0 <= p < sorted.len() && is_of(#[trigger] sorted[p], id);
            assert(is_of(list[ranking(keys)[p]], id));
        }
        if exists|i: int| 0 <= i < list.len() && is_of(#[trigger] list[i], id) {
            let i = choose|i: int| 0 <= i < list.len() && is_of(#[trigger] list[i], id);
            let p = arranged_holds(list, i);
            assert(is_of(sorted[p], id));
        }
    }
    assert forall|k: int, i: int|
        0 <= k < ids.len() && 0 <= i < list.len() && is_of(
            #[trigger] list[i],
            #[trigger] ids[k],
        ) implies list[i].score <= out[k].score by {
        let f = merged_follows_first(sorted, k);
        let p = arranged_holds(list, i);
        assert(is_of(sorted[p], ids[k]));
        arranged_by_score(list, f, p);
    }
    assert forall|k: int| 0 <= k < ids.len() implies exists|i: int|
        0 <= i < list.len() && is_of(#[trigger] list[i], #[trigger] ids[k]) && list[i].score
            == out[k].score by {
        let f = merged_follows_first(sorted, k);
        assert(is_of(list[ranking(keys)[f]], ids[k]));
    }
    assert forall|k: int, bit: u8| 0 <= k < ids.len() && bit < 8 implies (#[trigger] from_origin(
        out[k].origins,
        bit,
    ) <==> some_from(list, ids[k], bit)) by {
        merged_joins_origins(sorted, k, bit);
        let id = ids[k];
        if some_from(sorted, id, bit) {
            let p = choose|p: int|
                0 <= p < sorted.len() && is_of(#[trigger] sorted[p], id) && from_origin(
                    sorted[p].origins,
                    bit,
                );
            assert(is_of(list[ranking(keys)[p]], id));
        }
        if some_from(list, id, bit) {
            let i = choose|i: int|
                0 <= i < list.len() && is_of(#[trigger] list[i], id) && from_origin(
                    list[i].origins,
                    bit,
                );
            let p = arranged_holds(list, i);
            assert(is_of(sorted[p], id));
        }
    }
}

/// The points of a hit that the file can use.
pub const IMPORT_AVAILABLE: u8 = 30;

/// The points that a hit loses where the file would have to import it.
pub const IMPORT_MISSING: u8 = 10;

/// The points of a hit in the module that is worked on.
pub const CURRENT_CONTEXT: u8 = 40;

/// The points of a hit in the file that is worked on.
pub const CURRENT_SOURCE: u8 = 60;

/// What a search knows of the imports of a file.
#[derive(Debug)]
pub struct ImportContext {
    /// The modules that the file can use.
    pub accessible: Vec<String>,
    /// Whether `accessible` is known to list them all.
    pub complete: bool,
    /// The module that results are preferred from.
    pub preferred_module: Option<String>,
    /// The file that results are preferred from.
    pub preferred_path: Option<String>,
}

/// The contents of an [`ImportContext`].
pub struct ImportContextView {
    pub accessible: Seq<Seq<char>>,
    pub complete: bool,
    pub preferred_module: Option<Seq<char>>,
    pub preferred_path: Option<Seq<char>>,
}

impl View for ImportContext {
    type V = ImportContextView;

    open spec fn view(&self) -> ImportContextView {
        ImportContextView {
            accessible: strings(self.accessible@),
            complete: self.complete,
            preferred_module: opt_string(self.preferred_module),
            preferred_path: opt_string(self.preferred_path),
        }
    }
}

/// The points of an accessible hit.
pub open spec fn access_points(hit: HitView, context: ImportContextView) -> int {
    IMPORT_AVAILABLE + (if context.preferred_module is Some && alike(hit.module, context.preferred_module->0) {
        CURRENT_CONTEXT as int
    } else {
        0
    }) + (if context.preferred_path is Some && (hit.path == context.preferred_path->0 || ends(
        hit.path,
        context.preferred_path->0,
    )) {
        CURRENT_SOURCE as int
    } else {
        0
    })
}

/// A candidate scored by whether its module is imported: one that is not is marked with
/// the import that it needs.
pub open spec fn in_context(c: CandidateView, context: ImportContextView) -> CandidateView {
    if c.hit.module.len() == 0 {
        c
    } else if context.accessible.contains(c.hit.module) {
        CandidateView {
            hit: HitView { required_import: None, ..c.hit },
            score: narrowed(c.score + access_points(c.hit, context)),
            ..c
        }
    } else if context.complete {
        CandidateView {
            hit: HitView { required_import: Some(c.hit.module), ..c.hit },
            score: narrowed(c.score - IMPORT_MISSING),
            ..c
        }
    } else {
        c
    }
}

/// A hit that the file can use never loses by its context, and a preferred one never gains
/// less than another; only what would have to be imported falls behind.
pub proof fn context_never_lowers_what_is_imported(c: CandidateView, context: ImportContextView)
    ensures
        context.accessible.contains(c.hit.module) ==> in_context(c, context).score >= c.score,
        access_points(c.hit, context) >= IMPORT_AVAILABLE,
        in_context(c, context).hit.required_import is Some && c.hit.required_import is None
            ==> !context.accessible.contains(c.hit.module) && context.complete,
{
}

/// Applies [`in_context`].
pub fn apply_import_context(candidate: &mut Candidate, context: &ImportContext)
    ensures
        final(candidate)@ == in_context(old(candidate)@, context@),
{
    if candidate.hit.module.as_str().is_empty() {
        return;
    }
    if has_string(&context.accessible, candidate.hit.module.as_str()) {
        let mut points: i128 = IMPORT_AVAILABLE as i128;
        if let Some(module) = &context.preferred_module {
            if same_ignoring_case(candidate.hit.module.as_str(), module.as_str()) {
                points += CURRENT_CONTEXT as i128;
            }
        }
        if let Some(path) = &context.preferred_path {
            if same(candidate.hit.path.as_str(), path.as_str()) || ends_with(
                candidate.hit.path.as_str(),
                path.as_str(),
            ) {
                points += CURRENT_SOURCE as i128;
            }
        }
        candidate.score = narrow(candidate.score as i128 + points);
        candidate.hit.required_import = None;
    } else if context.complete {
        candidate.score = narrow(candidate.score as i128 - IMPORT_MISSING as i128);
        candidate.hit.required_import = Some(candidate.hit.module.clone());
    }
}

/// Every candidate scored by its context.
pub open spec fn all_in_context(
    list: Seq<CandidateView>,
    context: Option<ImportContextView>,
) -> Seq<CandidateView> {
    match context {
        Some(known) => list.map_values(|c: CandidateView| in_context(c, known)),
        None => list,
    }
}

/// The contents of an optional context.
pub open spec fn opt_imports(context: Option<&ImportContext>) -> Option<ImportContextView> {
    match context {
        Some(known) => Some(known@),
        None => None,
    }
}

pub(crate) fn apply_context_scores(list: &mut Vec<Candidate>, context: Option<&ImportContext>)
    ensures
        candidate_views(final(list)@) == all_in_context(
            candidate_views(old(list)@),
            opt_imports(context),
        ),
{
    if let Some(known) = context {
        let ghost wanted = all_in_context(candidate_views(list@), Some(known@));
        let mut out: Vec<Candidate> = Vec::new();
        for i in 0..list.len()
            invariant
                wanted == all_in_context(candidate_views(list@), Some(known@)),
                wanted.len() == list.len(),
                candidate_views(out@) == wanted.take(i as int),
        {
            proof {
                prefix_step(wanted, i as int);
            }
            let mut c = list[i].copy();
            apply_import_context(&mut c, known);
            out.push(c);
        }
        proof {
            prefix_all(wanted);
        }
        *list = out;
    }
}

/// The candidates whose names match a query.
pub open spec fn named_by(list: Seq<CandidateView>, query: Seq<char>) -> Seq<CandidateView>
    decreases list.len(),
{
    if list.len() == 0 {
        Seq::empty()
    } else if alternative_match(list.last().hit.name, query) {
        named_by(list.drop_last(), query).push(list.last())
    } else {
        named_by(list.drop_last(), query)
    }
}

/// A query with wildcards found candidates, but none with such a name.
pub open spec fn glob_missed(list: Seq<CandidateView>, query: Seq<char>) -> bool {
    glob_query(query) && list.len() > 0 && named_by(list, query).len() == 0
}

/// The candidates that a query with wildcards keeps: those with such a name, or all of
/// them where there is none.
pub open spec fn glob_kept(list: Seq<CandidateView>, query: Seq<char>) -> Seq<CandidateView> {
    if glob_query(query) && named_by(list, query).len() > 0 {
        named_by(list, query)
    } else {
        list
    }
}

/// Keeps what [`glob_kept`] says, and tells whether the name was missed.
pub fn apply_declaration_glob(candidates: &mut Vec<Candidate>, query: &str) -> (r: bool)
    ensures
        candidate_views(final(candidates)@) == glob_kept(candidate_views(old(candidates)@), query@),
        r == glob_missed(candidate_views(old(candidates)@), query@),
{
    if !declaration_glob_query(query) {
        return false;
    }
    let ghost views = candidate_views(candidates@);
    let mut out: Vec<Candidate> = Vec::new();
    for i in 0..candidates.len()
        invariant
            views == candidate_views(candidates@),
            candidate_views(out@) == named_by(views.take(i as int), query@),
    {
        proof {
            prefix_step(views, i as int);
        }
        assert(views[i as int] == candidates@[i as int]@);
        if declaration_alternative_matches(candidates[i].hit.name.as_str(), query) {
            out.push(candidates[i].copy());
        }
    }
    proof {
        prefix_all(views);
    }
    assert(views.len() == candidates.len());
    assert(candidate_views(out@).len() == out.len());
    if out.len() > 0 {
        *candidates = out;
        false
    } else {
        candidates.len() > 0
    }
}

/// A condition on a candidate.
#[derive(Clone, Copy)]
pub enum CandidateTest<'a> {
    /// It is what a qualified name asks for.
    Direct(&'a str),
    /// It is the owner that a qualified name asks for.
    Owner(&'a str),
    /// A declaration with that name.
    Declared(&'a str),
    /// It is fit for the token, and has that name.
    Exact(&'a str),
    /// It is fit for the token, and its name answers it.
    Named(&'a str),
    /// It is fit for the token, and answers it.
    Told(&'a str),
    /// Its name answers the token.
    NameAnswers(&'a str),
    /// It answers the token.
    Answers(&'a str),
    /// It has exactly that name.
    Called(&'a str),
}

/// A candidate may stand for a token: a declaration, or a file for a token about
/// imports.
pub open spec fn fit_for(c: CandidateView, token: Seq<char>) -> bool {
    !whole_file(c.hit.kind) || token == "import"@ || token == "imports"@
}

fn is_fit_for(c: &Candidate, token: &str) -> (r: bool)
    ensures
        r == fit_for(c@, token@),
{
    !is_whole_file(c.hit.kind.as_str()) || same(token, "import") || same(token, "imports")
}

/// The name is the owner in a qualified name, or ends with it.
pub open spec fn owner_called(name: Seq<char>, token: Seq<char>) -> bool {
    match rcut(token, "."@) {
        Some(sides) => alike(name, sides.0) || ends(lowercased(name), "."@ + sides.0),
        None => false,
    }
}

/// The contents of a [`CandidateTest`].
pub enum TestView {
    Direct(Seq<char>),
    Owner(Seq<char>),
    Declared(Seq<char>),
    Exact(Seq<char>),
    Named(Seq<char>),
    Told(Seq<char>),
    NameAnswers(Seq<char>),
    Answers(Seq<char>),
    Called(Seq<char>),
}

impl TestView {
    /// What the test demands.
    pub open spec fn passes(self, c: CandidateView) -> bool {
        match self {
            TestView::Direct(t) => alike(c.hit.name, t) || leaf_path_match(
                t,
                c.hit.name,
                c.hit.module,
                c.hit.path,
            ),
            TestView::Owner(t) => owner_called(c.hit.name, t),
            TestView::Declared(t) => !whole_file(c.hit.kind) && qualified_match(c.hit.name, t),
            TestView::Exact(t) => fit_for(c, t) && qualified_match(c.hit.name, t),
            TestView::Named(t) => fit_for(c, t) && name_match(c.hit.name, t),
            TestView::Told(t) => fit_for(c, t) && hit_match(c.hit, t),
            TestView::NameAnswers(t) => name_match(c.hit.name, t),
            TestView::Answers(t) => hit_match(c.hit, t),
            TestView::Called(t) => c.hit.name == t,
        }
    }
}

impl<'a> View for CandidateTest<'a> {
    type V = TestView;

    open spec fn view(&self) -> TestView {
        match *self {
            CandidateTest::Direct(t) => TestView::Direct(t@),
            CandidateTest::Owner(t) => TestView::Owner(t@),
            CandidateTest::Declared(t) => TestView::Declared(t@),
            CandidateTest::Exact(t) => TestView::Exact(t@),
            CandidateTest::Named(t) => TestView::Named(t@),
            CandidateTest::Told(t) => TestView::Told(t@),
            CandidateTest::NameAnswers(t) => TestView::NameAnswers(t@),
            CandidateTest::Answers(t) => TestView::Answers(t@),
            CandidateTest::Called(t) => TestView::Called(t@),
        }
    }
}

impl<'a> CandidateTest<'a> {
    /// Decides [`TestView::passes`].
    pub fn accepts(self, c: &Candidate) -> (r: bool)
        ensures
            r == self@.passes(c@),
    {
        let name = c.hit.name.as_str();
        match self {
            CandidateTest::Direct(t) => same_ignoring_case(name, t) || qualified_leaf_path_match(
                t,
                name,
                c.hit.module.as_str(),
                c.hit.path.as_str(),
            ),
            CandidateTest::Owner(t) => match rsplit_once(t, ".") {
                Some(sides) => same_ignoring_case(name, sides.0) || ends_with(
                    to_lowercase(name).as_str(),
                    cat2(".", sides.0).as_str(),
                ),
                None => false,
            },
            CandidateTest::Declared(t) => !is_whole_file(c.hit.kind.as_str())
                && qualified_name_matches(name, t),
            CandidateTest::Exact(t) => is_fit_for(c, t) && qualified_name_matches(name, t),
            CandidateTest::Named(t) => is_fit_for(c, t) && hit_name_matches(name, t),
            CandidateTest::Told(t) => is_fit_for(c, t) && hit_matches_token(&c.hit, t),
            CandidateTest::NameAnswers(t) => hit_name_matches(name, t),
            CandidateTest::Answers(t) => hit_matches_token(&c.hit, t),
            CandidateTest::Called(t) => same(name, t),
        }
    }
}

/// The first position from `i` on that passes a test.
pub open spec fn first_passing(list: Seq<CandidateView>, test: TestView, i: int) -> Option<int>
    decreases list.len() - i,
{
    if i >= list.len() {
        None
    } else if test.passes(list[i]) {
        Some(i)
    } else {
        first_passing(list, test, i + 1)
    }
}

/// A position as a mathematical integer.
pub open spec fn opt_index(o: Option<usize>) -> Option<int> {
    match o {
        Some(i) => Some(i as int),
        None => None,
    }
}

pub(crate) fn find_passing(list: &Vec<Candidate>, test: CandidateTest, from: usize) -> (r: Option<usize>)
    requires
        from <= list.len(),
    ensures
        opt_index(r) == first_passing(candidate_views(list@), test@, from as int),
        r is Some ==> from <= r->0 < list.len(),
{
    for i in from..list.len()
        invariant
            from <= i,
            first_passing(candidate_views(list@), test@, from as int) == first_passing(
                candidate_views(list@),
                test@,
                i as int,
            ),
    {
        assert(candidate_views(list@)[i as int] == list@[i as int]@);
        if test.accepts(&list[i]) {
            return Some(i);
        }
    }
    None
}

/// The only position that passes a test.
pub open spec fn only_passing(list: Seq<CandidateView>, test: TestView) -> Option<int> {
    match first_passing(list, test, 0) {
        Some(i) => if first_passing(list, test, i + 1) is None {
            Some(i)
        } else {
            None
        },
        None => None,
    }
}

pub(crate) fn find_only(list: &Vec<Candidate>, test: CandidateTest) -> (r: Option<usize>)
    ensures
        opt_index(r) == only_passing(candidate_views(list@), test@),
        r is Some ==> r->0 < list.len(),
{
    match find_passing(list, test, 0) {
        Some(i) => if find_passing(list, test, i + 1).is_none() {
            Some(i)
        } else {
            None
        },
        None => None,
    }
}

/// The position that passes a test and whose name answers most tokens, the last of them.
pub open spec fn best_named(
    list: Seq<CandidateView>,
    test: TestView,
    tokens: Seq<Seq<char>>,
) -> Option<int>
    decreases list.len(),
{
    if list.len() == 0 {
        None
    } else {
        let earlier = best_named(list.drop_last(), test, tokens);
        let here = capped_pair(name_tally(list.last().hit.name, tokens)).0;
        if test.passes(list.last()) && (earlier is None || here >= capped_pair(
            name_tally(list[earlier->0].hit.name, tokens),
        ).0) {
            Some(list.len() - 1)
        } else {
            earlier
        }
    }
}

proof fn best_named_bounds(list: Seq<CandidateView>, test: TestView, tokens: Seq<Seq<char>>)
    ensures
        best_named(list, test, tokens) is Some ==> 0 <= best_named(list, test, tokens)->0
            < list.len(),
    decreases list.len(),
{
    if list.len() > 0 {
        best_named_bounds(list.drop_last(), test, tokens);
    }
}

pub(crate) fn find_best_named(list: &Vec<Candidate>, test: CandidateTest, tokens: &Vec<String>) -> (r: Option<
    usize,
>)
    ensures
        opt_index(r) == best_named(candidate_views(list@), test@, strings(tokens@)),
        r is Some ==> r->0 < list.len(),
{
    let ghost views = candidate_views(list@);
    let mut best: Option<usize> = None;
    let mut most: u64 = 0;
    for i in 0..list.len()
        invariant
            views == candidate_views(list@),
            opt_index(best) == best_named(views.take(i as int), test@, strings(tokens@)),
            best is Some ==> best->0 < i && most == capped_pair(
                name_tally(views[best->0 as int].hit.name, strings(tokens@)),
            ).0,
    {
        proof {
            prefix_step(views, i as int);
            best_named_bounds(views.take(i as int), test@, strings(tokens@));
        }
        assert(views[i as int] == list@[i as int]@);
        if test.accepts(&list[i]) {
            let here = tally_name(list[i].hit.name.as_str(), tokens).0;
            if best.is_none() || here >= most {
                best = Some(i);
                most = here;
            }
        }
    }
    proof {
        prefix_all(views);
    }
    best
}

pub(crate) fn take_at(list: &mut Vec<Candidate>, i: usize) -> (r: Candidate)
    requires
        i < old(list).len(),
    ensures
        candidate_views(final(list)@) == candidate_views(old(list)@).remove(i as int),
        final(list).len() == old(list).len() - 1,
        r@ == candidate_views(old(list)@)[i as int],
{
    let ghost before = list@;
    let taken = list.remove(i);
    assert(candidate_views(list@) =~= candidate_views(before).remove(i as int));
    taken
}

pub(crate) fn put_first(list: &mut Vec<Candidate>, c: Candidate)
    ensures
        candidate_views(final(list)@) == candidate_views(old(list)@).insert(0, c@),
{
    let ghost before = list@;
    list.insert(0, c);
    assert(candidate_views(list@) =~= candidate_views(before).insert(0, c@));
}

/// What has been promoted, and what remains.
pub type Split = (Seq<CandidateView>, Seq<CandidateView>);

/// One candidate more promoted.
pub open spec fn promoted_at(state: Split, at: Option<int>) -> Split {
    match at {
        Some(i) => (state.0.push(state.1[i]), state.1.remove(i)),
        None => state,
    }
}

pub(crate) fn promote_at(promoted: &mut Vec<Candidate>, remaining: &mut Vec<Candidate>, at: Option<usize>)
    requires
        at is Some ==> at->0 < old(remaining).len(),
    ensures
        (candidate_views(final(promoted)@), candidate_views(final(remaining)@)) == promoted_at(
            (candidate_views(old(promoted)@), candidate_views(old(remaining)@)),
            opt_index(at),
        ),
{
    if let Some(i) = at {
        let c = take_at(remaining, i);
        promoted.push(c);
    }
}

/// The alternatives of a query that are not empty.
pub open spec fn real_alternatives(query: Seq<char>) -> Seq<Seq<char>> {
    nonempty_of(alternatives(query))
}

/// The candidate that alone has the name of an alternative, for the first alternative
/// from `i` on that names just one.
pub open spec fn sole_alternative(
    list: Seq<CandidateView>,
    parts: Seq<Seq<char>>,
    i: int,
) -> Option<int>
    decreases parts.len() - i,
{
    if i >= parts.len() {
        None
    } else {
        match only_passing(list, TestView::Declared(parts[i])) {
            Some(at) => Some(at),
            None => sole_alternative(list, parts, i + 1),
        }
    }
}

pub(crate) fn find_sole_alternative(list: &Vec<Candidate>, parts: &Vec<&str>) -> (r: Option<usize>)
    ensures
        opt_index(r) == sole_alternative(candidate_views(list@), strs(parts@), 0),
        r is Some ==> r->0 < list.len(),
{
    for i in 0..parts.len()
        invariant
            sole_alternative(candidate_views(list@), strs(parts@), 0) == sole_alternative(
                candidate_views(list@),
                strs(parts@),
                i as int,
            ),
    {
        assert(strs(parts@)[i as int] == parts@[i as int]@);
        let at = find_only(list, CandidateTest::Declared(parts[i]));
        if at.is_some() {
            return at;
        }
    }
    None
}

} // verus!

//! Pairs of declarations that together answer a query, and requests in the words of
//! Lean.
use crate::search::names::{alternatives, split_alternatives};
use crate::search::records::{
    candidate_views, hit_views, usage_views, Candidate, CandidateView, HitView, SearchHit,
    SearchUsage, UsageView,
};
use crate::search::score::{coverage, hit_match, hit_matches_token, hit_query_coverage};
use crate::search::tokens::{leaf, leaf_of, query_tokens, query_words};
use crate::text::make::{
    cat2, lower, own, prefix_all, prefix_step, push_str, same, strings, strs, to_lower,
};
use crate::text::number::{decimal, show_size};
use crate::text::pieces::{split_text, split_words, words};
use crate::text::scan::{
    after_prefix, bare, begins, contains, has_text, opt_string, starts_with, strip_prefix, trim,
};
use vstd::prelude::*;

verus! {

/// Whether some usage of one declaration is also one of another: in the same file and
/// the same declaration.
pub open spec fn shared_usage(a: Seq<UsageView>, b: Seq<UsageView>) -> bool {
    exists|i: int, j: int|
        0 <= i < a.len() && 0 <= j < b.len() && (#[trigger] a[i]).path == (#[trigger] b[j]).path
            && a[i].context == b[j].context
}

/// Whether some usage stands in a declaration whose name holds a text.
pub open spec fn used_within(list: Seq<UsageView>, name: Seq<char>) -> bool {
    exists|i: int|
        0 <= i < list.len() && (#[trigger] list[i]).context is Some && has_text(
            lower(list[i].context->0),
            name,
        )
}

fn same_context(a: &Option<String>, b: &Option<String>) -> (r: bool)
    ensures
        r == (opt_string(*a) == opt_string(*b)),
{
    match (a, b) {
        (Some(x), Some(y)) => same(x.as_str(), y.as_str()),
        (None, None) => true,
        _ => false,
    }
}

fn has_usage(list: &Vec<SearchUsage>, usage: &SearchUsage) -> (r: bool)
    ensures
        r == exists|j: int|
            0 <= j < list.len() && usage@.path == (#[trigger] usage_views(list@)[j]).path
                && usage@.context == usage_views(list@)[j].context,
{
    let ghost views = usage_views(list@);
    for j in 0..list.len()
        invariant
            views == usage_views(list@),
            forall|k: int|
                0 <= k < j ==> !(usage@.path == (#[trigger] views[k]).path && usage@.context
                    == views[k].context),
    {
        assert(views[j as int] == list@[j as int]@);
        if same(usage.path.as_str(), list[j].path.as_str()) && same_context(
            &usage.context,
            &list[j].context,
        ) {
            return true;
        }
    }
    false
}

fn is_shared(a: &Vec<SearchUsage>, b: &Vec<SearchUsage>) -> (r: bool)
    ensures
        r == shared_usage(usage_views(a@), usage_views(b@)),
{
    let ghost left = usage_views(a@);
    let ghost right = usage_views(b@);
    assert(left.len() == a.len() && right.len() == b.len());
    for i in 0..a.len()
        invariant
            left == usage_views(a@),
            right == usage_views(b@),
            left.len() == a.len(),
            right.len() == b.len(),
            forall|k: int, j: int|
                0 <= k < i && 0 <= j < right.len() ==> !((#[trigger] left[k]).path == (
                #[trigger] right[j]).path && left[k].context == right[j].context),
    {
        assert(left[i as int] == a@[i as int]@);
        if has_usage(b, &a[i]) {
            return true;
        }
    }
    false
}

fn is_used_within(list: &Vec<SearchUsage>, name: &str) -> (r: bool)
    ensures
        r == used_within(usage_views(list@), name@),
{
    let ghost views = usage_views(list@);
    assert(views.len() == list.len());
    for i in 0..list.len()
        invariant
            views == usage_views(list@),
            views.len() == list.len(),
            forall|k: int|
                0 <= k < i ==> !((#[trigger] views[k]).context is Some && has_text(
                    lower(views[k].context->0),
                    name@,
                )),
    {
        assert(views[i as int] == list@[i as int]@);
        if let Some(context) = &list[i].context {
            if contains(to_lower(context.as_str()).as_str(), name) {
                return true;
            }
        }
    }
    false
}

/// Whether two declarations have to do with each other.
pub open spec fn related(a: HitView, b: HitView) -> bool {
    ||| used_within(a.usages, leaf(lower(b.name)))
    ||| used_within(b.usages, leaf(lower(a.name)))
    ||| shared_usage(a.usages, b.usages)
}

fn is_related(a: &SearchHit, b: &SearchHit) -> (r: bool)
    ensures
        r == related(a@, b@),
{
    is_used_within(&a.usages, leaf_of(to_lower(b.name.as_str()).as_str())) || is_used_within(
        &b.usages,
        leaf_of(to_lower(a.name.as_str()).as_str()),
    ) || is_shared(&a.usages, &b.usages)
}

/// How many tokens one or the other of two hits answers.
pub open spec fn joint_coverage(a: HitView, b: HitView, tokens: Seq<Seq<char>>) -> nat
    decreases tokens.len(),
{
    if tokens.len() == 0 {
        0
    } else {
        joint_coverage(a, b, tokens.drop_last()) + if hit_match(a, tokens.last()) || hit_match(
            b,
            tokens.last(),
        ) {
            1nat
        } else {
            0nat
        }
    }
}

fn count_joint(a: &SearchHit, b: &SearchHit, tokens: &Vec<String>) -> (r: usize)
    ensures
        r == joint_coverage(a@, b@, strings(tokens@)),
        r <= tokens.len(),
{
    let ghost views = strings(tokens@);
    assert(views.len() == tokens.len());
    let mut count: usize = 0;
    assert(views.take(0) =~= Seq::<Seq<char>>::empty());
    for i in 0..tokens.len()
        invariant
            views == strings(tokens@),
            views.len() == tokens.len(),
            count <= i,
            count == joint_coverage(a@, b@, views.take(i as int)),
    {
        proof {
            prefix_step(views, i as int);
        }
        assert(views[i as int] == tokens@[i as int]@);
        if hit_matches_token(a, tokens[i].as_str()) || hit_matches_token(b, tokens[i].as_str()) {
            count += 1;
        }
    }
    proof {
        prefix_all(views);
    }
    count
}

/// How well a candidate goes with the first one.
pub open spec fn bridge_score(a: HitView, b: HitView, tokens: Seq<Seq<char>>) -> nat {
    joint_coverage(a, b, tokens) * 10 + if related(a, b) {
        5nat
    } else {
        0nat
    }
}

/// The candidate among the first `n` that goes best with the first one and adds to what
/// it answers; of equal ones the earliest.
pub open spec fn best_bridge(ranked: Seq<CandidateView>, tokens: Seq<Seq<char>>, n: nat) -> Option<
    int,
>
    decreases n,
{
    if n <= 1 {
        None
    } else {
        let earlier = best_bridge(ranked, tokens, (n - 1) as nat);
        let a = ranked[0].hit;
        let b = ranked[n - 1].hit;
        if joint_coverage(a, b, tokens) > coverage(a, tokens).0 && (earlier is None || bridge_score(
            a,
            b,
            tokens,
        ) > bridge_score(a, ranked[earlier->0].hit, tokens)) {
            Some(n - 1)
        } else {
            earlier
        }
    }
}

/// Candidates with the one that goes best with the first put behind it.
pub open spec fn bridged(ranked: Seq<CandidateView>, tokens: Seq<Seq<char>>) -> Seq<CandidateView> {
    match best_bridge(ranked, tokens, ranked.len()) {
        Some(at) => ranked.remove(at).insert(1, ranked[at]),
        None => ranked,
    }
}

/// What is said of the two.
pub open spec fn bridge_note(ranked: Seq<CandidateView>, tokens: Seq<Seq<char>>) -> Option<
    Seq<char>,
> {
    match best_bridge(ranked, tokens, ranked.len()) {
        Some(at) => Some(
            "bridge pair (inferred"@ + (if related(ranked[0].hit, ranked[at].hit) {
                ", shared consumer"@
            } else {
                Seq::empty()
            }) + "): "@ + ranked[0].hit.name + " ↔ "@ + ranked[at].hit.name + " covers "@
                + decimal(joint_coverage(ranked[0].hit, ranked[at].hit, tokens)) + "/"@ + decimal(
                tokens.len(),
            ) + " concepts"@,
        ),
        None => None,
    }
}

fn find_bridge(ranked: &Vec<Candidate>, tokens: &Vec<String>) -> (r: Option<(usize, usize, bool)>)
    ensures
        ({
            let list = candidate_views(ranked@);
            let best = best_bridge(list, strings(tokens@), list.len());
            match r {
                Some((at, count, relation)) => 0 < at < ranked.len() && best == Some(at as int)
                    && count == joint_coverage(list[0].hit, list[at as int].hit, strings(tokens@))
                    && relation == related(list[0].hit, list[at as int].hit),
                None => best is None,
            }
        }),
{
    let ghost list = candidate_views(ranked@);
    let ghost wanted = strings(tokens@);
    assert(list.len() == ranked.len());
    if ranked.len() == 0 {
        return None;
    }
    assert(list[0] == ranked@[0]@);
    let own_coverage = hit_query_coverage(&ranked[0].hit, tokens).0;
    let mut best: Option<(usize, usize, bool)> = None;
    for i in 1..ranked.len()
        invariant
            1 <= ranked.len(),
            list == candidate_views(ranked@),
            list.len() == ranked.len(),
            wanted == strings(tokens@),
            list[0] == ranked@[0]@,
            own_coverage == coverage(list[0].hit, wanted).0,
            match best {
                Some((at, count, relation)) => 0 < at < i && best_bridge(list, wanted, i as nat)
                    == Some(at as int) && count == joint_coverage(
                    list[0].hit,
                    list[at as int].hit,
                    wanted,
                ) && relation == related(list[0].hit, list[at as int].hit),
                None => best_bridge(list, wanted, i as nat) is None,
            },
    {
        assert(list[i as int] == ranked@[i as int]@);
        let count = count_joint(&ranked[0].hit, &ranked[i].hit, tokens);
        let relation = is_related(&ranked[0].hit, &ranked[i].hit);
        if count as u64 > own_coverage {
            let score: u128 = count as u128 * 10 + if relation {
                5u128
            } else {
                0u128
            };
            let better = match best {
                Some((_, other, linked)) => score > other as u128 * 10 + if linked {
                    5u128
                } else {
                    0u128
                },
                None => true,
            };
            if better {
                best = Some((i, count, relation));
            }
        }
    }
    best
}

/// Puts the candidate that goes best with the first one behind it, see [`bridged`], and
/// says so, see [`bridge_note`].
pub fn promote_bridge_candidate(ranked: &mut Vec<Candidate>, tokens: &Vec<String>) -> (r: Option<
    String,
>)
    ensures
        candidate_views(final(ranked)@) == bridged(candidate_views(old(ranked)@), strings(tokens@)),
        opt_string(r) == bridge_note(candidate_views(old(ranked)@), strings(tokens@)),
{
    let ghost list = candidate_views(ranked@);
    let Some((at, count, relation)) = find_bridge(ranked, tokens) else {
        return None;
    };
    assert(list[0] == ranked@[0]@);
    assert(list[at as int] == ranked@[at as int]@);
    assert(strings(tokens@).len() == tokens.len());
    let mut out = cat2(
        "bridge pair (inferred",
        if relation { ", shared consumer" } else { "" },
    );
    proof {
        reveal_strlit("");
        assert(""@ =~= Seq::<char>::empty());
    }
    push_str(&mut out, "): ");
    push_str(&mut out, ranked[0].hit.name.as_str());
    push_str(&mut out, " ↔ ");
    push_str(&mut out, ranked[at].hit.name.as_str());
    push_str(&mut out, " covers ");
    push_str(&mut out, show_size(count).as_str());
    push_str(&mut out, "/");
    push_str(&mut out, show_size(tokens.len()).as_str());
    push_str(&mut out, " concepts");
    let bridge = ranked.remove(at);
    assert(candidate_views(ranked@) =~= list.remove(at as int));
    let ghost before = ranked@;
    ranked.insert(1, bridge);
    assert(candidate_views(ranked@) =~= list.remove(at as int).insert(1, list[at as int]));
    Some(out)
}

/// Bridging keeps every candidate, and leaves the first where it is.
pub proof fn bridging_keeps_candidates(ranked: Seq<CandidateView>, tokens: Seq<Seq<char>>)
    ensures
        bridged(ranked, tokens).to_multiset() == ranked.to_multiset(),
        ranked.len() > 0 ==> bridged(ranked, tokens)[0] == ranked[0],
{
    bridge_is_within(ranked, tokens, ranked.len());
    if let Some(at) = best_bridge(ranked, tokens, ranked.len()) {
        broadcast use vstd::seq_lib::group_to_multiset_ensures;

        let rest = ranked.remove(at);
        vstd::seq_lib::to_multiset_remove(ranked, at);
        vstd::seq_lib::to_multiset_insert(rest, 1, ranked[at]);
        assert(bridged(ranked, tokens).to_multiset() =~= ranked.to_multiset());
    }
}

proof fn bridge_is_within(ranked: Seq<CandidateView>, tokens: Seq<Seq<char>>, n: nat)
    requires
        n <= ranked.len(),
    ensures
        best_bridge(ranked, tokens, n) is Some ==> 0 < best_bridge(ranked, tokens, n)->0 < n,
    decreases n,
{
    if n > 1 {
        bridge_is_within(ranked, tokens, (n - 1) as nat);
    }
}

/// Whether a hit answers every word of a query, and the query has one.
pub open spec fn answers_all(hit: HitView, part: Seq<char>) -> bool {
    let tokens = query_words(part);
    tokens.len() > 0 && forall|i: int|
        0 <= i < tokens.len() ==> hit_match(hit, #[trigger] tokens[i])
}

fn is_answering(hit: &SearchHit, part: &str) -> (r: bool)
    ensures
        r == answers_all(hit@, part@),
{
    let tokens = query_tokens(part);
    let ghost views = query_words(part@);
    assert(views.len() == tokens.len());
    if tokens.len() == 0 {
        return false;
    }
    for i in 0..tokens.len()
        invariant
            views == strings(tokens@),
            views == query_words(part@),
            views.len() == tokens.len(),
            forall|k: int| 0 <= k < i ==> hit_match(hit@, #[trigger] views[k]),
    {
        assert(views[i as int] == tokens@[i as int]@);
        if !hit_matches_token(hit, tokens[i].as_str()) {
            return false;
        }
    }
    true
}

/// Whether one hit answers every word of one of several alternatives.
pub open spec fn alternative_answered(query: Seq<char>, hits: Seq<HitView>) -> bool {
    alternatives(query).len() > 1 && exists|i: int, j: int|
        0 <= i < alternatives(query).len() && 0 <= j < hits.len() && #[trigger] answers_all(
            hits[j],
            alternatives(query)[i],
        )
}

/// Decides [`alternative_answered`].
pub fn pipe_alternative_covered(query: &str, hits: &Vec<SearchHit>) -> (r: bool)
    ensures
        r == alternative_answered(query@, hit_views(hits@)),
{
    let parts = split_alternatives(query);
    let ghost views = alternatives(query@);
    let ghost all = hit_views(hits@);
    assert(views.len() == parts.len());
    assert(all.len() == hits.len());
    if parts.len() <= 1 {
        return false;
    }
    for i in 0..parts.len()
        invariant
            views == strs(parts@),
            views == alternatives(query@),
            views.len() == parts.len(),
            views.len() > 1,
            all == hit_views(hits@),
            all.len() == hits.len(),
            forall|k: int, j: int|
                0 <= k < i && 0 <= j < all.len() ==> !(#[trigger] answers_all(all[j], views[k])),
    {
        assert(views[i as int] == parts@[i as int]@);
        for j in 0..hits.len()
            invariant
                i < parts.len(),
                views == strs(parts@),
                views == alternatives(query@),
                views.len() == parts.len(),
                views.len() > 1,
                views[i as int] == parts@[i as int]@,
                all == hit_views(hits@),
                all.len() == hits.len(),
                forall|k: int|
                    0 <= k < j ==> !(#[trigger] answers_all(all[k], views[i as int])),
        {
            assert(all[j as int] == hits@[j as int]@);
            if is_answering(&hits[j], parts[i]) {
                return true;
            }
        }
    }
    false
}

/// The commands with which Lean is asked about a name.
pub open spec fn sans_command(text: Seq<char>) -> Seq<char> {
    match after_prefix(text, "#check "@) {
        Some(rest) => bare(rest),
        None => match after_prefix(text, "#print "@) {
            Some(rest) => bare(rest),
            None => match after_prefix(text, "#synth "@) {
                Some(rest) => bare(rest),
                None => text,
            },
        },
    }
}

fn without_command<'a>(text: &'a str) -> (r: &'a str)
    ensures
        r@ == sans_command(text@),
{
    if let Some(rest) = strip_prefix(text, "#check ") {
        return trim(rest);
    }
    if let Some(rest) = strip_prefix(text, "#print ") {
        return trim(rest);
    }
    if let Some(rest) = strip_prefix(text, "#synth ") {
        return trim(rest);
    }
    text
}

/// A text with the parts that another cuts it into joined by a third.
pub open spec fn substituted(text: Seq<char>, from: Seq<char>, to: Seq<char>) -> Seq<char> {
    crate::text::make::joined(crate::text::pieces::fields(text, from), to)
}

/// A query in which escaped apostrophes are plain ones.
pub open spec fn unescaped(query: Seq<char>) -> Seq<char> {
    substituted(substituted(query, "\\x27"@, "'"@), "\\'"@, "'"@)
}

fn unescape(query: &str) -> (r: String)
    ensures
        r@ == unescaped(query@),
{
    proof {
        reveal_strlit("\\x27");
        reveal_strlit("\\'");
    }
    let once = crate::text::make::join_strs(&split_text(query, "\\x27"), "'");
    crate::text::make::join_strs(&split_text(once.as_str(), "\\'"), "'")
}

/// The search that a request in the words of Lean stands for: the name alone of a term
/// with its arguments made explicit.
pub open spec fn inspected(query: Seq<char>) -> Seq<char> {
    let text = sans_command(bare(unescaped(query)));
    let list = words(text);
    if !begins(text, "@"@) || list.len() == 0 {
        text
    } else {
        after_mark(list[0]) + (if list.len() > 1 && list.last() == "MORE"@ {
            " MORE"@
        } else {
            Seq::empty()
        })
    }
}

/// A word without the mark that makes arguments explicit.
pub open spec fn after_mark(word: Seq<char>) -> Seq<char> {
    match after_prefix(word, "@"@) {
        Some(rest) => rest,
        None => word,
    }
}

/// Computes [`inspected`].
pub fn normalize_lean_inspection_query(query: &str) -> (r: String)
    ensures
        r@ == inspected(query@),
{
    let plain = unescape(query);
    let text = without_command(trim(plain.as_str()));
    let list = split_words(text);
    let ghost views = words(text@);
    assert(views.len() == list.len());
    if !starts_with(text, "@") || list.len() == 0 {
        return own(text);
    }
    assert(views[0] == list@[0]@);
    assert(views.last() == list@[list.len() - 1]@);
    let head = match strip_prefix(list[0], "@") {
        Some(rest) => rest,
        None => list[0],
    };
    if list.len() > 1 && same(list[list.len() - 1], "MORE") {
        cat2(head, " MORE")
    } else {
        let out = own(head);
        assert(out@ + Seq::<char>::empty() =~= out@);
        out
    }
}

} // verus!

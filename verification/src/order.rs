//! Stable ranking by lexicographic keys.
use crate::text::make::strings_push;
use vstd::prelude::*;

verus! {

broadcast use strings_push;

/// The lexicographic order of sequences of integers, a prefix before its extensions.
pub open spec fn lex_less(a: Seq<u64>, b: Seq<u64>) -> bool
    decreases a.len(),
{
    if b.len() == 0 {
        false
    } else if a.len() == 0 {
        true
    } else if a[0] == b[0] {
        lex_less(a.skip(1), b.skip(1))
    } else {
        a[0] < b[0]
    }
}

/// Two keys are ordered as they are where they first differ.
pub proof fn lex_less_at(a: Seq<u64>, b: Seq<u64>, i: int)
    requires
        0 <= i <= a.len(),
        i <= b.len(),
        forall|j: int| 0 <= j < i ==> a[j] == b[j],
        i == a.len() || i == b.len() || a[i] != b[i],
    ensures
        lex_less(a, b) == (i < b.len() && (i == a.len() || a[i] < b[i])),
    decreases i,
{
    if i > 0 {
        assert forall|j: int| 0 <= j < i - 1 implies a.skip(1)[j] == b.skip(1)[j] by {
            assert(a[j + 1] == b[j + 1]);
        }
        lex_less_at(a.skip(1), b.skip(1), i - 1);
    }
}

/// Decides [`lex_less`].
pub fn precedes(a: &Vec<u64>, b: &Vec<u64>) -> (r: bool)
    ensures
        r == lex_less(a@, b@),
{
    let mut i: usize = 0;
    while i < a.len() && i < b.len() && a[i] == b[i]
        invariant
            i <= a.len(),
            i <= b.len(),
            forall|j: int| 0 <= j < i ==> a@[j] == b@[j],
        decreases a.len() - i,
    {
        i += 1;
    }
    proof {
        lex_less_at(a@, b@, i as int);
    }
    i < b.len() && (i == a.len() || a[i] < b[i])
}

/// No key precedes itself.
pub proof fn lex_irreflexive(a: Seq<u64>)
    ensures
        !lex_less(a, a),
    decreases a.len(),
{
    if a.len() > 0 {
        lex_irreflexive(a.skip(1));
    }
}

/// Of two different keys one precedes the other.
pub proof fn lex_total(a: Seq<u64>, b: Seq<u64>)
    ensures
        lex_less(a, b) || lex_less(b, a) || a == b,
    decreases a.len(),
{
    if a.len() > 0 && b.len() > 0 && a[0] == b[0] {
        lex_total(a.skip(1), b.skip(1));
        if a.skip(1) == b.skip(1) {
            assert(a =~= seq![a[0]] + a.skip(1));
            assert(b =~= seq![b[0]] + b.skip(1));
        }
    } else if a.len() == 0 && b.len() == 0 {
        assert(a =~= b);
    }
}

/// Preceding is transitive.
pub proof fn lex_transitive(a: Seq<u64>, b: Seq<u64>, c: Seq<u64>)
    requires
        lex_less(a, b),
        lex_less(b, c),
    ensures
        lex_less(a, c),
    decreases a.len(),
{
    if a.len() > 0 && a[0] == b[0] && b[0] == c[0] {
        lex_transitive(a.skip(1), b.skip(1), c.skip(1));
    }
}

/// The contents of a list of keys.
pub open spec fn key_list(keys: Seq<Vec<u64>>) -> Seq<Seq<u64>> {
    keys.map_values(|k: Vec<u64>| k@)
}

/// `order` with `x` placed behind everything whose key does not follow the key of `x`.
pub open spec fn placed(order: Seq<int>, keys: Seq<Seq<u64>>, x: int) -> Seq<int>
    decreases order.len(),
{
    if order.len() > 0 && lex_less(keys[x], keys[order.last()]) {
        placed(order.drop_last(), keys, x).push(order.last())
    } else {
        order.push(x)
    }
}

/// The first `n` positions of `keys` in the order of their keys, those with equal
/// keys in their own order.
pub open spec fn ranking_of(keys: Seq<Seq<u64>>, n: nat) -> Seq<int>
    decreases n,
{
    if n == 0 {
        Seq::empty()
    } else {
        placed(ranking_of(keys, (n - 1) as nat), keys, n - 1)
    }
}

/// All positions of `keys` in the order of their keys.
pub open spec fn ranking(keys: Seq<Seq<u64>>) -> Seq<int> {
    ranking_of(keys, keys.len())
}

/// Positions as mathematical integers.
pub open spec fn positions(list: Seq<usize>) -> Seq<int> {
    list.map_values(|i: usize| i as int)
}

proof fn placed_is_insert(order: Seq<int>, keys: Seq<Seq<u64>>, x: int, p: int)
    requires
        0 <= p <= order.len(),
        forall|j: int| p <= j < order.len() ==> lex_less(keys[x], keys[#[trigger] order[j]]),
        p == 0 || !lex_less(keys[x], keys[order[p - 1]]),
    ensures
        placed(order, keys, x) == order.insert(p, x),
    decreases order.len() - p,
{
    if p < order.len() {
        placed_is_insert(order.drop_last(), keys, x, p);
        assert(order.drop_last().insert(p, x).push(order.last()) =~= order.insert(p, x));
    } else {
        assert(order.push(x) =~= order.insert(p, x));
    }
}

/// Computes [`ranking`].
pub fn rank(keys: &Vec<Vec<u64>>) -> (r: Vec<usize>)
    ensures
        positions(r@) == ranking(key_list(keys@)),
        r.len() == keys.len(),
        forall|i: int| 0 <= i < r.len() ==> (#[trigger] r@[i]) < keys.len(),
{
    let ghost all = key_list(keys@);
    let mut out: Vec<usize> = Vec::new();
    for x in 0..keys.len()
        invariant
            all == key_list(keys@),
            out.len() == x,
            positions(out@) == ranking_of(all, x as nat),
            forall|i: int| 0 <= i < out.len() ==> (#[trigger] out@[i]) < x,
    {
        let mut p: usize = out.len();
        while p > 0 && precedes(&keys[x], &keys[out[p - 1]])
            invariant
                x < keys.len(),
                all == key_list(keys@),
                p <= out.len(),
                forall|i: int| 0 <= i < out.len() ==> (#[trigger] out@[i]) < x,
                forall|j: int|
                    p <= j < out.len() ==> lex_less(
                        all[x as int],
                        all[#[trigger] positions(out@)[j]],
                    ),
            decreases p,
        {
            p -= 1;
            assert(positions(out@)[p as int] == out@[p as int]);
        }
        let ghost before = out@;
        proof {
            if p > 0 {
                assert(positions(out@)[p - 1] == out@[p - 1]);
            }
            placed_is_insert(positions(out@), all, x as int, p as int);
        }
        out.insert(p, x);
        assert(positions(out@) =~= positions(before).insert(p as int, x as int));
    }
    assert(positions(out@).len() == out.len());
    out
}

/// A ranking lists every position once.
pub proof fn ranking_is_permutation(keys: Seq<Seq<u64>>)
    ensures
        ranking(keys).len() == keys.len(),
        ranking(keys).no_duplicates(),
        forall|y: int| #[trigger] ranking(keys).contains(y) <==> 0 <= y < keys.len(),
        forall|i: int| 0 <= i < keys.len() ==> (0 <= #[trigger] ranking(keys)[i] < keys.len()),
{
    ranking_of_is_permutation(keys, keys.len());
}

proof fn placed_members(order: Seq<int>, keys: Seq<Seq<u64>>, x: int)
    requires
        order.no_duplicates(),
        !order.contains(x),
    ensures
        placed(order, keys, x).len() == order.len() + 1,
        placed(order, keys, x).no_duplicates(),
        forall|y: int| #[trigger]
            placed(order, keys, x).contains(y) <==> y == x || order.contains(y),
    decreases order.len(),
{
    let result = placed(order, keys, x);
    if order.len() > 0 && lex_less(keys[x], keys[order.last()]) {
        let shorter = order.drop_last();
        assert(!shorter.contains(order.last())) by {
            if shorter.contains(order.last()) {
                let k = choose|k: int| 0 <= k < shorter.len() && shorter[k] == order.last();
                assert(order[k] == order[order.len() - 1]);
            }
        }
        assert(!shorter.contains(x)) by {
            if shorter.contains(x) {
                let k = choose|k: int| 0 <= k < shorter.len() && shorter[k] == x;
                assert(order[k] == x);
            }
        }
        placed_members(shorter, keys, x);
        let inner = placed(shorter, keys, x);
        assert(order.contains(order.last()));
        assert(!inner.contains(order.last()));
        assert forall|y: int| #[trigger] result.contains(y) <==> y == x || order.contains(y) by {
            if result.contains(y) {
                let k = choose|k: int| 0 <= k < result.len() && result[k] == y;
                if k < inner.len() {
                    assert(inner[k] == y);
                    assert(inner.contains(y));
                    if shorter.contains(y) {
                        let m = choose|m: int| 0 <= m < shorter.len() && shorter[m] == y;
                        assert(order[m] == y);
                    }
                }
            }
            if y == x || order.contains(y) {
                if y != order.last() || y == x {
                    if order.contains(y) {
                        let m = choose|m: int| 0 <= m < order.len() && order[m] == y;
                        if m < shorter.len() {
                            assert(shorter[m] == y);
                        }
                    }
                    assert(inner.contains(y));
                    let k = choose|k: int| 0 <= k < inner.len() && inner[k] == y;
                    assert(result[k] == y);
                } else {
                    assert(result[result.len() - 1] == y);
                }
            }
        }
        assert forall|i: int, j: int|
            0 <= i < result.len() && 0 <= j < result.len() && i != j implies result[i]
            != result[j] by {
            if i < inner.len() && j < inner.len() {
                assert(inner[i] != inner[j]);
            } else if i < inner.len() {
                assert(inner.contains(inner[i]));
            } else {
                assert(inner.contains(inner[j]));
            }
        }
    } else {
        assert forall|y: int| #[trigger] result.contains(y) <==> y == x || order.contains(y) by {
            if result.contains(y) {
                let k = choose|k: int| 0 <= k < result.len() && result[k] == y;
                if k < order.len() {
                    assert(order[k] == y);
                }
            }
            if order.contains(y) {
                let k = choose|k: int| 0 <= k < order.len() && order[k] == y;
                assert(result[k] == y);
            }
            if y == x {
                assert(result[order.len() as int] == x);
            }
        }
        assert forall|i: int, j: int|
            0 <= i < result.len() && 0 <= j < result.len() && i != j implies result[i]
            != result[j] by {
            if i < order.len() && j < order.len() {
                assert(order[i] != order[j]);
            } else if i < order.len() {
                assert(order.contains(order[i]));
            } else {
                assert(order.contains(order[j]));
            }
        }
    }
}

proof fn ranking_of_is_permutation(keys: Seq<Seq<u64>>, n: nat)
    ensures
        ranking_of(keys, n).len() == n,
        ranking_of(keys, n).no_duplicates(),
        forall|y: int| #[trigger] ranking_of(keys, n).contains(y) <==> 0 <= y < n,
        forall|i: int| 0 <= i < n ==> (0 <= #[trigger] ranking_of(keys, n)[i] < n),
    decreases n,
{
    if n > 0 {
        let m = (n - 1) as nat;
        ranking_of_is_permutation(keys, m);
        placed_members(ranking_of(keys, m), keys, m as int);
        assert forall|i: int| 0 <= i < n implies (0 <= #[trigger] ranking_of(keys, n)[i] < n) by {
            assert(ranking_of(keys, n).contains(ranking_of(keys, n)[i]));
        }
    }
}

/// The first of two ranked positions has the smaller key, or the same key and the
/// smaller position.
pub open spec fn ranked_before(keys: Seq<Seq<u64>>, a: int, b: int) -> bool {
    lex_less(keys[a], keys[b]) || (keys[a] == keys[b] && a < b)
}

/// A ranking is sorted, and stable on equal keys.
pub proof fn ranking_is_sorted(keys: Seq<Seq<u64>>, i: int, j: int)
    requires
        0 <= i < j < keys.len(),
    ensures
        ranked_before(keys, ranking(keys)[i], ranking(keys)[j]),
{
    ranking_of_is_sorted(keys, keys.len(), i, j);
}

proof fn placed_sorted(order: Seq<int>, keys: Seq<Seq<u64>>, x: int, i: int, j: int)
    requires
        0 <= i < j < order.len() + 1,
        forall|k: int| 0 <= k < order.len() ==> (#[trigger] order[k]) < x,
        forall|k: int, l: int|
            0 <= k < l < order.len() ==> ranked_before(
                keys,
                #[trigger] order[k],
                #[trigger] order[l],
            ),
    ensures
        placed(order, keys, x).len() == order.len() + 1,
        ranked_before(keys, placed(order, keys, x)[i], placed(order, keys, x)[j]),
    decreases order.len(),
{
    let result = placed(order, keys, x);
    if order.len() > 0 && lex_less(keys[x], keys[order.last()]) {
        let shorter = order.drop_last();
        let inner = placed(shorter, keys, x);
        placed_length(shorter, keys, x);
        if j < shorter.len() + 1 {
            placed_sorted(shorter, keys, x, i, j);
        } else {
            placed_from(shorter, keys, x, i);
            if inner[i] != x {
                let k = choose|k: int| 0 <= k < shorter.len() && shorter[k] == inner[i];
                assert(order[k] == inner[i]);
                assert(ranked_before(keys, order[k], order[order.len() - 1]));
            }
        }
    } else {
        placed_length(order, keys, x);
        if j < order.len() {
            assert(ranked_before(keys, order[i], order[j]));
        } else {
            lex_total(keys[order.last()], keys[x]);
            if i < order.len() - 1 {
                assert(ranked_before(keys, order[i], order[order.len() - 1]));
                if lex_less(keys[order[i]], keys[order.last()]) && lex_less(
                    keys[order.last()],
                    keys[x],
                ) {
                    lex_transitive(keys[order[i]], keys[order.last()], keys[x]);
                }
            }
        }
    }
}

proof fn placed_length(order: Seq<int>, keys: Seq<Seq<u64>>, x: int)
    ensures
        placed(order, keys, x).len() == order.len() + 1,
    decreases order.len(),
{
    if order.len() > 0 && lex_less(keys[x], keys[order.last()]) {
        placed_length(order.drop_last(), keys, x);
    }
}

proof fn placed_from(order: Seq<int>, keys: Seq<Seq<u64>>, x: int, i: int)
    requires
        0 <= i < order.len() + 1,
    ensures
        placed(order, keys, x)[i] == x || exists|k: int|
            0 <= k < order.len() && order[k] == placed(order, keys, x)[i],
    decreases order.len(),
{
    placed_length(order, keys, x);
    if order.len() > 0 && lex_less(keys[x], keys[order.last()]) {
        let shorter = order.drop_last();
        placed_length(shorter, keys, x);
        if i < shorter.len() + 1 {
            placed_from(shorter, keys, x, i);
            if placed(shorter, keys, x)[i] != x {
                let k = choose|k: int|
                    0 <= k < shorter.len() && shorter[k] == placed(shorter, keys, x)[i];
                assert(order[k] == placed(order, keys, x)[i]);
            }
        } else {
            assert(order[order.len() - 1] == placed(order, keys, x)[i]);
        }
    } else if i < order.len() {
        assert(order[i] == placed(order, keys, x)[i]);
    }
}

proof fn ranking_of_is_sorted(keys: Seq<Seq<u64>>, n: nat, i: int, j: int)
    requires
        0 <= i < j < n,
    ensures
        ranked_before(keys, ranking_of(keys, n)[i], ranking_of(keys, n)[j]),
    decreases n,
{
    let m = (n - 1) as nat;
    let order = ranking_of(keys, m);
    ranking_of_is_permutation(keys, m);
    assert forall|k: int, l: int| 0 <= k < l < order.len() implies ranked_before(
        keys,
        #[trigger] order[k],
        #[trigger] order[l],
    ) by {
        ranking_of_is_sorted(keys, m, k, l);
    }
    placed_sorted(order, keys, m as int, i, j);
}

} // verus!

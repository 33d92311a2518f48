//! Texts that are put together out of parts, and lists that are picked out of others.
use crate::text::scan::{
    begins, cut, ends, find_from_is_first, find_text, found_between, found_in_part, has_text,
    occurs_at, rcut, rfind_from_is_last, rfind_text,
};
use crate::text::number::{decimal, decimal_digits};
use crate::text::class::digit;
use crate::text::layout::listed;
use vstd::prelude::*;

verus! {

/// Parts of a text, one after another.
pub open spec fn chain(parts: Seq<Seq<char>>) -> Seq<char>
    decreases parts.len(),
{
    if parts.len() == 0 {
        Seq::empty()
    } else {
        chain(parts.drop_last()) + parts.last()
    }
}

/// A part more is added at the end.
pub proof fn chain_push(parts: Seq<Seq<char>>, part: Seq<char>)
    ensures
        chain(parts.push(part)) == chain(parts) + part,
{
    assert(parts.push(part).drop_last() =~= parts);
}

/// A label and a value are added together as well as one after the other.
pub proof fn chain_pair(parts: Seq<Seq<char>>, label: Seq<char>, value: Seq<char>)
    ensures
        chain(parts.push(label + value)) == chain(parts) + label + value,
{
    chain_push(parts, label + value);
    assert(chain(parts) + (label + value) =~= chain(parts) + label + value);
}

/// Every part is found in the whole, with what the next part begins with.
pub proof fn chain_tells(parts: Seq<Seq<char>>, i: int, mark: Seq<char>)
    requires
        0 <= i < parts.len(),
        i + 1 < parts.len() ==> begins(parts[i + 1], mark),
        i + 1 == parts.len() ==> mark.len() == 0,
    ensures
        has_text(chain(parts), parts[i] + mark),
    decreases parts.len(),
{
    let shorter = parts.drop_last();
    let last = parts.last();
    if i == parts.len() - 1 {
        assert(parts[i] + mark =~= last);
        found_between(chain(shorter), last, Seq::empty());
        assert(chain(shorter) + last + Seq::<char>::empty() =~= chain(parts));
    } else if i == parts.len() - 2 {
        let rest = last.skip(mark.len() as int);
        let front = chain(shorter.drop_last());
        assert(last =~= mark + rest) by {
            assert(last.take(mark.len() as int) == mark);
            assert(last =~= last.take(mark.len() as int) + rest);
        }
        assert(shorter.last() == parts[i]);
        assert(chain(shorter) == front + parts[i]);
        assert(chain(parts) =~= front + (parts[i] + mark) + rest);
        found_between(front, parts[i] + mark, rest);
    } else {
        chain_tells(shorter, i, mark);
        found_in_part(Seq::empty(), chain(shorter), last, parts[i] + mark);
        assert(Seq::<char>::empty() + chain(shorter) + last =~= chain(parts));
    }
}

/// A text begins with its label.
pub proof fn label_begins(label: Seq<char>, value: Seq<char>)
    ensures
        begins(label + value, label),
{
    assert((label + value).take(label.len() as int) =~= label);
}

/// A text ends with its last part.
pub proof fn part_ends(front: Seq<char>, part: Seq<char>)
    ensures
        ends(front + part, part),
{
    assert((front + part).skip(front.len() as int) =~= part);
}

/// Some item of a list meets a condition.
pub open spec fn some_item<A>(list: Seq<A>, p: spec_fn(A) -> bool) -> bool {
    exists|i: int| 0 <= i < list.len() && p(#[trigger] list[i])
}

/// Some item meets a condition just where one before the last does, or the last.
pub proof fn some_item_step<A>(list: Seq<A>, p: spec_fn(A) -> bool)
    requires
        list.len() > 0,
    ensures
        some_item(list, p) <==> some_item(list.drop_last(), p) || p(list.last()),
{
    let shorter = list.drop_last();
    if some_item(list, p) {
        let i = choose|i: int| 0 <= i < list.len() && p(#[trigger] list[i]);
        if i < shorter.len() {
            assert(p(shorter[i]));
        }
    }
    if some_item(shorter, p) {
        let i = choose|i: int| 0 <= i < shorter.len() && p(#[trigger] shorter[i]);
        assert(p(list[i]));
    }
    if p(list.last()) {
        assert(p(list[list.len() - 1]));
    }
}

/// A longer list holds what it held and what was added.
pub proof fn pushed_holds<A>(list: Seq<A>, item: A, x: A)
    ensures
        list.push(item).contains(x) <==> list.contains(x) || x == item,
{
    let all = list.push(item);
    if all.contains(x) {
        let i = all.index_of(x);
        if i < list.len() {
            assert(list[i] == x);
        }
    }
    if list.contains(x) {
        assert(all[list.index_of(x)] == x);
    }
    assert(all[list.len() as int] == item);
}

/// Two lists one after the other hold what either holds.
pub proof fn appended_holds<A>(a: Seq<A>, b: Seq<A>, x: A)
    ensures
        (a + b).contains(x) <==> a.contains(x) || b.contains(x),
{
    let all = a + b;
    if all.contains(x) {
        let i = all.index_of(x);
        if i < a.len() {
            assert(a[i] == x);
        } else {
            assert(b[i - a.len()] == x);
        }
    }
    if a.contains(x) {
        assert(all[a.index_of(x)] == x);
    }
    if b.contains(x) {
        assert(all[a.len() + b.index_of(x)] == x);
    }
}

/// A text is cut at its first mark.
pub proof fn cut_at_mark(front: Seq<char>, mark: Seq<char>, tail: Seq<char>)
    requires
        mark.len() == 1,
        !front.contains(mark[0]),
    ensures
        cut(front + mark + tail, mark) == Some((front, tail)),
{
    let text = front + mark + tail;
    let n = front.len() as int;
    mark_occurs(front, mark, tail);
    find_from_is_first(text, mark, 0);
    let i = find_text(text, mark)->0;
    assert(i == n) by {
        if i < n {
            assert(text.subrange(i, i + 1)[0] == text[i]);
            assert(front[i] == text[i]);
            assert(front.contains(mark[0]));
        }
    }
}

/// A text is cut from behind at its last mark.
pub proof fn rcut_at_mark(front: Seq<char>, mark: Seq<char>, tail: Seq<char>)
    requires
        mark.len() == 1,
        !tail.contains(mark[0]),
    ensures
        rcut(front + mark + tail, mark) == Some((front, tail)),
{
    let text = front + mark + tail;
    let n = front.len() as int;
    mark_occurs(front, mark, tail);
    rfind_from_is_last(text, mark, text.len() - mark.len());
    let i = rfind_text(text, mark)->0;
    assert(i == n) by {
        if i > n {
            assert(text.subrange(i, i + 1)[0] == text[i]);
            assert(tail[i - n - 1] == text[i]);
            assert(tail.contains(mark[0]));
        }
    }
}

proof fn mark_occurs(front: Seq<char>, mark: Seq<char>, tail: Seq<char>)
    ensures
        occurs_at(front + mark + tail, mark, front.len() as int),
        (front + mark + tail).take(front.len() as int) == front,
        (front + mark + tail).skip((front.len() + mark.len()) as int) == tail,
{
    let text = front + mark + tail;
    let n = front.len() as int;
    assert(text.subrange(n, n + mark.len()) =~= mark);
    assert(text.take(n) =~= front);
    assert(text.skip(n + mark.len()) =~= tail);
}

/// A text without a mark is not cut.
pub proof fn no_mark_no_cut(text: Seq<char>, mark: Seq<char>)
    requires
        mark.len() == 1,
        !text.contains(mark[0]),
    ensures
        cut(text, mark) is None,
        rcut(text, mark) is None,
{
    find_from_is_first(text, mark, 0);
    rfind_from_is_last(text, mark, text.len() - 1);
    if let Some(i) = find_text(text, mark) {
        assert(text.subrange(i, i + 1)[0] == mark[0]);
        assert(text[i] == mark[0]);
    }
    if let Some(i) = rfind_text(text, mark) {
        assert(text.subrange(i, i + 1)[0] == mark[0]);
        assert(text[i] == mark[0]);
    }
}

/// A number that is written out holds no character but digits.
pub proof fn numbers_hold_digits(n: nat, c: char)
    requires
        !('0' <= c <= '9'),
    ensures
        !decimal(n).contains(c),
{
    decimal_digits(n);
    if decimal(n).contains(c) {
        let i = decimal(n).index_of(c);
        assert(digit(decimal(n)[i]));
    }
}

/// Every part is found in the whole.
pub proof fn chain_holds(parts: Seq<Seq<char>>, i: int)
    requires
        0 <= i < parts.len(),
    ensures
        has_text(chain(parts), parts[i]),
{
    let nothing = Seq::<char>::empty();
    if i + 1 < parts.len() {
        assert(parts[i + 1].take(0) =~= nothing);
    }
    chain_tells(parts, i, nothing);
    assert(parts[i] + nothing =~= parts[i]);
}

/// One part is the whole chain.
pub proof fn chain_one(part: Seq<char>)
    ensures
        chain(seq![part]) == part,
{
    assert(seq![part].drop_last() =~= Seq::empty());
    assert(chain(Seq::<Seq<char>>::empty()) =~= Seq::empty());
    assert(chain(seq![part]) =~= part);
}

/// A list on lines of its own holds every item behind its mark.
pub proof fn listed_holds(list: Seq<Seq<char>>, mark: Seq<char>, i: int)
    requires
        0 <= i < list.len(),
    ensures
        has_text(listed(list, mark), mark + list[i]),
    decreases list.len(),
{
    let before = listed(list.drop_last(), mark);
    let last = mark + list.last();
    assert(listed(list, mark) =~= before + last);
    if i == list.len() - 1 {
        found_between(before, last, Seq::empty());
        assert(before + last + Seq::<char>::empty() =~= listed(list, mark));
    } else {
        listed_holds(list.drop_last(), mark, i);
        found_in_part(Seq::empty(), before, last, mark + list[i]);
        assert(Seq::<char>::empty() + before + last =~= listed(list, mark));
    }
}

} // verus!

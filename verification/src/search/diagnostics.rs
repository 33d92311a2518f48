//! What the messages of Lean say.
use crate::search::patterns::{capture_groups, first_groups, group_views};
use crate::search::warning::{first_line, head_line};
use crate::text::class::{all_of, is_all, Class};
use crate::text::layout::{front, sublist, take_front};
use crate::text::make::{
    cat2, cat3, join_strs, joined, own, prefix_all, prefix_step, push_str, same, strings_push, strs,
    strs_push, to_chars,
};
use crate::text::number::{number, parse_u64};
use crate::text::pieces::{bare_all, line_list, lines, split_words, trim_all, words};
use crate::text::scan::{
    bare, bare_start, begins, contains, cut, ends, ends_with, has_text, opt_str, opt_string,
    split_once, starts_with, trim, trim_start, trim_start_of, trimmed_start,
};
use vstd::prelude::*;

verus! {

broadcast use {strings_push, strs_push};

/// How many insertions, deletions and substitutions turn one text into another.
pub open spec fn distance(a: Seq<char>, b: Seq<char>) -> nat
    decreases a.len() + b.len(),
{
    if a.len() == 0 {
        b.len()
    } else if b.len() == 0 {
        a.len()
    } else {
        least(
            distance(a.drop_last(), b) + 1,
            least(
                distance(a, b.drop_last()) + 1,
                distance(a.drop_last(), b.drop_last()) + if a.last() == b.last() {
                    0nat
                } else {
                    1nat
                },
            ),
        )
    }
}

/// The smaller of two numbers.
pub open spec fn least(a: nat, b: nat) -> nat {
    if a < b {
        a
    } else {
        b
    }
}

/// A distance is at most the length of the longer text.
pub proof fn distance_is_bounded(a: Seq<char>, b: Seq<char>)
    ensures
        distance(a, b) <= a.len() || distance(a, b) <= b.len(),
    decreases a.len() + b.len(),
{
    if a.len() > 0 && b.len() > 0 {
        distance_is_bounded(a.drop_last(), b.drop_last());
    }
}

/// A distance is the same in both directions.
pub proof fn distance_is_symmetric(a: Seq<char>, b: Seq<char>)
    ensures
        distance(a, b) == distance(b, a),
    decreases a.len() + b.len(),
{
    if a.len() > 0 && b.len() > 0 {
        distance_is_symmetric(a.drop_last(), b);
        distance_is_symmetric(a, b.drop_last());
        distance_is_symmetric(a.drop_last(), b.drop_last());
    }
}

/// Only equal texts have no distance.
pub proof fn distance_is_zero_iff_equal(a: Seq<char>, b: Seq<char>)
    ensures
        distance(a, b) == 0 <==> a == b,
    decreases a.len() + b.len(),
{
    if a.len() == 0 {
        if b.len() == 0 {
            assert(a =~= b);
        }
    } else if b.len() > 0 {
        distance_is_zero_iff_equal(a.drop_last(), b.drop_last());
        if distance(a, b) == 0 {
            assert(a =~= a.drop_last().push(a.last()));
            assert(b =~= b.drop_last().push(b.last()));
        }
        if a == b {
            assert(distance(a.drop_last(), b.drop_last()) == 0);
        }
    }
}

proof fn distance_covers_length(a: Seq<char>, b: Seq<char>)
    ensures
        b.len() <= a.len() + distance(a, b),
        a.len() <= b.len() + distance(a, b),
    decreases a.len() + b.len(),
{
    if a.len() > 0 && b.len() > 0 {
        distance_covers_length(a.drop_last(), b);
        distance_covers_length(a, b.drop_last());
        distance_covers_length(a.drop_last(), b.drop_last());
    }
}

/// The way by a third text is never shorter.
pub proof fn distance_obeys_the_triangle(a: Seq<char>, b: Seq<char>, c: Seq<char>)
    ensures
        distance(a, c) <= distance(a, b) + distance(b, c),
    decreases a.len() + b.len() + c.len(),
{
    if a.len() == 0 || c.len() == 0 {
        distance_covers_length(b, c);
        distance_covers_length(a, b);
    } else if b.len() == 0 {
        distance_is_bounded(a, c);
    } else {
        distance_obeys_the_triangle(a.drop_last(), b, c);
        distance_obeys_the_triangle(a, b.drop_last(), c);
        distance_obeys_the_triangle(a, b, c.drop_last());
        distance_obeys_the_triangle(a, b.drop_last(), c.drop_last());
        distance_obeys_the_triangle(a.drop_last(), b.drop_last(), c);
        distance_obeys_the_triangle(a.drop_last(), b.drop_last(), c.drop_last());
    }
}

/// One text is the other with the character at `i` deleted, inserted or substituted.
pub open spec fn edited_at(a: Seq<char>, b: Seq<char>, i: int) -> bool {
    ||| 0 <= i < a.len() && b == a.remove(i)
    ||| 0 <= i < b.len() && a == b.remove(i)
    ||| 0 <= i < a.len() && a.len() == b.len() && b == a.update(i, b[i])
}

/// One edit of a single character turns one text into another.
pub open spec fn one_edit(a: Seq<char>, b: Seq<char>) -> bool {
    exists|i: int| edited_at(a, b, i)
}

/// Texts from `a` to `b`, each one edit away from the one before.
pub open spec fn edit_path(path: Seq<Seq<char>>, a: Seq<char>, b: Seq<char>) -> bool {
    &&& path.len() > 0
    &&& path[0] == a
    &&& path.last() == b
    &&& forall|k: int| 0 <= k < path.len() - 1 ==> #[trigger] one_edit(path[k], path[k + 1])
}

proof fn removal_is_near(a: Seq<char>, i: int)
    requires
        0 <= i < a.len(),
    ensures
        distance(a, a.remove(i)) <= 1,
    decreases a.len(),
{
    let b = a.remove(i);
    if i == a.len() - 1 {
        assert(b =~= a.drop_last());
        distance_is_zero_iff_equal(a.drop_last(), b);
        if b.len() == 0 {
            assert(a.len() == 1);
        }
    } else {
        assert(b.drop_last() =~= a.drop_last().remove(i));
        assert(b.last() == a.last());
        removal_is_near(a.drop_last(), i);
    }
}

proof fn substitution_is_near(a: Seq<char>, i: int, c: char)
    requires
        0 <= i < a.len(),
    ensures
        distance(a, a.update(i, c)) <= 1,
    decreases a.len(),
{
    let b = a.update(i, c);
    if i == a.len() - 1 {
        assert(b.drop_last() =~= a.drop_last());
        distance_is_zero_iff_equal(a.drop_last(), b.drop_last());
    } else {
        assert(b.drop_last() =~= a.drop_last().update(i, c));
        substitution_is_near(a.drop_last(), i, c);
    }
}

/// No series of edits is shorter than the distance.
pub proof fn distance_is_least(path: Seq<Seq<char>>, a: Seq<char>, b: Seq<char>)
    requires
        edit_path(path, a, b),
    ensures
        distance(a, b) <= path.len() - 1,
    decreases path.len(),
{
    if path.len() == 1 {
        distance_is_zero_iff_equal(a, b);
    } else {
        let n = path.len() - 2;
        let shorter = path.drop_last();
        let m = path[n];
        assert forall|k: int| 0 <= k < shorter.len() - 1 implies #[trigger] one_edit(
            shorter[k],
            shorter[k + 1],
        ) by {
            assert(one_edit(path[k], path[k + 1]));
        }
        distance_is_least(shorter, a, m);
        assert(one_edit(path[n], path[n + 1]));
        let i = choose|i: int| edited_at(m, b, i);
        if 0 <= i < m.len() && b == m.remove(i) {
            removal_is_near(m, i);
        } else if 0 <= i < b.len() && m == b.remove(i) {
            removal_is_near(b, i);
            distance_is_symmetric(m, b);
        } else {
            substitution_is_near(m, i, b[i]);
        }
        distance_obeys_the_triangle(a, m, b);
    }
}

proof fn longer_path(path: Seq<Seq<char>>, a: Seq<char>, b: Seq<char>, c: Seq<char>, i: int)
    requires
        edit_path(path, a, b),
        edited_at(b, c, i),
    ensures
        edit_path(path.push(c), a, c),
{
    let next = path.push(c);
    assert forall|k: int| 0 <= k < next.len() - 1 implies #[trigger] one_edit(
        next[k],
        next[k + 1],
    ) by {
        if k < path.len() - 1 {
            assert(one_edit(path[k], path[k + 1]));
        } else {
            assert(edited_at(next[k], next[k + 1], i));
        }
    }
}

proof fn earlier_path(path: Seq<Seq<char>>, a: Seq<char>, b: Seq<char>, c: Seq<char>, i: int)
    requires
        edit_path(path, b, c),
        edited_at(a, b, i),
    ensures
        edit_path(seq![a] + path, a, c),
{
    let next = seq![a] + path;
    assert(next.last() == path.last());
    assert forall|k: int| 0 <= k < next.len() - 1 implies #[trigger] one_edit(
        next[k],
        next[k + 1],
    ) by {
        if k > 0 {
            assert(one_edit(path[k - 1], path[k - 1 + 1]));
        } else {
            assert(edited_at(next[k], next[k + 1], i));
        }
    }
}

proof fn path_before(path: Seq<Seq<char>>, a: Seq<char>, b: Seq<char>, c: char) -> (r: Seq<
    Seq<char>,
>)
    requires
        edit_path(path, a, b),
    ensures
        edit_path(r, a.push(c), b.push(c)),
        r.len() == path.len(),
{
    let next = path.map_values(|t: Seq<char>| t.push(c));
    assert forall|k: int| 0 <= k < next.len() - 1 implies #[trigger] one_edit(
        next[k],
        next[k + 1],
    ) by {
        assert(one_edit(path[k], path[k + 1]));
        let x = path[k];
        let y = path[k + 1];
        let i = choose|i: int| edited_at(x, y, i);
        if 0 <= i < x.len() && y == x.remove(i) {
            assert(y.push(c) =~= x.push(c).remove(i));
        } else if 0 <= i < y.len() && x == y.remove(i) {
            assert(x.push(c) =~= y.push(c).remove(i));
        } else {
            assert(y.push(c) =~= x.push(c).update(i, y.push(c)[i]));
        }
        assert(edited_at(next[k], next[k + 1], i));
    }
    next
}

/// Some series of edits is as short as the distance.
pub proof fn distance_is_reached(a: Seq<char>, b: Seq<char>) -> (path: Seq<Seq<char>>)
    ensures
        edit_path(path, a, b),
        path.len() == distance(a, b) + 1,
    decreases a.len() + b.len(),
{
    if a.len() == 0 && b.len() == 0 {
        assert(a =~= b);
        seq![a]
    } else if a.len() == 0 || (b.len() > 0 && distance(a, b) == distance(a, b.drop_last()) + 1) {
        let path = distance_is_reached(a, b.drop_last());
        let i = b.len() - 1;
        assert(b.remove(i) =~= b.drop_last());
        longer_path(path, a, b.drop_last(), b, i);
        path.push(b)
    } else if b.len() == 0 || distance(a, b) == distance(a.drop_last(), b) + 1 {
        let path = distance_is_reached(a.drop_last(), b);
        let i = a.len() - 1;
        assert(a.remove(i) =~= a.drop_last());
        earlier_path(path, a, a.drop_last(), b, i);
        seq![a] + path
    } else {
        let short = distance_is_reached(a.drop_last(), b.drop_last());
        let path = path_before(short, a.drop_last(), b.drop_last(), a.last());
        let mid = b.drop_last().push(a.last());
        assert(a.drop_last().push(a.last()) =~= a);
        if a.last() == b.last() {
            assert(mid =~= b);
            path
        } else {
            let i = b.len() - 1;
            assert(b =~= mid.update(i, b[i]));
            longer_path(path, a, mid, b, i);
            path.push(b)
        }
    }
}

/// Computes [`distance`].
pub fn edit_distance(left: &str, right: &str) -> (r: usize)
    ensures
        r == distance(left@, right@),
{
    let a = to_chars(left);
    let b = to_chars(right);
    let width = b.len();
    let mut previous: Vec<u128> = Vec::new();
    let mut start: u128 = 0;
    for j in 0..width
        invariant
            b@ == right@,
            width == b.len(),
            start == j,
            previous.len() == j,
            forall|k: int|
                0 <= k < j ==> (#[trigger] previous@[k]) == distance(
                    left@.take(0),
                    right@.take(k),
                ),
    {
        previous.push(start);
        start += 1;
    }
    previous.push(start);
    for i in 0..a.len()
        invariant
            a@ == left@,
            b@ == right@,
            width == b.len(),
            previous.len() == width + 1,
            forall|k: int|
                0 <= k <= width ==> (#[trigger] previous@[k]) == distance(
                    left@.take(i as int),
                    right@.take(k),
                ),
    {
        let mut current: Vec<u128> = Vec::new();
        current.push(i as u128 + 1);
        proof {
            prefix_step(left@, i as int);
            assert(right@.take(0).len() == 0);
        }
        for j in 0..width
            invariant
                a@ == left@,
                b@ == right@,
                width == b.len(),
                i < a.len(),
                previous.len() == width + 1,
                current.len() == j + 1,
                forall|k: int|
                    0 <= k <= width ==> (#[trigger] previous@[k]) == distance(
                        left@.take(i as int),
                        right@.take(k),
                    ),
                forall|k: int|
                    0 <= k <= j ==> (#[trigger] current@[k]) == distance(
                        left@.take(i + 1),
                        right@.take(k),
                    ),
        {
            proof {
                prefix_step(left@, i as int);
                prefix_step(right@, j as int);
                distance_is_bounded(left@.take(i as int), right@.take(j + 1));
                distance_is_bounded(left@.take(i + 1), right@.take(j as int));
                distance_is_bounded(left@.take(i as int), right@.take(j as int));
                assert(previous@[j + 1] == distance(left@.take(i as int), right@.take(j + 1)));
            }
            let deleted = previous[j + 1] + 1;
            let inserted = current[j] + 1;
            let changed = previous[j] + if a[i] == b[j] {
                0u128
            } else {
                1u128
            };
            let mut best = deleted;
            if inserted < best {
                best = inserted;
            }
            if changed < best {
                best = changed;
            }
            current.push(best);
        }
        previous = current;
    }
    proof {
        prefix_all(left@);
        prefix_all(right@);
        distance_is_bounded(left@, right@);
    }
    previous[width] as usize
}

/// A text within a number of characters: a longer one loses its middle.
pub open spec fn middle_cut(text: Seq<char>, limit: nat) -> Seq<char> {
    if text.len() <= limit || limit < 3 {
        text
    } else {
        let head = limit / 2;
        text.take(head as int) + "…"@ + text.skip(text.len() - (limit - head - 1))
    }
}

/// Computes [`middle_cut`].
pub fn truncate_middle(text: &str, limit: usize) -> (r: String)
    ensures
        r@ == middle_cut(text@, limit as nat),
{
    let length = text.unicode_len();
    if length <= limit || limit < 3 {
        return own(text);
    }
    let head = limit / 2;
    let tail = limit - head - 1;
    let first = text.substring_char(0, head);
    assert(first@ =~= text@.take(head as int));
    let last = text.substring_char(length - tail, length);
    assert(last@ =~= text@.skip(length - tail));
    cat3(first, "…", last)
}

/// The regular expression of the place of a message.
pub open spec fn position_pattern() -> Seq<char> {
    "^(?P<label>.+?):(?P<line>[0-9]+)(?::[0-9]+)?(?::|$)"@
}

/// The file and line that the groups of a match name: a label that is no Lean file gives
/// way to another file.
pub open spec fn position_in(
    groups: Option<Seq<Option<Seq<char>>>>,
    fallback: Option<Seq<char>>,
) -> (Option<Seq<char>>, u64) {
    match groups {
        Some(list) => (
            if list.len() > 1 && list[1] is Some && ends(list[1]->0, ".lean"@) {
                list[1]
            } else {
                fallback
            },
            if list.len() > 2 && list[2] is Some && number(list[2]->0, u64::MAX as nat) is Some {
                number(list[2]->0, u64::MAX as nat)->0 as u64
            } else {
                1
            },
        ),
        None => (fallback, 1),
    }
}

/// The contents of the groups of a match.
pub open spec fn opt_groups(groups: Option<Vec<Option<String>>>) -> Option<Seq<Option<Seq<char>>>> {
    match groups {
        Some(list) => Some(group_views(list@)),
        None => None,
    }
}

/// Computes [`position_in`].
pub fn position_from_groups(groups: &Option<Vec<Option<String>>>, fallback: Option<&str>) -> (r: (
    Option<String>,
    u64,
))
    ensures
        (opt_string(r.0), r.1) == position_in(opt_groups(*groups), opt_str(fallback)),
{
    let other = match fallback {
        Some(path) => Some(own(path)),
        None => None,
    };
    let Some(list) = groups else {
        return (other, 1);
    };
    let ghost views = group_views(list@);
    assert(views.len() == list.len());
    let mut path = other;
    if list.len() > 1 {
        assert(views[1] == opt_string(list@[1]));
        if let Some(label) = &list[1] {
            if ends_with(label.as_str(), ".lean") {
                path = Some(label.clone());
            }
        }
    }
    let mut line: u64 = 1;
    if list.len() > 2 {
        assert(views[2] == opt_string(list@[2]));
        if let Some(text) = &list[2] {
            if let Some(n) = parse_u64(text.as_str()) {
                line = n;
            }
        }
    }
    (path, line)
}

/// The file and line of a message.
pub open spec fn message_position(diagnostic: Seq<char>, fallback: Option<Seq<char>>) -> (
    Option<Seq<char>>,
    u64,
) {
    position_in(
        match first_line(diagnostic) {
            Some(line) => first_groups(position_pattern(), line),
            None => None,
        },
        fallback,
    )
}

/// Computes [`message_position`].
pub fn diagnostic_position(diagnostic: &str, fallback: Option<&str>) -> (r: (Option<String>, u64))
    ensures
        (opt_string(r.0), r.1) == message_position(diagnostic@, opt_str(fallback)),
{
    let groups = match head_line(diagnostic) {
        Some(line) => capture_groups("^(?P<label>.+?):(?P<line>[0-9]+)(?::[0-9]+)?(?::|$)", line),
        None => None,
    };
    position_from_groups(&groups, fallback)
}

/// The last line that states a goal, before line `n`.
pub open spec fn last_goal(list: Seq<Seq<char>>, n: nat) -> Option<int>
    decreases n,
{
    if n == 0 {
        None
    } else if begins(bare_start(list[n - 1]), "⊢"@) {
        Some(n - 1)
    } else {
        last_goal(list, (n - 1) as nat)
    }
}

/// A line of a listing: a line number before a bar.
pub open spec fn listing_line(line: Seq<char>) -> bool {
    let t = bare_start(trimmed_start(bare_start(line), Class::Is('>')));
    match cut(t, "|"@) {
        Some(sides) => all_of(bare(sides.0), Class::Digit),
        None => false,
    }
}

fn is_listing_line(line: &str) -> (r: bool)
    ensures
        r == listing_line(line@),
{
    let t = trim_start(trim_start_of(trim_start(line), Class::Is('>')));
    match split_once(t, "|") {
        Some((before, _)) => is_all(trim(before), Class::Digit),
        None => false,
    }
}

/// The first line of a listing from `i` on, or the number of lines.
pub open spec fn listing_from(list: Seq<Seq<char>>, i: int) -> int
    decreases list.len() - i,
{
    if i >= list.len() || listing_line(list[i]) {
        i
    } else {
        listing_from(list, i + 1)
    }
}

/// The goal that a message leaves open.
pub open spec fn goal_detail(diagnostic: Seq<char>) -> Option<Seq<char>> {
    let list = line_list(diagnostic);
    match last_goal(list, list.len()) {
        Some(start) => {
            let goal = joined(list.subrange(start, listing_from(list, start)), "\n"@);
            if has_text(diagnostic, "unsolved goals"@) && goal.len() > 0 {
                Some("goal\n"@ + goal)
            } else {
                None
            }
        },
        None => None,
    }
}

/// Computes [`goal_detail`].
pub fn diagnostic_goal_detail(diagnostic: &str) -> (r: Option<String>)
    ensures
        opt_string(r) == goal_detail(diagnostic@),
{
    if !contains(diagnostic, "unsolved goals") {
        return None;
    }
    let list = lines(diagnostic);
    let ghost views = strs(list@);
    assert(views.len() == list.len());
    let mut n = list.len();
    let mut start: Option<usize> = None;
    while n > 0 && start.is_none()
        invariant
            n <= list.len(),
            views == strs(list@),
            views.len() == list.len(),
            match start {
                Some(s) => s < list.len() && last_goal(views, views.len()) == Some(s as int),
                None => last_goal(views, views.len()) == last_goal(views, n as nat),
            },
        decreases n,
    {
        n -= 1;
        assert(views[n as int] == list@[n as int]@);
        if starts_with(trim_start(list[n]), "⊢") {
            start = Some(n);
        }
    }
    let first = start?;
    let mut end = first;
    while end < list.len() && !is_listing_line(list[end])
        invariant
            first <= end <= list.len(),
            views == strs(list@),
            listing_from(views, first as int) == listing_from(views, end as int),
        decreases list.len() - end,
    {
        assert(views[end as int] == list@[end as int]@);
        end += 1;
    }
    proof {
        if end < list.len() {
            assert(views[end as int] == list@[end as int]@);
        }
    }
    let goal = join_strs(&sublist(&list, first, end), "\n");
    if goal.as_str().is_empty() {
        None
    } else {
        Some(cat2("goal\n", goal.as_str()))
    }
}

/// What a message says of an instance that could not be found.
pub open spec fn synthesis_mark() -> Seq<char> {
    "failed to synthesize instance of type class"@
}

/// A line that ends what a message states.
pub open spec fn remark_line(line: Seq<char>) -> bool {
    begins(line, "Hint:"@) || begins(line, "Note:"@)
}

fn is_remark_line(line: &str) -> (r: bool)
    ensures
        r == remark_line(line@),
{
    starts_with(line, "Hint:") || starts_with(line, "Note:")
}

/// The first position from `i` on of a line that holds a text.
pub open spec fn holding_from(list: Seq<Seq<char>>, text: Seq<char>, i: int) -> int
    decreases list.len() - i,
{
    if i >= list.len() || has_text(list[i], text) {
        i
    } else {
        holding_from(list, text, i + 1)
    }
}

fn find_holding(list: &Vec<&str>, text: &str) -> (r: usize)
    ensures
        r == holding_from(strs(list@), text@, 0),
        r <= list.len(),
{
    for i in 0..list.len()
        invariant
            holding_from(strs(list@), text@, 0) == holding_from(strs(list@), text@, i as int),
    {
        assert(strs(list@)[i as int] == list@[i as int]@);
        if contains(list[i], text) {
            return i;
        }
    }
    list.len()
}

/// The first position from `i` on where a stated thing ends: a blank line or a remark.
pub open spec fn stated_end(list: Seq<Seq<char>>, i: int) -> int
    decreases list.len() - i,
{
    if i >= list.len() || bare(list[i]).len() == 0 || remark_line(bare(list[i])) {
        i
    } else {
        stated_end(list, i + 1)
    }
}

fn find_stated_end(list: &Vec<&str>, from: usize) -> (r: usize)
    requires
        from <= list.len(),
    ensures
        r == stated_end(strs(list@), from as int),
        from <= r <= list.len(),
{
    for i in from..list.len()
        invariant
            from <= i,
            stated_end(strs(list@), from as int) == stated_end(strs(list@), i as int),
    {
        assert(strs(list@)[i as int] == list@[i as int]@);
        let line = trim(list[i]);
        if line.is_empty() || is_remark_line(line) {
            return i;
        }
    }
    list.len()
}

/// The instance that could not be found.
pub open spec fn instance_goal(list: Seq<Seq<char>>) -> Option<Seq<char>> {
    let at = holding_from(list, synthesis_mark(), 0);
    if at < list.len() {
        let suffix = bare((cut(list[at], synthesis_mark())->0).1);
        let rest = bare_all(list.subrange(at + 1, stated_end(list, at + 1)));
        let goal = joined(
            if suffix.len() > 0 {
                seq![suffix] + rest
            } else {
                rest
            },
            " "@,
        );
        if goal.len() > 0 {
            Some("instance goal\n"@ + middle_cut(goal, 480))
        } else {
            None
        }
    } else {
        None
    }
}

fn find_instance_goal(list: &Vec<&str>) -> (r: Option<String>)
    ensures
        opt_string(r) == instance_goal(strs(list@)),
{
    let ghost views = strs(list@);
    assert(views.len() == list.len());
    let at = find_holding(list, "failed to synthesize instance of type class");
    if at >= list.len() {
        return None;
    }
    proof {
        holding_holds(views, synthesis_mark(), 0);
        crate::text::scan::find_iff_has(views[at as int], synthesis_mark());
    }
    assert(views[at as int] == list@[at as int]@);
    let Some((_, after)) = split_once(list[at], "failed to synthesize instance of type class") else {
        return None;
    };
    let suffix = trim(after);
    let end = find_stated_end(list, at + 1);
    let mut rest = trim_all(&sublist(list, at + 1, end));
    let mut parts: Vec<&str> = Vec::new();
    if !suffix.is_empty() {
        parts.push(suffix);
        assert(strs(parts@) =~= seq![suffix@]);
    } else {
        assert(strs(parts@) =~= Seq::empty());
    }
    let ghost before = strs(parts@);
    let ghost added = strs(rest@);
    parts.append(&mut rest);
    assert(strs(parts@) =~= before + added);
    assert(Seq::<Seq<char>>::empty() + added =~= added);
    let goal = join_strs(&parts, " ");
    if goal.as_str().is_empty() {
        None
    } else {
        Some(cat2("instance goal\n", truncate_middle(goal.as_str(), 480).as_str()))
    }
}

proof fn holding_holds(list: Seq<Seq<char>>, text: Seq<char>, i: int)
    requires
        0 <= i <= list.len(),
    ensures
        i <= holding_from(list, text, i) <= list.len(),
        holding_from(list, text, i) < list.len() ==> has_text(
            list[holding_from(list, text, i)],
            text,
        ),
    decreases list.len() - i,
{
    if i < list.len() && !has_text(list[i], text) {
        holding_holds(list, text, i + 1);
    }
}

/// The first position from `i` on of a line that is a text.
pub open spec fn line_being(list: Seq<Seq<char>>, text: Seq<char>, i: int) -> int
    decreases list.len() - i,
{
    if i >= list.len() || bare(list[i]) == text {
        i
    } else {
        line_being(list, text, i + 1)
    }
}

fn find_line_being(list: &Vec<&str>, text: &str, from: usize) -> (r: usize)
    requires
        from <= list.len(),
    ensures
        r == line_being(strs(list@), text@, from as int),
        from <= r <= list.len(),
{
    for i in from..list.len()
        invariant
            from <= i,
            line_being(strs(list@), text@, from as int) == line_being(
                strs(list@),
                text@,
                i as int,
            ),
    {
        assert(strs(list@)[i as int] == list@[i as int]@);
        if same(trim(list[i]), text) {
            return i;
        }
    }
    list.len()
}

/// A line that ends an expected type.
pub open spec fn past_expected(line: Seq<char>) -> bool {
    begins(line, "in the application"@) || begins(line, "the following variables"@) || remark_line(
        line,
    )
}

/// The first position from `i` on where an expected type ends.
pub open spec fn expected_end(list: Seq<Seq<char>>, i: int) -> int
    decreases list.len() - i,
{
    if i >= list.len() || past_expected(bare(list[i])) {
        i
    } else {
        expected_end(list, i + 1)
    }
}

fn find_expected_end(list: &Vec<&str>, from: usize) -> (r: usize)
    requires
        from <= list.len(),
    ensures
        r == expected_end(strs(list@), from as int),
        from <= r <= list.len(),
{
    for i in from..list.len()
        invariant
            from <= i,
            expected_end(strs(list@), from as int) == expected_end(strs(list@), i as int),
    {
        assert(strs(list@)[i as int] == list@[i as int]@);
        let line = trim(list[i]);
        if starts_with(line, "in the application") || starts_with(line, "the following variables")
            || is_remark_line(line) {
            return i;
        }
    }
    list.len()
}

/// The words of some lines.
pub open spec fn words_of(list: Seq<Seq<char>>) -> Seq<Seq<char>>
    decreases list.len(),
{
    if list.len() == 0 {
        Seq::empty()
    } else {
        words_of(list.drop_last()) + words(list.last())
    }
}

fn collect_words<'a>(list: &Vec<&'a str>, from: usize, to: usize) -> (r: Vec<&'a str>)
    requires
        from <= to <= list.len(),
    ensures
        strs(r@) == words_of(strs(list@).subrange(from as int, to as int)),
{
    let part = sublist(list, from, to);
    let ghost views = strs(part@);
    let mut out: Vec<&'a str> = Vec::new();
    assert(strs(out@) =~= Seq::empty());
    for i in 0..part.len()
        invariant
            views == strs(part@),
            strs(out@) == words_of(views.take(i as int)),
    {
        proof {
            prefix_step(views, i as int);
        }
        assert(views[i as int] == part@[i as int]@);
        let mut more = split_words(part[i]);
        let ghost before = strs(out@);
        let ghost added = strs(more@);
        out.append(&mut more);
        assert(strs(out@) =~= before + added);
    }
    proof {
        prefix_all(views);
    }
    out
}

/// How many words two lists share from position `i` on.
pub open spec fn same_from(a: Seq<Seq<char>>, b: Seq<Seq<char>>, i: int) -> int
    decreases a.len() - i,
{
    if i < a.len() && i < b.len() && a[i] == b[i] {
        same_from(a, b, i + 1)
    } else {
        i
    }
}

/// How many words two lists share at their ends, behind their first `prefix` words and
/// beyond the last `i`.
pub open spec fn same_end_from(a: Seq<Seq<char>>, b: Seq<Seq<char>>, prefix: int, i: int) -> int
    decreases a.len() - prefix - i,
{
    if i < a.len() - prefix && i < b.len() - prefix && a[a.len() - 1 - i] == b[b.len() - 1 - i] {
        same_end_from(a, b, prefix, i + 1)
    } else {
        i
    }
}

/// Some words as they are shown.
pub open spec fn shown_words(list: Seq<Seq<char>>) -> Seq<char> {
    if joined(list, " "@).len() == 0 {
        "<end>"@
    } else {
        middle_cut(joined(list, " "@), 360)
    }
}

fn show_words(list: &Vec<&str>) -> (r: String)
    ensures
        r@ == shown_words(strs(list@)),
{
    let text = join_strs(list, " ");
    if text.as_str().is_empty() {
        own("<end>")
    } else {
        truncate_middle(text.as_str(), 360)
    }
}

/// Where two lists of words first and last differ.
pub open spec fn word_difference(a: Seq<Seq<char>>, b: Seq<Seq<char>>) -> Option<Seq<char>> {
    if a.len() == 0 || b.len() == 0 || a == b {
        None
    } else {
        let prefix = same_from(a, b, 0);
        let suffix = same_end_from(a, b, prefix, 0);
        Some(
            "first type difference\nactual: "@ + shown_words(a.subrange(prefix, a.len() - suffix))
                + "\nexpected: "@ + shown_words(b.subrange(prefix, b.len() - suffix)),
        )
    }
}

fn find_word_difference(a: &Vec<&str>, b: &Vec<&str>) -> (r: Option<String>)
    ensures
        opt_string(r) == word_difference(strs(a@), strs(b@)),
{
    let ghost va = strs(a@);
    let ghost vb = strs(b@);
    assert(va.len() == a.len());
    assert(vb.len() == b.len());
    if a.len() == 0 || b.len() == 0 {
        return None;
    }
    let mut prefix: usize = 0;
    while prefix < a.len() && prefix < b.len() && same(a[prefix], b[prefix])
        invariant
            va == strs(a@),
            vb == strs(b@),
            va.len() == a.len(),
            vb.len() == b.len(),
            prefix <= a.len(),
            prefix <= b.len(),
            forall|j: int| 0 <= j < prefix ==> va[j] == vb[j],
            same_from(va, vb, 0) == same_from(va, vb, prefix as int),
        decreases a.len() - prefix,
    {
        assert(va[prefix as int] == a@[prefix as int]@);
        assert(vb[prefix as int] == b@[prefix as int]@);
        prefix += 1;
    }
    proof {
        if prefix < a.len() && prefix < b.len() {
            assert(va[prefix as int] == a@[prefix as int]@);
            assert(vb[prefix as int] == b@[prefix as int]@);
        }
    }
    if prefix == a.len() && prefix == b.len() {
        assert(va =~= vb);
        return None;
    }
    let mut suffix: usize = 0;
    while suffix < a.len() - prefix && suffix < b.len() - prefix && same(
        a[a.len() - 1 - suffix],
        b[b.len() - 1 - suffix],
    )
        invariant
            va == strs(a@),
            vb == strs(b@),
            va.len() == a.len(),
            vb.len() == b.len(),
            prefix <= a.len(),
            prefix <= b.len(),
            suffix <= a.len() - prefix,
            suffix <= b.len() - prefix,
            same_end_from(va, vb, prefix as int, 0) == same_end_from(
                va,
                vb,
                prefix as int,
                suffix as int,
            ),
        decreases a.len() - suffix,
    {
        assert(va[a.len() - 1 - suffix] == a@[a.len() - 1 - suffix]@);
        assert(vb[b.len() - 1 - suffix] == b@[b.len() - 1 - suffix]@);
        suffix += 1;
    }
    proof {
        if suffix < a.len() - prefix && suffix < b.len() - prefix {
            assert(va[a.len() - 1 - suffix] == a@[a.len() - 1 - suffix]@);
            assert(vb[b.len() - 1 - suffix] == b@[b.len() - 1 - suffix]@);
        }
    }
    let actual = show_words(&sublist(a, prefix, a.len() - suffix));
    let expected = show_words(&sublist(b, prefix, b.len() - suffix));
    let mut out = cat3("first type difference\nactual: ", actual.as_str(), "\nexpected: ");
    push_str(&mut out, expected.as_str());
    Some(out)
}

/// Where the type of a term differs from the expected one.
pub open spec fn mismatch(list: Seq<Seq<char>>) -> Option<Seq<char>> {
    let actual = line_being(list, "has type"@, 0);
    if actual < list.len() {
        let marker = line_being(list, "but is expected to have type"@, actual + 1);
        if marker < list.len() {
            word_difference(
                words_of(list.subrange(actual + 1, marker)),
                words_of(list.subrange(marker + 1, expected_end(list, marker + 1))),
            )
        } else {
            None
        }
    } else {
        None
    }
}

/// What a message says of types: the instance that is missing, or where two types
/// differ.
pub open spec fn type_detail(diagnostic: Seq<char>) -> Option<Seq<char>> {
    let list = line_list(diagnostic);
    match instance_goal(list) {
        Some(goal) => Some(goal),
        None => mismatch(list),
    }
}

/// Computes [`type_detail`].
pub fn diagnostic_type_detail(diagnostic: &str) -> (r: Option<String>)
    ensures
        opt_string(r) == type_detail(diagnostic@),
{
    let list = lines(diagnostic);
    assert(strs(list@).len() == list.len());
    if let Some(goal) = find_instance_goal(&list) {
        return Some(goal);
    }
    let actual = find_line_being(&list, "has type", 0);
    if actual >= list.len() {
        return None;
    }
    let marker = find_line_being(&list, "but is expected to have type", actual + 1);
    if marker >= list.len() {
        return None;
    }
    let end = find_expected_end(&list, marker + 1);
    find_word_difference(
        &collect_words(&list, actual + 1, marker),
        &collect_words(&list, marker + 1, end),
    )
}

/// Where the type of an applied term differs from the goal.
pub open spec fn apply_detail(diagnostic: Seq<char>) -> Option<Seq<char>> {
    let list = line_list(diagnostic);
    let start = holding_from(list, "could not unify the type of"@, 0);
    if start < list.len() {
        let marker = line_being(list, "with the goal"@, start + 1);
        if marker < list.len() {
            word_difference(
                words_of(list.subrange(start + 1, marker)),
                words_of(list.subrange(marker + 1, stated_end(list, marker + 1))),
            )
        } else {
            None
        }
    } else {
        None
    }
}

/// Computes [`apply_detail`].
pub fn diagnostic_apply_detail(diagnostic: &str) -> (r: Option<String>)
    ensures
        opt_string(r) == apply_detail(diagnostic@),
{
    let list = lines(diagnostic);
    assert(strs(list@).len() == list.len());
    let start = find_holding(&list, "could not unify the type of");
    if start >= list.len() {
        return None;
    }
    let marker = find_line_being(&list, "with the goal", start + 1);
    if marker >= list.len() {
        return None;
    }
    let end = find_stated_end(&list, marker + 1);
    find_word_difference(
        &collect_words(&list, start + 1, marker),
        &collect_words(&list, marker + 1, end),
    )
}

/// A line that ends an expression.
pub open spec fn past_expression(line: Seq<char>) -> bool {
    line.len() == 0 || begins(line, "case "@) || begins(line, "⊢ "@) || has_text(line, "Try this:"@)
}

/// The first line from `i` on that is not blank, or the number of lines.
pub open spec fn unblank_from(list: Seq<Seq<char>>, i: int) -> int
    decreases list.len() - i,
{
    if i >= list.len() || bare(list[i]).len() > 0 {
        i
    } else {
        unblank_from(list, i + 1)
    }
}

/// The first line from `i` on that ends an expression, or the number of lines.
pub open spec fn expression_end(list: Seq<Seq<char>>, i: int) -> int
    decreases list.len() - i,
{
    if i >= list.len() || past_expression(bare(list[i])) {
        i
    } else {
        expression_end(list, i + 1)
    }
}

/// The expression that a part of a message begins with, on one line.
pub open spec fn expression(section: Seq<char>) -> Seq<char> {
    let list = line_list(section);
    let start = unblank_from(list, 0);
    joined(bare_all(list.subrange(start, expression_end(list, start))), " "@)
}

fn diagnostic_expression(section: &str) -> (r: String)
    ensures
        r@ == expression(section@),
{
    let list = lines(section);
    let ghost views = strs(list@);
    let mut start: usize = 0;
    while start < list.len() && trim(list[start]).is_empty()
        invariant
            start <= list.len(),
            views == strs(list@),
            unblank_from(views, 0) == unblank_from(views, start as int),
        decreases list.len() - start,
    {
        assert(views[start as int] == list@[start as int]@);
        start += 1;
    }
    proof {
        if start < list.len() {
            assert(views[start as int] == list@[start as int]@);
        }
        assert(views.len() == list.len());
    }
    let mut end = start;
    let mut done = false;
    while end < list.len() && !done
        invariant
            start <= end <= list.len(),
            views == strs(list@),
            views.len() == list.len(),
            if done {
                expression_end(views, start as int) == end
            } else {
                expression_end(views, start as int) == expression_end(views, end as int)
            },
        decreases list.len() - end + if done {
            0int
        } else {
            1int
        },
    {
        assert(views[end as int] == list@[end as int]@);
        let line = trim(list[end]);
        if line.is_empty() || starts_with(line, "case ") || starts_with(line, "⊢ ") || contains(
            line,
            "Try this:",
        ) {
            done = true;
        } else {
            end += 1;
        }
    }
    join_strs(&trim_all(&sublist(&list, start, end)), " ")
}

/// The two sides that a message says are not equal by definition.
pub open spec fn defeq_detail(diagnostic: Seq<char>) -> Option<Seq<char>> {
    match cut(diagnostic, "left-hand side"@) {
        Some((_, comparison)) => match cut(
            comparison,
            "is not definitionally equal to the right-hand side"@,
        ) {
            Some((left, right)) => if expression(left).len() > 0 && expression(right).len() > 0 {
                Some("left\n"@ + expression(left) + "\nright\n"@ + expression(right))
            } else {
                None
            },
            None => None,
        },
        None => None,
    }
}

/// Computes [`defeq_detail`].
pub fn diagnostic_defeq_detail(diagnostic: &str) -> (r: Option<String>)
    ensures
        opt_string(r) == defeq_detail(diagnostic@),
{
    let (_, comparison) = split_once(diagnostic, "left-hand side")?;
    let (before, after) = split_once(
        comparison,
        "is not definitionally equal to the right-hand side",
    )?;
    let left = diagnostic_expression(before);
    let right = diagnostic_expression(after);
    if left.as_str().is_empty() || right.as_str().is_empty() {
        return None;
    }
    let mut out = cat3("left\n", left.as_str(), "\nright\n");
    push_str(&mut out, right.as_str());
    Some(out)
}

/// The first marked line of a listing, from `i` on.
pub open spec fn marked_from(list: Seq<Seq<char>>, i: int) -> Option<Seq<char>>
    decreases list.len() - i,
{
    if i >= list.len() {
        None
    } else if begins(bare_start(list[i]), ">"@) {
        Some(list[i])
    } else {
        marked_from(list, i + 1)
    }
}

fn find_marked<'a>(list: &Vec<&'a str>) -> (r: Option<&'a str>)
    ensures
        opt_str(r) == marked_from(strs(list@), 0),
{
    for i in 0..list.len()
        invariant
            marked_from(strs(list@), 0) == marked_from(strs(list@), i as int),
    {
        assert(strs(list@)[i as int] == list@[i as int]@);
        if starts_with(trim_start(list[i]), ">") {
            return Some(list[i]);
        }
    }
    None
}

/// The code on the marked line of a listing.
pub open spec fn marked_code(context: Option<Seq<char>>) -> Option<Seq<char>> {
    match context {
        Some(text) => match marked_from(line_list(text), 0) {
            Some(line) => match cut(line, "|"@) {
                Some(sides) => if bare(sides.1).len() > 0 {
                    Some(bare(sides.1))
                } else {
                    None
                },
                None => None,
            },
            None => None,
        },
        None => None,
    }
}

/// A line that tells of a rewrite.
pub open spec fn rewrite_line(line: Seq<char>) -> bool {
    has_text(line, "rewrite"@) || has_text(line, "pattern not found"@)
}

/// The first line from `i` on that tells of a rewrite.
pub open spec fn rewrite_from(list: Seq<Seq<char>>, i: int) -> Option<Seq<char>>
    decreases list.len() - i,
{
    if i >= list.len() {
        None
    } else if rewrite_line(list[i]) {
        Some(list[i])
    } else {
        rewrite_from(list, i + 1)
    }
}

fn find_rewrite<'a>(list: &Vec<&'a str>) -> (r: Option<&'a str>)
    ensures
        opt_str(r) == rewrite_from(strs(list@), 0),
{
    for i in 0..list.len()
        invariant
            rewrite_from(strs(list@), 0) == rewrite_from(strs(list@), i as int),
    {
        assert(strs(list@)[i as int] == list@[i as int]@);
        if contains(list[i], "rewrite") || contains(list[i], "pattern not found") {
            return Some(list[i]);
        }
    }
    None
}

/// What a message says of a rewrite that failed.
pub open spec fn rewrite_detail(diagnostic: Seq<char>, context: Option<Seq<char>>) -> Option<
    Seq<char>,
> {
    if has_text(diagnostic, "rewrite"@) || has_text(diagnostic, "Tactic `rw`"@) || has_text(
        diagnostic,
        "pattern not found"@,
    ) {
        let message = match rewrite_from(line_list(diagnostic), 0) {
            Some(line) => bare(line),
            None => "rewrite failed"@,
        };
        Some(
            match marked_code(context) {
                Some(code) => "rewrite\n"@ + code + "\n"@ + message,
                None => "rewrite\n"@ + message,
            },
        )
    } else {
        None
    }
}

/// Computes [`rewrite_detail`].
pub fn diagnostic_rewrite_detail(diagnostic: &str, source_context: Option<&str>) -> (r: Option<
    String,
>)
    ensures
        opt_string(r) == rewrite_detail(diagnostic@, opt_str(source_context)),
{
    if !(contains(diagnostic, "rewrite") || contains(diagnostic, "Tactic `rw`") || contains(
        diagnostic,
        "pattern not found",
    )) {
        return None;
    }
    let mut code: Option<&str> = None;
    if let Some(text) = source_context {
        if let Some(line) = find_marked(&lines(text)) {
            if let Some((_, after)) = split_once(line, "|") {
                let trimmed = trim(after);
                if !trimmed.is_empty() {
                    code = Some(trimmed);
                }
            }
        }
    }
    let message = match find_rewrite(&lines(diagnostic)) {
        Some(line) => trim(line),
        None => "rewrite failed",
    };
    Some(
        match code {
            Some(text) => {
                let mut out = cat3("rewrite\n", text, "\n");
                push_str(&mut out, message);
                out
            },
            None => cat2("rewrite\n", message),
        },
    )
}

/// An optional detail on lines of its own.
pub open spec fn detail_part(detail: Option<Seq<char>>) -> Seq<char> {
    match detail {
        Some(text) => "\n"@ + text,
        None => ""@,
    }
}

fn push_detail(out: &mut String, detail: &Option<String>)
    ensures
        final(out)@ == old(out)@ + detail_part(opt_string(*detail)),
{
    match detail {
        Some(text) => push_str(out, cat2("\n", text.as_str()).as_str()),
        None => push_str(out, ""),
    }
}

/// The message, with fewer of its lines where its details are shown, the details, and
/// the source around it.
pub open spec fn context_body(diagnostic: Seq<char>, context: Option<Seq<char>>) -> Seq<char> {
    let types = type_detail(diagnostic);
    let goal = goal_detail(diagnostic);
    let around = match context {
        Some(text) => joined(front(line_list(text), 5), "\n"@),
        None => ""@,
    };
    joined(
        front(
            line_list(diagnostic),
            if types is Some || goal is Some {
                8
            } else {
                16
            },
        ),
        "\n"@,
    ) + detail_part(types) + detail_part(goal) + (if context is Some && around.len() > 0 {
        "\n"@ + around
    } else {
        ""@
    })
}

/// A message in its context. One about an instance that is found in two ways gets a hint.
pub open spec fn message_context(diagnostic: Seq<char>, context: Option<Seq<char>>) -> Seq<char> {
    let body = context_body(diagnostic, context);
    body + if has_text(
        diagnostic,
        "synthesized type class instance is not definitionally equal to expression inferred by typing rules"@,
    ) && !has_text(body, "same local instance"@) {
        "\nhint: construct both expressions under the same local instance; introduce `classical` before either expression when decidability is involved"@
    } else {
        ""@
    }
}

/// Computes [`message_context`].
pub fn diagnostic_context(diagnostic: &str, source_context: Option<&str>) -> (r: String)
    ensures
        r@ == message_context(diagnostic@, opt_str(source_context)),
{
    let types = diagnostic_type_detail(diagnostic);
    let goal = diagnostic_goal_detail(diagnostic);
    let limit: usize = if types.is_some() || goal.is_some() {
        8
    } else {
        16
    };
    let mut out = join_strs(&take_front(&lines(diagnostic), limit), "\n");
    push_detail(&mut out, &types);
    push_detail(&mut out, &goal);
    match source_context {
        Some(text) => {
            let around = join_strs(&take_front(&lines(text), 5), "\n");
            if around.as_str().is_empty() {
                push_str(&mut out, "");
            } else {
                push_str(&mut out, cat2("\n", around.as_str()).as_str());
            }
        },
        None => push_str(&mut out, ""),
    }
    if contains(
        diagnostic,
        "synthesized type class instance is not definitionally equal to expression inferred by typing rules",
    ) && !contains(out.as_str(), "same local instance") {
        push_str(
            &mut out,
            "\nhint: construct both expressions under the same local instance; introduce `classical` before either expression when decidability is involved",
        );
    } else {
        push_str(&mut out, "");
    }
    out
}

} // verus!

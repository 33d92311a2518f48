//! Searching and stripping.
use crate::text::class::Class;
use crate::text::make::{same, to_chars};
use vstd::prelude::*;

verus! {

/// `needle` stands in `text` at position `i`.
pub open spec fn occurs_at(text: Seq<char>, needle: Seq<char>, i: int) -> bool {
    0 <= i && i + needle.len() <= text.len() && text.subrange(i, i + needle.len()) == needle
}

/// `needle` stands somewhere in `text`.
pub open spec fn has_text(text: Seq<char>, needle: Seq<char>) -> bool {
    exists|i: int| occurs_at(text, needle, i)
}

/// The first position at or after `from` where `needle` stands in `text`.
pub open spec fn find_from(text: Seq<char>, needle: Seq<char>, from: int) -> Option<int>
    decreases text.len() - from + 1,
{
    if from + needle.len() > text.len() {
        None
    } else if occurs_at(text, needle, from) {
        Some(from)
    } else {
        find_from(text, needle, from + 1)
    }
}

/// The first position where `needle` stands in `text`.
pub open spec fn find_text(text: Seq<char>, needle: Seq<char>) -> Option<int> {
    find_from(text, needle, 0)
}

/// The last position at or before `from` where `needle` stands in `text`.
pub open spec fn rfind_from(text: Seq<char>, needle: Seq<char>, from: int) -> Option<int>
    decreases from + 1,
{
    if from < 0 {
        None
    } else if occurs_at(text, needle, from) {
        Some(from)
    } else {
        rfind_from(text, needle, from - 1)
    }
}

/// The last position where `needle` stands in `text`.
pub open spec fn rfind_text(text: Seq<char>, needle: Seq<char>) -> Option<int> {
    rfind_from(text, needle, text.len() - needle.len())
}

/// A found position is an occurrence, and nothing was passed over on the way.
pub proof fn find_from_is_first(text: Seq<char>, needle: Seq<char>, from: int)
    requires
        0 <= from,
    ensures
        match find_from(text, needle, from) {
            Some(i) => from <= i && occurs_at(text, needle, i) && forall|j: int|
                from <= j < i ==> !occurs_at(text, needle, j),
            None => forall|j: int| from <= j ==> !occurs_at(text, needle, j),
        },
    decreases text.len() - from + 1,
{
    if from + needle.len() > text.len() {
    } else if occurs_at(text, needle, from) {
    } else {
        find_from_is_first(text, needle, from + 1);
    }
}

/// A position found from the end is an occurrence, and the last one.
pub proof fn rfind_from_is_last(text: Seq<char>, needle: Seq<char>, from: int)
    ensures
        match rfind_from(text, needle, from) {
            Some(i) => 0 <= i <= from && occurs_at(text, needle, i) && forall|j: int|
                i < j <= from ==> !occurs_at(text, needle, j),
            None => forall|j: int| j <= from ==> !occurs_at(text, needle, j),
        },
    decreases from + 1,
{
    if from < 0 {
    } else if occurs_at(text, needle, from) {
    } else {
        rfind_from_is_last(text, needle, from - 1);
    }
}

/// A text is found exactly where it occurs at all.
pub proof fn find_iff_has(text: Seq<char>, needle: Seq<char>)
    ensures
        find_text(text, needle) is Some <==> has_text(text, needle),
{
    find_from_is_first(text, needle, 0);
}

/// Decides [`occurs_at`] on characters.
pub fn stands_at(text: &Vec<char>, needle: &Vec<char>, i: usize) -> (r: bool)
    ensures
        r == occurs_at(text@, needle@, i as int),
{
    if i > text.len() || needle.len() > text.len() - i {
        return false;
    }
    for k in 0..needle.len()
        invariant
            i + needle.len() <= text.len(),
            forall|j: int| 0 <= j < k ==> text@[i + j] == needle@[j],
    {
        if text[i + k] != needle[k] {
            assert(text@.subrange(i as int, i + needle.len())[k as int] != needle@[k as int]);
            return false;
        }
    }
    assert(text@.subrange(i as int, i + needle.len()) =~= needle@);
    true
}

/// Computes [`find_from`] on characters.
pub fn find_chars(text: &Vec<char>, needle: &Vec<char>, from: usize) -> (r: Option<usize>)
    requires
        from <= text.len(),
    ensures
        match r {
            Some(i) => find_from(text@, needle@, from as int) == Some(i as int),
            None => find_from(text@, needle@, from as int) is None,
        },
{
    let mut i: usize = from;
    while i <= text.len() && needle.len() <= text.len() - i
        invariant
            from <= i <= text.len() + 1,
            text.len() < usize::MAX || i <= text.len(),
            find_from(text@, needle@, from as int) == find_from(text@, needle@, i as int),
        decreases text.len() + 1 - i,
    {
        if stands_at(text, needle, i) {
            return Some(i);
        }
        if i == text.len() {
            assert(needle@.len() == 0);
            assert(text@.subrange(i as int, i as int) =~= needle@);
            return None;
        }
        i += 1;
    }
    None
}

/// Computes [`find_text`].
pub fn find(text: &str, needle: &str) -> (r: Option<usize>)
    ensures
        match r {
            Some(i) => find_text(text@, needle@) == Some(i as int) && i + needle@.len()
                <= text@.len(),
            None => find_text(text@, needle@) is None,
        },
{
    let t = to_chars(text);
    let n = to_chars(needle);
    proof {
        find_from_is_first(text@, needle@, 0);
    }
    find_chars(&t, &n, 0)
}

/// Computes [`rfind_text`].
pub fn rfind(text: &str, needle: &str) -> (r: Option<usize>)
    ensures
        match r {
            Some(i) => rfind_text(text@, needle@) == Some(i as int) && i + needle@.len()
                <= text@.len(),
            None => rfind_text(text@, needle@) is None,
        },
{
    let t = to_chars(text);
    let n = to_chars(needle);
    if n.len() > t.len() {
        return None;
    }
    let mut i: usize = t.len() - n.len();
    loop
        invariant
            t@ == text@,
            n@ == needle@,
            i + n.len() <= t.len(),
            rfind_text(text@, needle@) == rfind_from(text@, needle@, i as int),
        decreases i,
    {
        if stands_at(&t, &n, i) {
            return Some(i);
        }
        if i == 0 {
            assert(rfind_from(text@, needle@, -1) is None);
            return None;
        }
        i -= 1;
    }
}

/// Decides [`has_text`].
pub fn contains(text: &str, needle: &str) -> (r: bool)
    ensures
        r == has_text(text@, needle@),
{
    proof {
        find_iff_has(text@, needle@);
    }
    find(text, needle).is_some()
}

/// `text` begins with `prefix`.
pub open spec fn begins(text: Seq<char>, prefix: Seq<char>) -> bool {
    prefix.len() <= text.len() && text.take(prefix.len() as int) == prefix
}

/// `text` ends with `suffix`.
pub open spec fn ends(text: Seq<char>, suffix: Seq<char>) -> bool {
    suffix.len() <= text.len() && text.skip(text.len() - suffix.len()) == suffix
}

/// Decides [`begins`].
pub fn starts_with(text: &str, prefix: &str) -> (r: bool)
    ensures
        r == begins(text@, prefix@),
{
    let n = prefix.unicode_len();
    if n > text.unicode_len() {
        return false;
    }
    let head = text.substring_char(0, n);
    assert(text@.subrange(0, n as int) =~= text@.take(n as int));
    same(head, prefix)
}

/// Decides [`ends`].
pub fn ends_with(text: &str, suffix: &str) -> (r: bool)
    ensures
        r == ends(text@, suffix@),
{
    let n = suffix.unicode_len();
    let m = text.unicode_len();
    if n > m {
        return false;
    }
    let tail = text.substring_char(m - n, m);
    assert(text@.subrange(m - n, m as int) =~= text@.skip(m - n));
    same(tail, suffix)
}

/// The view of an optional text.
pub open spec fn opt_str(o: Option<&str>) -> Option<Seq<char>> {
    match o {
        Some(s) => Some(s@),
        None => None,
    }
}

/// The view of an optional owned text.
pub open spec fn opt_string(o: Option<String>) -> Option<Seq<char>> {
    match o {
        Some(s) => Some(s@),
        None => None,
    }
}

/// The view of an optional pair of texts.
pub open spec fn opt_pair(o: Option<(&str, &str)>) -> Option<(Seq<char>, Seq<char>)> {
    match o {
        Some(p) => Some((p.0@, p.1@)),
        None => None,
    }
}

/// What follows `prefix`, where `text` begins with it.
pub open spec fn after_prefix(text: Seq<char>, prefix: Seq<char>) -> Option<Seq<char>> {
    if begins(text, prefix) {
        Some(text.skip(prefix.len() as int))
    } else {
        None
    }
}

/// What precedes `suffix`, where `text` ends with it.
pub open spec fn before_suffix(text: Seq<char>, suffix: Seq<char>) -> Option<Seq<char>> {
    if ends(text, suffix) {
        Some(text.take(text.len() - suffix.len()))
    } else {
        None
    }
}

/// The text from position `i` on.
pub fn from_index<'a>(text: &'a str, i: usize) -> (r: &'a str)
    requires
        i <= text@.len(),
    ensures
        r@ == text@.skip(i as int),
{
    assert(text@.subrange(i as int, text@.len() as int) =~= text@.skip(i as int));
    text.substring_char(i, text.unicode_len())
}

/// The text before position `i`.
pub fn up_to<'a>(text: &'a str, i: usize) -> (r: &'a str)
    requires
        i <= text@.len(),
    ensures
        r@ == text@.take(i as int),
{
    assert(text@.subrange(0, i as int) =~= text@.take(i as int));
    text.substring_char(0, i)
}

/// The text after its first `n` characters; nothing where it has no more.
pub open spec fn after_chars(text: Seq<char>, n: int) -> Seq<char> {
    if 0 <= n <= text.len() {
        text.skip(n)
    } else {
        Seq::empty()
    }
}

/// Computes [`after_chars`].
pub fn skip_chars<'a>(text: &'a str, n: usize) -> (r: &'a str)
    ensures
        r@ == after_chars(text@, n as int),
{
    let length = text.unicode_len();
    if n <= length {
        from_index(text, n)
    } else {
        assert(text@.subrange(length as int, length as int) =~= Seq::empty());
        text.substring_char(length, length)
    }
}

/// The first `n` characters, or all where there are fewer.
pub open spec fn first_chars(text: Seq<char>, n: int) -> Seq<char> {
    if 0 <= n <= text.len() {
        text.take(n)
    } else {
        text
    }
}

/// Computes [`first_chars`].
pub fn take_chars<'a>(text: &'a str, n: usize) -> (r: &'a str)
    ensures
        r@ == first_chars(text@, n as int),
{
    if n <= text.unicode_len() {
        up_to(text, n)
    } else {
        text
    }
}

/// The characters from `a` up to `b`; nothing where these are no positions of `text`.
pub open spec fn subtext(text: Seq<char>, a: int, b: int) -> Seq<char> {
    if 0 <= a <= b <= text.len() {
        text.subrange(a, b)
    } else {
        Seq::empty()
    }
}

/// Computes [`subtext`].
pub fn slice<'a>(text: &'a str, a: usize, b: usize) -> (r: &'a str)
    ensures
        r@ == subtext(text@, a as int, b as int),
{
    if a <= b && b <= text.unicode_len() {
        text.substring_char(a, b)
    } else {
        assert(text@.subrange(0, 0) =~= Seq::empty());
        text.substring_char(0, 0)
    }
}

/// How many bytes a character takes in UTF-8.
pub open spec fn width(c: char) -> nat {
    if (c as u32) < 0x80 {
        1
    } else if (c as u32) < 0x800 {
        2
    } else if (c as u32) < 0x10000 {
        3
    } else {
        4
    }
}

/// The number of characters that begin in the first `bytes` bytes of `text` in UTF-8.
pub open spec fn char_index(text: Seq<char>, bytes: int) -> nat
    decreases text.len(),
{
    if bytes <= 0 || text.len() == 0 {
        0
    } else {
        1 + char_index(text.skip(1), bytes - width(text[0]))
    }
}

/// Computes [`char_index`].
pub fn index_of_byte(text: &str, bytes: usize) -> (r: usize)
    ensures
        r == char_index(text@, bytes as int),
        r <= text@.len(),
{
    let t = to_chars(text);
    let mut i: usize = 0;
    let mut left: usize = bytes;
    assert(text@.skip(0) =~= text@);
    while i < t.len() && left > 0
        invariant
            t@ == text@,
            i <= t.len(),
            char_index(text@, bytes as int) == i + char_index(
                text@.skip(i as int),
                left as int,
            ),
        decreases t.len() - i,
    {
        let c = t[i];
        let w: usize = if (c as u32) < 0x80 {
            1
        } else if (c as u32) < 0x800 {
            2
        } else if (c as u32) < 0x10000 {
            3
        } else {
            4
        };
        proof {
            assert(text@.skip(i as int).skip(1) =~= text@.skip(i + 1));
            assert(char_index(text@.skip(i + 1), left - w) == char_index(
                text@.skip(i + 1),
                if left > w { left - w } else { 0 },
            ));
        }
        left = if left > w {
            left - w
        } else {
            0
        };
        i += 1;
    }
    i
}

/// Computes [`after_prefix`].
pub fn strip_prefix<'a>(text: &'a str, prefix: &str) -> (r: Option<&'a str>)
    ensures
        opt_str(r) == after_prefix(text@, prefix@),
{
    if starts_with(text, prefix) {
        Some(from_index(text, prefix.unicode_len()))
    } else {
        None
    }
}

/// Computes [`before_suffix`].
pub fn strip_suffix<'a>(text: &'a str, suffix: &str) -> (r: Option<&'a str>)
    ensures
        opt_str(r) == before_suffix(text@, suffix@),
{
    if ends_with(text, suffix) {
        Some(up_to(text, text.unicode_len() - suffix.unicode_len()))
    } else {
        None
    }
}

/// `text` without `prefix`, or as it is where it does not begin with it.
pub open spec fn sans_prefix(text: Seq<char>, prefix: Seq<char>) -> Seq<char> {
    if begins(text, prefix) {
        text.skip(prefix.len() as int)
    } else {
        text
    }
}

/// Computes [`sans_prefix`].
pub fn without_prefix<'a>(text: &'a str, prefix: &str) -> (r: &'a str)
    ensures
        r@ == sans_prefix(text@, prefix@),
{
    match strip_prefix(text, prefix) {
        Some(rest) => rest,
        None => text,
    }
}

/// `text` without `suffix`, or as it is where it does not end with it.
pub open spec fn sans_suffix(text: Seq<char>, suffix: Seq<char>) -> Seq<char> {
    if ends(text, suffix) {
        text.take(text.len() - suffix.len())
    } else {
        text
    }
}

/// Computes [`sans_suffix`].
pub fn without_suffix<'a>(text: &'a str, suffix: &str) -> (r: &'a str)
    ensures
        r@ == sans_suffix(text@, suffix@),
{
    match strip_suffix(text, suffix) {
        Some(rest) => rest,
        None => text,
    }
}

/// `text` without any number of leading copies of `prefix`.
pub open spec fn sans_prefixes(text: Seq<char>, prefix: Seq<char>) -> Seq<char>
    decreases text.len(),
{
    if prefix.len() > 0 && begins(text, prefix) {
        sans_prefixes(text.skip(prefix.len() as int), prefix)
    } else {
        text
    }
}

/// Computes [`sans_prefixes`].
pub fn without_prefixes<'a>(text: &'a str, prefix: &str) -> (r: &'a str)
    requires
        prefix@.len() > 0,
    ensures
        r@ == sans_prefixes(text@, prefix@),
{
    let mut rest: &'a str = text;
    while starts_with(rest, prefix)
        invariant
            prefix@.len() > 0,
            sans_prefixes(rest@, prefix@) == sans_prefixes(text@, prefix@),
        decreases rest@.len(),
    {
        rest = from_index(rest, prefix.unicode_len());
    }
    rest
}

/// Both sides of the first `separator`.
pub open spec fn cut(text: Seq<char>, separator: Seq<char>) -> Option<(Seq<char>, Seq<char>)> {
    match find_text(text, separator) {
        Some(i) => Some((text.take(i), text.skip(i + separator.len()))),
        None => None,
    }
}

/// Computes [`cut`].
pub fn split_once<'a>(text: &'a str, separator: &str) -> (r: Option<(&'a str, &'a str)>)
    ensures
        opt_pair(r) == cut(text@, separator@),
{
    let length = text.unicode_len();
    match find(text, separator) {
        Some(i) => Some((up_to(text, i), text.substring_char(i + separator.unicode_len(), length))),
        None => None,
    }
}

/// Both sides of the last `separator`.
pub open spec fn rcut(text: Seq<char>, separator: Seq<char>) -> Option<(Seq<char>, Seq<char>)> {
    match rfind_text(text, separator) {
        Some(i) => Some((text.take(i), text.skip(i + separator.len()))),
        None => None,
    }
}

/// Computes [`rcut`].
pub fn rsplit_once<'a>(text: &'a str, separator: &str) -> (r: Option<(&'a str, &'a str)>)
    ensures
        opt_pair(r) == rcut(text@, separator@),
{
    let length = text.unicode_len();
    match rfind(text, separator) {
        Some(i) => Some((up_to(text, i), text.substring_char(i + separator.unicode_len(), length))),
        None => None,
    }
}

/// `text` without its leading characters of the class.
pub open spec fn trimmed_start(text: Seq<char>, class: Class) -> Seq<char>
    decreases text.len(),
{
    if text.len() > 0 && class.has(text[0]) {
        trimmed_start(text.skip(1), class)
    } else {
        text
    }
}

/// `text` without its trailing characters of the class.
pub open spec fn trimmed_end(text: Seq<char>, class: Class) -> Seq<char>
    decreases text.len(),
{
    if text.len() > 0 && class.has(text.last()) {
        trimmed_end(text.drop_last(), class)
    } else {
        text
    }
}

/// `text` without the characters of the class at either end.
pub open spec fn trimmed(text: Seq<char>, class: Class) -> Seq<char> {
    trimmed_end(trimmed_start(text, class), class)
}

/// Trimming makes nothing longer.
pub proof fn trimming_shortens(text: Seq<char>, class: Class)
    ensures
        trimmed_start(text, class).len() <= text.len(),
        trimmed_end(text, class).len() <= text.len(),
        trimmed(text, class).len() <= text.len(),
{
    trimmed_start_shortens(text, class);
    trimmed_end_shortens(text, class);
    trimmed_end_shortens(trimmed_start(text, class), class);
}

proof fn trimmed_start_shortens(text: Seq<char>, class: Class)
    ensures
        trimmed_start(text, class).len() <= text.len(),
    decreases text.len(),
{
    if text.len() > 0 && class.has(text[0]) {
        trimmed_start_shortens(text.skip(1), class);
    }
}

proof fn trimmed_end_shortens(text: Seq<char>, class: Class)
    ensures
        trimmed_end(text, class).len() <= text.len(),
    decreases text.len(),
{
    if text.len() > 0 && class.has(text.last()) {
        trimmed_end_shortens(text.drop_last(), class);
    }
}

proof fn trimmed_start_is_skip(text: Seq<char>, class: Class, i: int)
    requires
        0 <= i <= text.len(),
        forall|j: int| 0 <= j < i ==> class.has(#[trigger] text[j]),
        i == text.len() || !class.has(text[i]),
    ensures
        trimmed_start(text, class) == text.skip(i),
    decreases i,
{
    if i > 0 {
        assert forall|j: int| 0 <= j < i - 1 implies class.has(#[trigger] text.skip(1)[j]) by {
            assert(text[j + 1] == text.skip(1)[j]);
        }
        trimmed_start_is_skip(text.skip(1), class, i - 1);
        assert(text.skip(1).skip(i - 1) =~= text.skip(i));
    } else {
        assert(text.skip(0) =~= text);
    }
}

proof fn trimmed_end_is_take(text: Seq<char>, class: Class, i: int)
    requires
        0 <= i <= text.len(),
        forall|j: int| i <= j < text.len() ==> class.has(#[trigger] text[j]),
        i == 0 || !class.has(text[i - 1]),
    ensures
        trimmed_end(text, class) == text.take(i),
    decreases text.len() - i,
{
    if i < text.len() {
        trimmed_end_is_take(text.drop_last(), class, i);
        assert(text.drop_last().take(i) =~= text.take(i));
    } else {
        assert(text.take(i) =~= text);
    }
}

proof fn first_outside(text: Seq<char>, class: Class, from: int) -> (i: int)
    requires
        0 <= from <= text.len(),
        forall|j: int| 0 <= j < from ==> class.has(#[trigger] text[j]),
    ensures
        from <= i <= text.len(),
        forall|j: int| 0 <= j < i ==> class.has(#[trigger] text[j]),
        i == text.len() || !class.has(text[i]),
    decreases text.len() - from,
{
    if from < text.len() && class.has(text[from]) {
        first_outside(text, class, from + 1)
    } else {
        from
    }
}

proof fn last_outside(text: Seq<char>, class: Class, to: int) -> (i: int)
    requires
        0 <= to <= text.len(),
        forall|j: int| to <= j < text.len() ==> class.has(#[trigger] text[j]),
    ensures
        0 <= i <= to,
        forall|j: int| i <= j < text.len() ==> class.has(#[trigger] text[j]),
        i == 0 || !class.has(text[i - 1]),
    decreases to,
{
    if to > 0 && class.has(text[to - 1]) {
        last_outside(text, class, to - 1)
    } else {
        to
    }
}

/// Trimming the start of a text leaves what begins with its first character outside the
/// class.
pub proof fn trimming_start_cuts_the_class(text: Seq<char>, class: Class) -> (i: int)
    ensures
        0 <= i <= text.len(),
        trimmed_start(text, class) == text.skip(i),
        forall|j: int| 0 <= j < i ==> class.has(#[trigger] text[j]),
        i == text.len() || !class.has(text[i]),
{
    let i = first_outside(text, class, 0);
    trimmed_start_is_skip(text, class, i);
    i
}

/// Trimming the end of a text leaves what ends with its last character outside the class.
pub proof fn trimming_end_cuts_the_class(text: Seq<char>, class: Class) -> (i: int)
    ensures
        0 <= i <= text.len(),
        trimmed_end(text, class) == text.take(i),
        forall|j: int| i <= j < text.len() ==> class.has(#[trigger] text[j]),
        i == 0 || !class.has(text[i - 1]),
{
    let i = last_outside(text, class, text.len() as int);
    trimmed_end_is_take(text, class, i);
    i
}

/// Trimming cuts off characters of the class at both ends, and no others: what is left
/// neither begins nor ends with one, and trimming it again changes nothing.
pub proof fn trimming_keeps_the_middle(text: Seq<char>, class: Class) -> (r: (int, int))
    ensures
        0 <= r.0 <= r.1 <= text.len(),
        trimmed(text, class) == text.subrange(r.0, r.1),
        forall|j: int| 0 <= j < r.0 || r.1 <= j < text.len() ==> class.has(#[trigger] text[j]),
        r.0 < r.1 ==> !class.has(text[r.0]) && !class.has(text[r.1 - 1]),
        trimmed(trimmed(text, class), class) == trimmed(text, class),
{
    let a = trimming_start_cuts_the_class(text, class);
    let rest = text.skip(a);
    let n = trimming_end_cuts_the_class(rest, class);
    let kept = text.subrange(a, a + n);
    assert(rest.take(n) =~= kept);
    assert forall|j: int| 0 <= j < a || a + n <= j < text.len() implies class.has(
        #[trigger] text[j],
    ) by {
        if j >= a + n {
            assert(class.has(rest[j - a]));
        }
    }
    if n > 0 {
        assert(rest[n - 1] == text[a + n - 1]);
        assert(kept[0] == text[a]);
        assert(kept.last() == text[a + n - 1]);
    }
    (a, a + n)
}

/// A text is trimmed to nothing just where all its characters are of the class.
pub proof fn trimmed_to_nothing(text: Seq<char>, class: Class)
    ensures
        trimmed(text, class).len() == 0 <==> forall|j: int|
            0 <= j < text.len() ==> class.has(#[trigger] text[j]),
{
    let (a, b) = trimming_keeps_the_middle(text, class);
    if a < b {
        assert(!class.has(text[a]));
    }
}

/// Computes [`trimmed_start`].
pub fn trim_start_of<'a>(text: &'a str, class: Class) -> (r: &'a str)
    ensures
        r@ == trimmed_start(text@, class),
{
    let t = to_chars(text);
    let mut i: usize = 0;
    while i < t.len() && class.holds(t[i])
        invariant
            t@ == text@,
            i <= t.len(),
            forall|j: int| 0 <= j < i ==> class.has(#[trigger] text@[j]),
        decreases t.len() - i,
    {
        i += 1;
    }
    proof {
        trimmed_start_is_skip(text@, class, i as int);
    }
    from_index(text, i)
}

/// Computes [`trimmed_end`].
pub fn trim_end_of<'a>(text: &'a str, class: Class) -> (r: &'a str)
    ensures
        r@ == trimmed_end(text@, class),
{
    let t = to_chars(text);
    let mut i: usize = t.len();
    while i > 0 && class.holds(t[i - 1])
        invariant
            t@ == text@,
            i <= t.len(),
            forall|j: int| i <= j < text@.len() ==> class.has(#[trigger] text@[j]),
        decreases i,
    {
        i -= 1;
    }
    proof {
        trimmed_end_is_take(text@, class, i as int);
    }
    up_to(text, i)
}

/// Computes [`trimmed`].
pub fn trim_of<'a>(text: &'a str, class: Class) -> (r: &'a str)
    ensures
        r@ == trimmed(text@, class),
{
    trim_end_of(trim_start_of(text, class), class)
}

/// `text` without white space at either end.
pub open spec fn bare(text: Seq<char>) -> Seq<char> {
    trimmed(text, Class::Space)
}

/// Computes [`bare`].
pub fn trim<'a>(text: &'a str) -> (r: &'a str)
    ensures
        r@ == bare(text@),
{
    trim_of(text, Class::Space)
}

/// `text` without leading white space.
pub open spec fn bare_start(text: Seq<char>) -> Seq<char> {
    trimmed_start(text, Class::Space)
}

/// Computes [`bare_start`].
pub fn trim_start<'a>(text: &'a str) -> (r: &'a str)
    ensures
        r@ == bare_start(text@),
{
    trim_start_of(text, Class::Space)
}

/// `text` without trailing white space.
pub open spec fn bare_end(text: Seq<char>) -> Seq<char> {
    trimmed_end(text, Class::Space)
}

/// Computes [`bare_end`].
pub fn trim_end<'a>(text: &'a str) -> (r: &'a str)
    ensures
        r@ == bare_end(text@),
{
    trim_end_of(text, Class::Space)
}

/// `text` is white space throughout.
pub open spec fn blank(text: Seq<char>) -> bool {
    bare(text).len() == 0
}

/// Decides [`blank`].
pub fn is_blank(text: &str) -> (r: bool)
    ensures
        r == blank(text@),
{
    trim(text).is_empty()
}

/// What stands between two texts is found in the whole.
pub proof fn found_between(before: Seq<char>, part: Seq<char>, after: Seq<char>)
    ensures
        has_text(before + part + after, part),
{
    let all = before + part + after;
    let i = before.len() as int;
    assert(all.subrange(i, i + part.len()) =~= part);
    assert(occurs_at(all, part, i));
}

/// What is found in a part of a text is found in the whole.
pub proof fn found_in_part(before: Seq<char>, part: Seq<char>, after: Seq<char>, needle: Seq<char>)
    requires
        has_text(part, needle),
    ensures
        has_text(before + part + after, needle),
{
    let all = before + part + after;
    let i = choose|i: int| occurs_at(part, needle, i);
    let k = before.len() + i;
    assert(all.subrange(k, k + needle.len()) =~= part.subrange(i, i + needle.len()));
    assert(occurs_at(all, needle, k));
}

} // verus!

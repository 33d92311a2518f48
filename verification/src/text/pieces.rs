//! Cutting text into lines, words and fields.
use crate::text::class::Class;
use crate::text::make::{
    own, prefix_all, prefix_step, strings, strings_push, strs, strs_push, to_chars,
};
use crate::text::scan::{
    bare, find_chars, find_from, find_from_is_first, find_text, occurs_at, opt_str, trim, up_to,
};
use vstd::prelude::*;

verus! {

broadcast use {strings_push, strs_push};

/// The number of characters before the first one of the class.
pub open spec fn first_in(text: Seq<char>, class: Class) -> int
    decreases text.len(),
{
    if text.len() == 0 || class.has(text[0]) {
        0
    } else {
        1 + first_in(text.skip(1), class)
    }
}

/// [`first_in`] by its two defining properties.
pub proof fn first_in_is(text: Seq<char>, class: Class, i: int)
    requires
        0 <= i <= text.len(),
        forall|j: int| 0 <= j < i ==> !class.has(#[trigger] text[j]),
        i == text.len() || class.has(text[i]),
    ensures
        first_in(text, class) == i,
    decreases i,
{
    if i > 0 {
        assert forall|j: int| 0 <= j < i - 1 implies !class.has(#[trigger] text.skip(1)[j]) by {
            assert(text[j + 1] == text.skip(1)[j]);
        }
        first_in_is(text.skip(1), class, i - 1);
    }
}

/// The first character of the class stands where [`first_in`] says.
pub proof fn first_in_bounds(text: Seq<char>, class: Class)
    ensures
        0 <= first_in(text, class) <= text.len(),
        first_in(text, class) < text.len() ==> class.has(text[first_in(text, class)]),
        forall|j: int| 0 <= j < first_in(text, class) ==> !class.has(#[trigger] text[j]),
    decreases text.len(),
{
    if text.len() == 0 || class.has(text[0]) {
    } else {
        first_in_bounds(text.skip(1), class);
        assert forall|j: int| 0 <= j < first_in(text, class) implies !class.has(
            #[trigger] text[j],
        ) by {
            if j > 0 {
                assert(text[j] == text.skip(1)[j - 1]);
            }
        }
    }
}

/// Computes [`first_in`].
pub fn position(text: &str, class: Class) -> (r: usize)
    ensures
        r == first_in(text@, class),
        r <= text@.len(),
{
    let t = to_chars(text);
    let mut i: usize = 0;
    while i < t.len() && !class.holds(t[i])
        invariant
            t@ == text@,
            i <= t.len(),
            forall|j: int| 0 <= j < i ==> !class.has(#[trigger] text@[j]),
        decreases t.len() - i,
    {
        i += 1;
    }
    proof {
        first_in_is(text@, class, i as int);
    }
    i
}

/// The fields of `text` between the characters of the class, empty ones among them.
pub open spec fn pieces(text: Seq<char>, class: Class) -> Seq<Seq<char>>
    decreases text.len(),
{
    let i = first_in(text, class);
    if i < 0 || i >= text.len() {
        seq![text]
    } else {
        seq![text.take(i)] + pieces(text.skip(i + 1), class)
    }
}

/// Computes [`pieces`].
pub fn split<'a>(text: &'a str, class: Class) -> (r: Vec<&'a str>)
    ensures
        strs(r@) == pieces(text@, class),
        r.len() > 0,
{
    let t = to_chars(text);
    let mut out: Vec<&'a str> = Vec::new();
    let mut start: usize = 0;
    let mut i: usize = 0;
    assert(text@.skip(0) =~= text@);
    while i < t.len()
        invariant
            t@ == text@,
            start <= i <= t.len(),
            forall|j: int| start <= j < i ==> !class.has(#[trigger] text@[j]),
            pieces(text@, class) == strs(out@) + pieces(text@.skip(start as int), class),
        decreases t.len() - i,
    {
        if class.holds(t[i]) {
            let ghost rest = text@.skip(start as int);
            let ghost before = strs(out@);
            proof {
                first_in_is(rest, class, i - start);
                assert(rest.take(i - start) =~= text@.subrange(start as int, i as int));
                assert(rest.skip(i - start + 1) =~= text@.skip(i + 1));
            }
            out.push(text.substring_char(start, i));
            start = i + 1;
            assert(pieces(text@, class) =~= strs(out@) + pieces(text@.skip(start as int), class));
        }
        i += 1;
    }
    let ghost rest = text@.skip(start as int);
    proof {
        first_in_is(rest, class, t.len() - start);
        assert(rest =~= text@.subrange(start as int, t.len() as int));
    }
    let ghost before = strs(out@);
    out.push(text.substring_char(start, t.len()));
    assert(strs(out@) =~= before + seq![rest]);
    out
}

/// The texts of a list that are not empty.
pub open spec fn nonempty_of(list: Seq<Seq<char>>) -> Seq<Seq<char>>
    decreases list.len(),
{
    if list.len() == 0 {
        Seq::empty()
    } else if list.last().len() == 0 {
        nonempty_of(list.drop_last())
    } else {
        nonempty_of(list.drop_last()).push(list.last())
    }
}

/// Computes [`nonempty_of`].
pub fn keep_nonempty<'a>(list: Vec<&'a str>) -> (r: Vec<&'a str>)
    ensures
        strs(r@) == nonempty_of(strs(list@)),
{
    let mut out: Vec<&'a str> = Vec::new();
    for i in 0..list.len()
        invariant
            strs(out@) == nonempty_of(strs(list@).take(i as int)),
    {
        proof {
            prefix_step(strs(list@), i as int);
        }
        if !list[i].is_empty() {
            out.push(list[i]);
        }
    }
    proof {
        prefix_all(strs(list@));
    }
    out
}

/// The words of `text`: its longest runs without white space.
pub open spec fn words(text: Seq<char>) -> Seq<Seq<char>> {
    nonempty_of(pieces(text, Class::Space))
}

/// Computes [`words`].
pub fn split_words<'a>(text: &'a str) -> (r: Vec<&'a str>)
    ensures
        strs(r@) == words(text@),
{
    keep_nonempty(split(text, Class::Space))
}

/// The texts of a list, each without white space at either end.
pub open spec fn bare_all(list: Seq<Seq<char>>) -> Seq<Seq<char>> {
    list.map_values(|t: Seq<char>| bare(t))
}

/// Computes [`bare_all`].
pub fn trim_all<'a>(list: &Vec<&'a str>) -> (r: Vec<&'a str>)
    ensures
        strs(r@) == bare_all(strs(list@)),
        r.len() == list.len(),
{
    let mut out: Vec<&'a str> = Vec::new();
    for i in 0..list.len()
        invariant
            out.len() == i,
            strs(out@) == bare_all(strs(list@)).take(i as int),
    {
        proof {
            prefix_step(bare_all(strs(list@)), i as int);
        }
        out.push(trim(list[i]));
    }
    proof {
        prefix_all(bare_all(strs(list@)));
    }
    out
}

/// The first word of `text`.
pub open spec fn first_word(text: Seq<char>) -> Option<Seq<char>> {
    if words(text).len() > 0 {
        Some(words(text)[0])
    } else {
        None
    }
}

/// Computes [`first_word`].
pub fn next_word<'a>(text: &'a str) -> (r: Option<&'a str>)
    ensures
        opt_str(r) == first_word(text@),
{
    let list = split_words(text);
    assert(strs(list@).len() == list.len());
    if list.len() > 0 {
        assert(strs(list@)[0] == list[0]@);
        Some(list[0])
    } else {
        None
    }
}

/// `line` without one trailing carriage return.
pub open spec fn chomped(line: Seq<char>) -> Seq<char> {
    if line.len() > 0 && line.last() == '\r' {
        line.drop_last()
    } else {
        line
    }
}

/// Computes [`chomped`].
pub fn chomp<'a>(line: &'a str) -> (r: &'a str)
    ensures
        r@ == chomped(line@),
{
    let n = line.unicode_len();
    if n > 0 && line.get_char(n - 1) == '\r' {
        assert(line@.take(n - 1) =~= line@.drop_last());
        up_to(line, n - 1)
    } else {
        line
    }
}

/// The lines of `text`. Each ends with a line feed or a carriage return and a line
/// feed, which the last line may lack.
pub open spec fn line_list(text: Seq<char>) -> Seq<Seq<char>>
    decreases text.len(),
{
    let i = first_in(text, Class::Is('\n'));
    if text.len() == 0 {
        Seq::empty()
    } else if i < 0 || i >= text.len() {
        seq![text]
    } else {
        seq![chomped(text.take(i))] + line_list(text.skip(i + 1))
    }
}

/// Computes [`line_list`].
pub fn lines<'a>(text: &'a str) -> (r: Vec<&'a str>)
    ensures
        strs(r@) == line_list(text@),
{
    let t = to_chars(text);
    let mut out: Vec<&'a str> = Vec::new();
    let mut start: usize = 0;
    let mut i: usize = 0;
    assert(text@.skip(0) =~= text@);
    while i < t.len()
        invariant
            t@ == text@,
            start <= i <= t.len(),
            forall|j: int| start <= j < i ==> #[trigger] text@[j] != '\n',
            line_list(text@) == strs(out@) + line_list(text@.skip(start as int)),
        decreases t.len() - i,
    {
        if t[i] == '\n' {
            let ghost rest = text@.skip(start as int);
            proof {
                first_in_is(rest, Class::Is('\n'), i - start);
                assert(rest.take(i - start) =~= text@.subrange(start as int, i as int));
                assert(rest.skip(i - start + 1) =~= text@.skip(i + 1));
            }
            out.push(chomp(text.substring_char(start, i)));
            start = i + 1;
            assert(line_list(text@) =~= strs(out@) + line_list(text@.skip(start as int)));
        }
        i += 1;
    }
    let ghost rest = text@.skip(start as int);
    if start < t.len() {
        proof {
            first_in_is(rest, Class::Is('\n'), t.len() - start);
            assert(rest =~= text@.subrange(start as int, t.len() as int));
        }
        let ghost before = strs(out@);
        out.push(text.substring_char(start, t.len()));
        assert(strs(out@) =~= before + seq![rest]);
    }
    out
}

/// The fields of `text` between the occurrences of `separator`.
pub open spec fn fields(text: Seq<char>, separator: Seq<char>) -> Seq<Seq<char>>
    decreases text.len(),
{
    match find_text(text, separator) {
        Some(i) => if separator.len() > 0 && 0 <= i && i + separator.len() <= text.len() {
            seq![text.take(i)] + fields(text.skip(i + separator.len()), separator)
        } else {
            seq![text]
        },
        None => seq![text],
    }
}

proof fn find_from_shift(text: Seq<char>, needle: Seq<char>, start: int, from: int)
    requires
        0 <= start <= from,
        start <= text.len(),
    ensures
        find_from(text.skip(start), needle, from - start) == match find_from(text, needle, from) {
            Some(i) => Some(i - start),
            None => None::<int>,
        },
    decreases text.len() - from + 1,
{
    if from + needle.len() <= text.len() {
        assert(text.skip(start).subrange(from - start, from - start + needle.len())
            =~= text.subrange(from, from + needle.len()));
        if !occurs_at(text, needle, from) {
            find_from_shift(text, needle, start, from + 1);
        }
    }
}

/// Computes [`fields`].
pub fn split_text<'a>(text: &'a str, separator: &str) -> (r: Vec<&'a str>)
    requires
        separator@.len() > 0,
    ensures
        strs(r@) == fields(text@, separator@),
        r.len() > 0,
{
    let t = to_chars(text);
    let n = to_chars(separator);
    let mut out: Vec<&'a str> = Vec::new();
    let mut start: usize = 0;
    assert(text@.skip(0) =~= text@);
    loop
        invariant
            t@ == text@,
            n@ == separator@,
            n.len() > 0,
            start <= t.len(),
            fields(text@, separator@) == strs(out@) + fields(text@.skip(start as int), separator@),
        decreases t.len() - start,
    {
        let ghost rest = text@.skip(start as int);
        let ghost before = strs(out@);
        proof {
            find_from_shift(text@, separator@, start as int, start as int);
            find_from_is_first(text@, separator@, start as int);
        }
        match find_chars(&t, &n, start) {
            Some(i) => {
                proof {
                    assert(rest.take(i - start) =~= text@.subrange(start as int, i as int));
                    assert(rest.skip(i - start + n.len()) =~= text@.skip(i + n.len()));
                }
                out.push(text.substring_char(start, i));
                start = i + n.len();
                assert(fields(text@, separator@) =~= strs(out@) + fields(
                    text@.skip(start as int),
                    separator@,
                ));
            },
            None => {
                assert(rest =~= text@.subrange(start as int, t.len() as int));
                out.push(text.substring_char(start, t.len()));
                assert(strs(out@) =~= before + seq![rest]);
                return out;
            },
        }
    }
}

/// Owned copies of borrowed strings.
pub fn own_all(list: &Vec<&str>) -> (r: Vec<String>)
    ensures
        strings(r@) == strs(list@),
{
    let mut out: Vec<String> = Vec::new();
    for i in 0..list.len()
        invariant
            strings(out@) == strs(list@).take(i as int),
    {
        proof {
            prefix_step(strs(list@), i as int);
        }
        out.push(own(list[i]));
    }
    proof {
        prefix_all(strs(list@));
    }
    out
}

/// Whether `item` is one of the texts.
pub fn has_string(list: &Vec<String>, item: &str) -> (r: bool)
    ensures
        r == strings(list@).contains(item@),
{
    for i in 0..list.len()
        invariant
            forall|j: int| 0 <= j < i ==> strings(list@)[j] != item@,
    {
        if crate::text::make::same(list[i].as_str(), item) {
            assert(strings(list@)[i as int] == item@);
            return true;
        }
    }
    false
}

} // verus!

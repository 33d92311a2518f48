//! The short forms in which texts appear in answers.
use crate::text::class::{is_all, Class};
use crate::text::make::{
    cat2, cat3, join_strs, joined, prefix_all, prefix_step, push_str, strings, strings_push, strs,
    strs_push,
};
use crate::text::pieces::{split_words, words};
use crate::text::scan::{bare_end, trim_end, up_to};
use vstd::prelude::*;

verus! {

broadcast use {strings_push, strs_push};

/// The words of `text` on one line, one space between each two.
pub open spec fn one_line(text: Seq<char>) -> Seq<char> {
    joined(words(text), " "@)
}

/// Computes [`one_line`].
pub fn single_line(text: &str) -> (r: String)
    ensures
        r@ == one_line(text@),
{
    join_strs(&split_words(text), " ")
}

/// `text` within `limit` characters: longer text gives way to an ellipsis.
pub open spec fn shortened(text: Seq<char>, limit: nat) -> Seq<char> {
    if text.len() <= limit || limit == 0 {
        text
    } else {
        text.take(limit - 1) + "…"@
    }
}

/// Computes [`shortened`].
pub fn truncate_line(text: &str, limit: usize) -> (r: String)
    ensures
        r@ == shortened(text@, limit as nat),
{
    if text.unicode_len() <= limit || limit == 0 {
        text.to_owned()
    } else {
        cat2(up_to(text, limit - 1), "…")
    }
}

/// The characters that a shell leaves alone.
pub open spec fn plain_argument(text: Seq<char>) -> bool {
    text.len() > 0 && crate::text::class::all_of(text, Class::Word("_-./:@%+=,#~"))
}

/// A character as it stands between double quotes.
pub open spec fn quoted_char(c: char) -> Seq<char> {
    if c == '"' || c == '\\' || c == '$' || c == '`' {
        seq!['\\', c]
    } else {
        seq![c]
    }
}

/// The characters of `text` as they stand between double quotes.
pub open spec fn quoted_chars(text: Seq<char>) -> Seq<char>
    decreases text.len(),
{
    if text.len() == 0 {
        Seq::empty()
    } else {
        quoted_chars(text.drop_last()) + quoted_char(text.last())
    }
}

/// `text` as one argument of a shell command.
pub open spec fn shell_quoted(text: Seq<char>) -> Seq<char> {
    if plain_argument(text) {
        text
    } else {
        "\""@ + quoted_chars(text) + "\""@
    }
}

/// Computes [`shell_quoted`].
pub fn shell_argument(text: &str) -> (r: String)
    ensures
        r@ == shell_quoted(text@),
{
    if !text.is_empty() && is_all(text, Class::Word("_-./:@%+=,#~")) {
        return text.to_owned();
    }
    let mut inner = String::new();
    for c in it: text.chars()
        invariant
            it.seq() == text@,
            inner@ == quoted_chars(text@.take(it.index() as int)),
    {
        proof {
            prefix_step(text@, it.index() as int);
        }
        let ghost before = inner@;
        if c == '"' || c == '\\' || c == '$' || c == '`' {
            inner.push('\\');
            inner.push(c);
        } else {
            inner.push(c);
        }
        assert(inner@ =~= before + quoted_char(c));
    }
    proof {
        prefix_all(text@);
    }
    cat3("\"", inner.as_str(), "\"")
}

/// The first twelve characters of a commit's name.
pub open spec fn brief_hash(hash: Seq<char>) -> Seq<char> {
    if hash.len() <= 12 {
        hash
    } else {
        hash.take(12)
    }
}

/// Computes [`brief_hash`].
pub fn short_hash<'a>(hash: &'a str) -> (r: &'a str)
    ensures
        r@ == brief_hash(hash@),
{
    if hash.unicode_len() <= 12 {
        hash
    } else {
        up_to(hash, 12)
    }
}

/// Every text of a list behind a mark.
pub open spec fn listed(list: Seq<Seq<char>>, mark: Seq<char>) -> Seq<char>
    decreases list.len(),
{
    if list.len() == 0 {
        Seq::empty()
    } else {
        listed(list.drop_last(), mark) + mark + list.last()
    }
}

/// Appends [`listed`].
pub fn push_list(out: &mut String, list: &Vec<String>, mark: &str)
    ensures
        final(out)@ == old(out)@ + listed(strings(list@), mark@),
{
    let ghost views = strings(list@);
    let ghost before = out@;
    assert(before + listed(views.take(0), mark@) =~= before);
    for i in 0..list.len()
        invariant
            views == strings(list@),
            out@ == before + listed(views.take(i as int), mark@),
    {
        proof {
            prefix_step(views, i as int);
        }
        assert(views[i as int] == list@[i as int]@);
        push_str(out, mark);
        push_str(out, list[i].as_str());
        assert(out@ =~= before + listed(views.take(i + 1), mark@));
    }
    proof {
        prefix_all(views);
    }
}

/// Appends [`listed`].
pub fn push_strs(out: &mut String, list: &Vec<&str>, mark: &str)
    ensures
        final(out)@ == old(out)@ + listed(strs(list@), mark@),
{
    let ghost views = strs(list@);
    let ghost before = out@;
    assert(before + listed(views.take(0), mark@) =~= before);
    for i in 0..list.len()
        invariant
            views == strs(list@),
            out@ == before + listed(views.take(i as int), mark@),
    {
        proof {
            prefix_step(views, i as int);
        }
        assert(views[i as int] == list@[i as int]@);
        push_str(out, mark);
        push_str(out, list[i]);
        assert(out@ =~= before + listed(views.take(i + 1), mark@));
    }
    proof {
        prefix_all(views);
    }
}

/// At most the first `n` items.
pub open spec fn front<A>(list: Seq<A>, n: int) -> Seq<A> {
    if list.len() <= n {
        list
    } else {
        list.take(n)
    }
}

/// At most the last `n` items.
pub open spec fn back<A>(list: Seq<A>, n: int) -> Seq<A> {
    if list.len() <= n {
        list
    } else {
        list.skip(list.len() - n)
    }
}

/// The borrowed texts of a list from `a` up to `b`.
pub fn sublist<'a>(list: &Vec<&'a str>, a: usize, b: usize) -> (r: Vec<&'a str>)
    requires
        a <= b <= list.len(),
    ensures
        strs(r@) == strs(list@).subrange(a as int, b as int),
        r.len() == b - a,
{
    let mut out: Vec<&'a str> = Vec::new();
    assert(strs(out@) =~= strs(list@).subrange(a as int, a as int));
    for i in a..b
        invariant
            a <= i,
            b <= list.len(),
            out.len() == i - a,
            strs(out@) == strs(list@).subrange(a as int, i as int),
    {
        out.push(list[i]);
        assert(strs(out@) =~= strs(list@).subrange(a as int, i + 1));
    }
    out
}

/// The first texts of a list, see [`front`].
pub fn take_front<'a>(list: &Vec<&'a str>, n: usize) -> (r: Vec<&'a str>)
    ensures
        strs(r@) == front(strs(list@), n as int),
{
    assert(strs(list@).len() == list.len());
    if list.len() <= n {
        let r = sublist(list, 0, list.len());
        assert(strs(list@).subrange(0, list.len() as int) =~= strs(list@));
        r
    } else {
        let r = sublist(list, 0, n);
        assert(strs(list@).subrange(0, n as int) =~= strs(list@).take(n as int));
        r
    }
}

/// The last texts of a list, see [`back`].
pub fn take_back<'a>(list: &Vec<&'a str>, n: usize) -> (r: Vec<&'a str>)
    ensures
        strs(r@) == back(strs(list@), n as int),
{
    assert(strs(list@).len() == list.len());
    if list.len() <= n {
        let r = sublist(list, 0, list.len());
        assert(strs(list@).subrange(0, list.len() as int) =~= strs(list@));
        r
    } else {
        let r = sublist(list, list.len() - n, list.len());
        assert(strs(list@).subrange(list.len() - n, list.len() as int) =~= strs(list@).skip(
            list.len() - n,
        ));
        r
    }
}

/// Lines without trailing white space, each shortened.
pub open spec fn short_lines(list: Seq<Seq<char>>, limit: nat) -> Seq<Seq<char>> {
    list.map_values(|line: Seq<char>| shortened(bare_end(line), limit))
}

/// Computes [`short_lines`].
pub fn shorten_lines(list: &Vec<&str>, limit: usize) -> (r: Vec<String>)
    ensures
        strings(r@) == short_lines(strs(list@), limit as nat),
{
    let ghost wanted = short_lines(strs(list@), limit as nat);
    let mut out: Vec<String> = Vec::new();
    for i in 0..list.len()
        invariant
            wanted == short_lines(strs(list@), limit as nat),
            strings(out@) == wanted.take(i as int),
    {
        proof {
            prefix_step(wanted, i as int);
        }
        out.push(truncate_line(trim_end(list[i]), limit));
    }
    proof {
        prefix_all(wanted);
    }
    out
}

/// A shortened text keeps to its limit, and a text that does so already is not changed.
pub proof fn shortening_fits(text: Seq<char>, limit: nat)
    requires
        limit > 0,
    ensures
        shortened(text, limit).len() <= limit,
        text.len() <= limit ==> shortened(text, limit) == text,
        shortened(shortened(text, limit), limit) == shortened(text, limit),
{
    reveal_strlit("…");
}

/// A text that a shell would take apart stands between quotes, and no other does.
pub proof fn plain_arguments_stay_plain(text: Seq<char>)
    ensures
        plain_argument(text) ==> shell_quoted(text) == text,
        !plain_argument(text) ==> shell_quoted(text).len() >= 2 && shell_quoted(text).first() == '"'
            && shell_quoted(text).last() == '"',
{
    reveal_strlit("\"");
}

} // verus!

//! What splitting, joining, aligning and reading do, on every text.
use crate::path::{
    base_name, components, extension_of, full_parts, lean_file, lies_under, list_ends, path_ends,
    placed_under, real_parts, remainder, stem_of,
};
use crate::text::chain::rcut_at_mark;
use crate::text::class::{whitespace, Class};
use crate::text::layout::{brief_hash, one_line, quoted_chars};
use crate::text::make::joined;
use crate::text::number::{
    decimal, decimal_digits, decimal_reads_back, left_aligned, right_aligned, signed_decimal,
    signed_number,
};
use crate::text::pieces::{
    fields, first_in, first_in_bounds, first_in_is, line_list, nonempty_of, pieces, words,
};
use crate::text::scan::{
    begins, ends, find_from_is_first, find_text, occurs_at, rfind_from_is_last, rfind_text,
};
use vstd::prelude::*;

verus! {

proof fn joined_first(first: Seq<char>, rest: Seq<Seq<char>>, separator: Seq<char>)
    requires
        rest.len() > 0,
    ensures
        joined(seq![first] + rest, separator) == first + separator + joined(rest, separator),
    decreases rest.len(),
{
    let all = seq![first] + rest;
    if rest.len() == 1 {
        assert(all.drop_last() =~= seq![first]);
        assert(joined(all.drop_last(), separator) == first);
        assert(all.last() == rest[0]);
    } else {
        joined_first(first, rest.drop_last(), separator);
        assert(all.drop_last() =~= seq![first] + rest.drop_last());
        assert(all.last() == rest.last());
        assert(joined(all, separator) =~= first + separator + joined(rest, separator));
    }
}

/// What stands between two marks holds no mark, and put together again with a mark between
/// each two the pieces are the text.
pub proof fn pieces_are_the_text(text: Seq<char>, mark: char)
    ensures
        pieces(text, Class::Is(mark)).len() > 0,
        forall|i: int|
            0 <= i < pieces(text, Class::Is(mark)).len() ==> !(#[trigger] pieces(
                text,
                Class::Is(mark),
            )[i]).contains(mark),
        joined(pieces(text, Class::Is(mark)), seq![mark]) == text,
    decreases text.len(),
{
    let class = Class::Is(mark);
    let i = first_in(text, class);
    first_in_bounds(text, class);
    if i < text.len() {
        let rest = text.skip(i + 1);
        pieces_are_the_text(rest, mark);
        joined_first(text.take(i), pieces(rest, class), seq![mark]);
        assert(text =~= text.take(i) + seq![mark] + rest);
        if text.take(i).contains(mark) {
            let k = text.take(i).index_of(mark);
            assert(text[k] == mark);
        }
    } else {
        assert(pieces(text, class) =~= seq![text]);
        if text.contains(mark) {
            let k = text.index_of(mark);
            assert(text[k] == mark);
        }
    }
}

/// A text that begins with something without a mark, and then a mark, has that as its first
/// piece.
pub proof fn first_piece(front: Seq<char>, mark: char, tail: Seq<char>)
    requires
        !front.contains(mark),
    ensures
        pieces(front + seq![mark] + tail, Class::Is(mark)) == seq![front] + pieces(
            tail,
            Class::Is(mark),
        ),
        pieces(front, Class::Is(mark)) == seq![front],
{
    let text = front + seq![mark] + tail;
    let n = front.len() as int;
    assert forall|j: int| 0 <= j < n implies !Class::Is(mark).has(#[trigger] text[j]) by {
        assert(front[j] == text[j]);
    }
    first_in_is(text, Class::Is(mark), n);
    assert(text.take(n) =~= front);
    assert(text.skip(n + 1) =~= tail);
    assert forall|j: int| 0 <= j < n implies !Class::Is(mark).has(#[trigger] front[j]) by {}
    first_in_is(front, Class::Is(mark), n);
}

/// Lines are read back as they were written, one after another.
pub proof fn lines_read_back(line: Seq<char>, rest: Seq<char>)
    requires
        !line.contains('\n'),
        line.len() > 0 ==> line.last() != '\r',
    ensures
        line_list(line + seq!['\n'] + rest) == seq![line] + line_list(rest),
        line.len() > 0 ==> line_list(line) == seq![line],
        line_list(Seq::empty()).len() == 0,
{
    let text = line + seq!['\n'] + rest;
    let n = line.len() as int;
    assert forall|j: int| 0 <= j < n implies !Class::Is('\n').has(#[trigger] text[j]) by {
        assert(line[j] == text[j]);
    }
    first_in_is(text, Class::Is('\n'), n);
    assert(text.take(n) =~= line);
    assert(text.skip(n + 1) =~= rest);
    assert forall|j: int| 0 <= j < n implies !Class::Is('\n').has(#[trigger] line[j]) by {}
    first_in_is(line, Class::Is('\n'), n);
}

proof fn nonempty_first(first: Seq<char>, rest: Seq<Seq<char>>)
    ensures
        nonempty_of(seq![first] + rest) == (if first.len() == 0 {
            nonempty_of(rest)
        } else {
            seq![first] + nonempty_of(rest)
        }),
    decreases rest.len(),
{
    let all = seq![first] + rest;
    if rest.len() == 0 {
        assert(all.drop_last() =~= Seq::<Seq<char>>::empty());
        assert(nonempty_of(all.drop_last()) =~= Seq::<Seq<char>>::empty());
        assert(nonempty_of(all) =~= if first.len() == 0 {
            nonempty_of(rest)
        } else {
            seq![first] + nonempty_of(rest)
        });
    } else {
        nonempty_first(first, rest.drop_last());
        assert(all.drop_last() =~= seq![first] + rest.drop_last());
        assert(all.last() == rest.last());
        assert(nonempty_of(all) =~= if first.len() == 0 {
            nonempty_of(rest)
        } else {
            seq![first] + nonempty_of(rest)
        });
    }
}

/// A word is what stands before white space: it is the first word of the text, and the
/// others are those of what follows; white space before a text changes nothing.
pub proof fn words_are_read_one_by_one(word: Seq<char>, space: char, rest: Seq<char>)
    requires
        word.len() > 0,
        forall|i: int| 0 <= i < word.len() ==> !whitespace(#[trigger] word[i]),
        whitespace(space),
    ensures
        words(word + seq![space] + rest) == seq![word] + words(rest),
        words(seq![space] + rest) == words(rest),
        words(word) == seq![word],
        words(Seq::empty()).len() == 0,
{
    let text = word + seq![space] + rest;
    let n = word.len() as int;
    assert forall|j: int| 0 <= j < n implies !Class::Space.has(#[trigger] text[j]) by {
        assert(word[j] == text[j]);
    }
    first_in_is(text, Class::Space, n);
    assert(text.take(n) =~= word);
    assert(text.skip(n + 1) =~= rest);
    nonempty_first(word, pieces(rest, Class::Space));
    let later = seq![space] + rest;
    first_in_is(later, Class::Space, 0);
    assert(later.take(0) =~= Seq::<char>::empty());
    assert(later.skip(1) =~= rest);
    nonempty_first(Seq::empty(), pieces(rest, Class::Space));
    first_in_is(word, Class::Space, n);
    assert(pieces(word, Class::Space) =~= seq![word] + Seq::<Seq<char>>::empty());
    nonempty_first(word, Seq::empty());
    assert(nonempty_of(Seq::<Seq<char>>::empty()) =~= Seq::<Seq<char>>::empty());
    let nothing = Seq::<char>::empty();
    assert(pieces(nothing, Class::Space) =~= seq![nothing] + Seq::<Seq<char>>::empty());
    nonempty_first(nothing, Seq::empty());
}

/// A text that is not empty and without white space.
pub open spec fn unspaced(text: Seq<char>) -> bool {
    text.len() > 0 && forall|j: int| 0 <= j < text.len() ==> !whitespace(#[trigger] text[j])
}

/// Every word is without white space, and none is empty.
pub proof fn words_hold_no_space(text: Seq<char>)
    ensures
        forall|i: int| 0 <= i < words(text).len() ==> unspaced(#[trigger] words(text)[i]),
    decreases text.len(),
{
    let class = Class::Space;
    let n = first_in(text, class);
    first_in_bounds(text, class);
    let word = text.take(n);
    assert forall|j: int| 0 <= j < word.len() implies !whitespace(#[trigger] word[j]) by {
        assert(text[j] == word[j]);
    }
    if n < text.len() {
        let rest = text.skip(n + 1);
        words_hold_no_space(rest);
        nonempty_first(word, pieces(rest, class));
        assert forall|i: int| 0 <= i < words(text).len() implies unspaced(
            #[trigger] words(text)[i],
        ) by {
            if word.len() == 0 {
                assert(words(text) == words(rest));
            } else if i > 0 {
                assert(words(text)[i] == words(rest)[i - 1]);
            } else {
                assert(words(text)[i] == word);
            }
        }
    } else {
        assert(word =~= text);
        assert(pieces(text, class) =~= seq![text] + Seq::<Seq<char>>::empty());
        nonempty_first(text, Seq::empty());
        assert(nonempty_of(Seq::<Seq<char>>::empty()) =~= Seq::<Seq<char>>::empty());
        assert forall|i: int| 0 <= i < words(text).len() implies unspaced(
            #[trigger] words(text)[i],
        ) by {
            assert(words(text)[i] == text);
        }
    }
}

proof fn words_of_joined(list: Seq<Seq<char>>)
    requires
        forall|i: int| 0 <= i < list.len() ==> unspaced(#[trigger] list[i]),
    ensures
        words(joined(list, " "@)) == list,
    decreases list.len(),
{
    reveal_strlit(" ");
    assert(" "@ =~= seq![' ']);
    if list.len() == 0 {
        words_are_read_one_by_one(seq!['a'], ' ', Seq::empty());
        assert(words(joined(list, " "@)) =~= list);
    } else {
        let rest = list.skip(1);
        assert forall|i: int| 0 <= i < rest.len() implies unspaced(
            #[trigger] rest[i],
        ) by {
            assert(rest[i] == list[i + 1]);
        }
        words_of_joined(rest);
        assert(unspaced(list[0]));
        words_are_read_one_by_one(list[0], ' ', joined(rest, " "@));
        assert(list =~= seq![list[0]] + rest);
        if rest.len() > 0 {
            joined_first(list[0], rest, " "@);
        } else {
            assert(list =~= seq![list[0]]);
        }
    }
}

/// A text on one line has the words that it had.
pub proof fn one_line_keeps_the_words(text: Seq<char>)
    ensures
        words(one_line(text)) == words(text),
        one_line(one_line(text)) == one_line(text),
{
    words_hold_no_space(text);
    words_of_joined(words(text));
}

/// What stands before the first separator is the first field, and the others are those of
/// what follows it; without one the text is its only field.
pub proof fn fields_are_read_one_by_one(front: Seq<char>, separator: Seq<char>, tail: Seq<char>)
    requires
        separator.len() > 0,
        forall|i: int|
            0 <= i < front.len() ==> !#[trigger] occurs_at(front + separator + tail, separator, i),
    ensures
        fields(front + separator + tail, separator) == seq![front] + fields(tail, separator),
        find_text(tail, separator) is None ==> fields(tail, separator) == seq![tail],
{
    let text = front + separator + tail;
    let n = front.len() as int;
    assert(text.subrange(n, n + separator.len()) =~= separator);
    assert(occurs_at(text, separator, n));
    find_from_is_first(text, separator, 0);
    assert(find_text(text, separator) == Some(n));
    assert(text.take(n) =~= front);
    assert(text.skip(n + separator.len()) =~= tail);
}

/// Aligned text is as wide as was asked, or as wide as it was where it was wider; it stands
/// at its side, and the rest is spaces.
pub proof fn aligned_text_keeps_its_side(text: Seq<char>, width: nat)
    ensures
        right_aligned(text, width).len() == if text.len() > width {
            text.len()
        } else {
            width
        },
        left_aligned(text, width).len() == right_aligned(text, width).len(),
        ends(right_aligned(text, width), text),
        begins(left_aligned(text, width), text),
        forall|i: int|
            0 <= i < right_aligned(text, width).len() - text.len() ==> #[trigger] right_aligned(
                text,
                width,
            )[i] == ' ',
        forall|i: int|
            text.len() <= i < left_aligned(text, width).len() ==> #[trigger] left_aligned(
                text,
                width,
            )[i] == ' ',
{
    let right = right_aligned(text, width);
    assert(right.skip(right.len() - text.len()) =~= text);
    assert(left_aligned(text, width).take(text.len() as int) =~= text);
}

/// A number reads back as it was written, whatever its sign.
pub proof fn signed_numbers_read_back(n: i64)
    ensures
        signed_number(signed_decimal(n as int)) == Some(n as int),
{
    reveal_strlit("-");
    if n < 0 {
        let m = (-(n as int)) as nat;
        let text = signed_decimal(n as int);
        assert(text.skip(1) =~= decimal(m));
        decimal_digits(m);
        decimal_reads_back(m, (-(i64::MIN as int)) as nat);
        assert(crate::text::class::digit(decimal(m)[0]));
    } else {
        decimal_reads_back(n as nat, i64::MAX as nat);
        decimal_digits(n as nat);
        assert(crate::text::class::digit(decimal(n as nat)[0]));
    }
}

/// Between double quotes every quote, backslash, dollar sign and backtick stands behind a
/// backslash, and every other character stands as it is.
pub proof fn quoting_guards_special_characters(text: Seq<char>, c: char)
    ensures
        quoted_chars(text.push(c)) == quoted_chars(text) + if c == '"' || c == '\\' || c == '$' || c
            == '`' {
            seq!['\\', c]
        } else {
            seq![c]
        },
        quoted_chars(Seq::empty()) == Seq::<char>::empty(),
{
    assert(text.push(c).drop_last() =~= text);
}

/// A short name of a commit begins the whole name and has at most twelve characters.
pub proof fn short_names_begin_the_whole(hash: Seq<char>)
    ensures
        begins(hash, brief_hash(hash)),
        brief_hash(hash).len() == if hash.len() < 12 {
            hash.len()
        } else {
            12
        },
{
    assert(hash.take(hash.len() as int) =~= hash);
}

/// Every path lies at itself; what lies under a path under another lies under that; and
/// what remains under a root is as long as the path is longer.
pub proof fn lying_under_is_an_order(a: Seq<char>, b: Seq<char>, c: Seq<char>)
    ensures
        lies_under(a, a),
        lies_under(a, b) && lies_under(b, c) ==> lies_under(a, c),
        lies_under(a, b) <==> remainder(a, b) is Some,
        remainder(a, b) matches Some(rest) ==> full_parts(b) + rest == full_parts(a),
{
    let p = full_parts(a);
    let q = full_parts(b);
    let r = full_parts(c);
    assert(p.take(p.len() as int) =~= p);
    if lies_under(a, b) {
        assert(p =~= p.take(q.len() as int) + p.skip(q.len() as int));
        if lies_under(b, c) {
            assert(p.take(r.len() as int) =~= q.take(r.len() as int));
        }
    }
}

/// A path that begins at the root stays where it is put; any other is put behind a slash.
pub proof fn placed_paths_follow_their_root(root: Seq<char>, path: Seq<char>)
    ensures
        begins(path, "/"@) ==> placed_under(root, path) == path,
        !begins(path, "/"@) && root.len() > 0 && root.last() != '/' ==> placed_under(root, path)
            == root + "/"@ + path,
        !begins(path, "/"@) && root.len() > 0 && root.last() == '/' ==> placed_under(root, path)
            == root + path,
{
    reveal_strlit("/");
    if begins(path, "/"@) {
        assert(path.take(1)[0] == '/');
    }
    if path.len() > 0 && path[0] == '/' {
        assert(path.take(1) =~= "/"@);
    }
}

/// A part more in front is kept where it counts.
proof fn real_first(first: Seq<char>, rest: Seq<Seq<char>>)
    ensures
        real_parts(seq![first] + rest) == (if first.len() == 0 || first == "."@ {
            Seq::empty()
        } else {
            seq![first]
        }) + real_parts(rest),
    decreases rest.len(),
{
    let list = seq![first] + rest;
    if rest.len() == 0 {
        assert(list.drop_last() =~= Seq::<Seq<char>>::empty());
        assert(list.last() == first);
        assert(real_parts(list.drop_last()) =~= Seq::<Seq<char>>::empty());
        assert(real_parts(list) =~= if first.len() == 0 || first == "."@ {
            Seq::empty()
        } else {
            seq![first]
        });
    } else {
        assert(list.drop_last() =~= seq![first] + rest.drop_last());
        assert(list.last() == rest.last());
        real_first(first, rest.drop_last());
        assert(real_parts(list) =~= (if first.len() == 0 || first == "."@ {
            Seq::empty()
        } else {
            seq![first]
        }) + real_parts(rest));
    }
}

/// The components of a path are what stands between its slashes, but for what is empty and
/// for a single dot.
pub proof fn paths_are_read_part_by_part(part: Seq<char>, rest: Seq<char>)
    requires
        !part.contains('/'),
    ensures
        part.len() > 0 && part != "."@ ==> {
            &&& components(part) == seq![part]
            &&& components(part + "/"@ + rest) == seq![part] + components(rest)
        },
        part.len() == 0 || part == "."@ ==> {
            &&& components(part).len() == 0
            &&& components(part + "/"@ + rest) == components(rest)
        },
{
    reveal_strlit("/");
    assert("/"@ =~= seq!['/']);
    first_piece(part, '/', rest);
    real_first(part, Seq::empty());
    assert(seq![part] + Seq::<Seq<char>>::empty() =~= seq![part]);
    real_first(part, pieces(rest, Class::Is('/')));
    assert(real_parts(Seq::empty()) =~= Seq::<Seq<char>>::empty());
    if part.len() > 0 && part != "."@ {
        assert(components(part) =~= seq![part]);
    } else {
        assert(components(part + "/"@ + rest) =~= components(rest));
    }
}

/// The name of a file is its last component, whatever directory it stands in.
pub proof fn files_are_named_by_their_last_part(part: Seq<char>, name: Seq<char>, rest: Seq<char>)
    requires
        !part.contains('/'),
        !name.contains('/'),
    ensures
        name.len() > 0 && name != "."@ && name != ".."@ ==> base_name(name) == Some(name),
        base_name(".."@) is None,
        components(rest).len() > 0 ==> base_name(part + "/"@ + rest) == base_name(rest),
{
    paths_are_read_part_by_part(name, rest);
    paths_are_read_part_by_part(part, rest);
    reveal_strlit("..");
    reveal_strlit(".");
    assert(".."@.len() != "."@.len());
    assert(!".."@.contains('/'));
    paths_are_read_part_by_part(".."@, rest);
}

/// What follows the last dot of a file name is its extension, and what stands before it is
/// its stem; a name that only begins with a dot has none.
pub proof fn extensions_follow_the_last_dot(stem: Seq<char>, found: Seq<char>)
    requires
        !stem.contains('/'),
        !found.contains('/'),
        !found.contains('.'),
        stem.len() > 0,
        stem != "."@ || found.len() > 0,
    ensures
        extension_of(stem + "."@ + found) == Some(found),
        stem_of(stem + "."@ + found) == Some(stem),
        lean_file(stem + "."@ + found) <==> found == "lean"@,
        found.len() > 0 ==> extension_of("."@ + found) is None && stem_of("."@ + found) == Some(
            "."@ + found,
        ),
{
    reveal_strlit(".");
    reveal_strlit("..");
    let name = stem + "."@ + found;
    let n = stem.len() as int;
    assert forall|k: int| 0 <= k < name.len() implies name[k] != '/' by {
        if k < n {
            assert(stem[k] == name[k]);
        } else if k > n {
            assert(found[k - n - 1] == name[k]);
        }
    }
    assert(name.len() == n + 1 + found.len());
    assert(name != "."@);
    assert(name != ".."@) by {
        if name == ".."@ {
            if n == 1 {
                assert(stem =~= "."@) by {
                    assert(stem[0] == name[0]);
                }
            }
            assert(n == 1 && found.len() == 0);
        }
    }
    files_are_named_by_their_last_part(Seq::empty(), name, Seq::empty());
    rcut_at_mark(stem, "."@, found);
    rfind_from_is_last(name, "."@, name.len() - 1);
    let i = rfind_text(name, "."@)->0;
    assert(name.take(i).len() == i);
    if found.len() > 0 {
        let plain = "."@ + found;
        assert forall|k: int| 0 <= k < plain.len() implies plain[k] != '/' by {
            if k > 0 {
                assert(found[k - 1] == plain[k]);
            }
        }
        assert(plain[1] == found[0]);
        assert(".."@[1] == '.');
        files_are_named_by_their_last_part(Seq::empty(), plain, Seq::empty());
        rcut_at_mark(Seq::empty(), "."@, found);
        assert(Seq::<char>::empty() + "."@ + found =~= plain);
        rfind_from_is_last(plain, "."@, plain.len() - 1);
        let j = rfind_text(plain, "."@)->0;
        assert(plain.take(j).len() == j);
    }
}

/// Every path ends with itself, and with what its end ends with; what a path ends with stands
/// behind some components.
pub proof fn ending_is_an_order(a: Seq<char>, b: Seq<char>, c: Seq<char>, front: Seq<Seq<char>>)
    ensures
        path_ends(a, a),
        path_ends(a, b) && path_ends(b, c) ==> path_ends(a, c),
        path_ends(a, b) && path_ends(b, a) ==> full_parts(a) == full_parts(b),
        full_parts(a) == front + full_parts(b) ==> path_ends(a, b),
        list_ends(front, full_parts(a)) ==> front.len() >= full_parts(a).len(),
{
    let p = full_parts(a);
    let q = full_parts(b);
    let r = full_parts(c);
    assert(p.skip(0) =~= p);
    if path_ends(a, b) && path_ends(b, c) {
        assert(p.skip(p.len() - r.len()) =~= q.skip(q.len() - r.len()));
    }
    if p == front + q {
        assert(p.skip(p.len() - q.len()) =~= q);
    }
}

} // verus!

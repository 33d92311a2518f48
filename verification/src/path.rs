//! Paths as text, taken apart as on Unix.
use crate::text::class::Class;
use crate::text::layout::sublist;
use crate::text::make::{
    cat2, cat3, join_strs, joined, own, prefix_all, prefix_step, same, strs, strs_push,
};
use crate::text::pieces::{pieces, split};
use crate::text::scan::{begins, from_index, starts_with, opt_str, rfind, rfind_text, up_to};
use vstd::prelude::*;

verus! {

broadcast use strs_push;

/// The parts that count: neither empty nor a single dot.
pub open spec fn real_parts(list: Seq<Seq<char>>) -> Seq<Seq<char>>
    decreases list.len(),
{
    if list.len() == 0 {
        Seq::empty()
    } else if list.last().len() == 0 || list.last() == "."@ {
        real_parts(list.drop_last())
    } else {
        real_parts(list.drop_last()).push(list.last())
    }
}

/// The components of a path between its slashes.
pub open spec fn components(path: Seq<char>) -> Seq<Seq<char>> {
    real_parts(pieces(path, Class::Is('/')))
}

/// Computes [`components`].
pub fn split_path<'a>(path: &'a str) -> (r: Vec<&'a str>)
    ensures
        strs(r@) == components(path@),
{
    let parts = split(path, Class::Is('/'));
    let mut out: Vec<&'a str> = Vec::new();
    for i in 0..parts.len()
        invariant
            strs(out@) == real_parts(strs(parts@).take(i as int)),
    {
        proof {
            prefix_step(strs(parts@), i as int);
        }
        if !parts[i].is_empty() && !same(parts[i], ".") {
            out.push(parts[i]);
        }
    }
    proof {
        prefix_all(strs(parts@));
    }
    out
}

/// The last component, unless it goes up.
pub open spec fn base_name(path: Seq<char>) -> Option<Seq<char>> {
    let parts = components(path);
    if parts.len() == 0 || parts.last() == ".."@ {
        None
    } else {
        Some(parts.last())
    }
}

/// Computes [`base_name`].
pub fn file_name<'a>(path: &'a str) -> (r: Option<&'a str>)
    ensures
        opt_str(r) == base_name(path@),
{
    let parts = split_path(path);
    if parts.len() == 0 {
        return None;
    }
    let last = parts[parts.len() - 1];
    assert(strs(parts@).last() == last@);
    if same(last, "..") {
        None
    } else {
        Some(last)
    }
}

/// Where the extension's dot stands in a file name: the last dot, unless the name
/// begins with it.
pub open spec fn extension_dot(name: Seq<char>) -> Option<int> {
    match rfind_text(name, "."@) {
        Some(i) => if i > 0 {
            Some(i)
        } else {
            None
        },
        None => None,
    }
}

/// What follows the last dot of the file name.
pub open spec fn extension_of(path: Seq<char>) -> Option<Seq<char>> {
    match base_name(path) {
        Some(name) => match extension_dot(name) {
            Some(i) => Some(name.skip(i + 1)),
            None => None,
        },
        None => None,
    }
}

/// The file name without its extension.
pub open spec fn stem_of(path: Seq<char>) -> Option<Seq<char>> {
    match base_name(path) {
        Some(name) => match extension_dot(name) {
            Some(i) => Some(name.take(i)),
            None => Some(name),
        },
        None => None,
    }
}

/// Computes [`extension_of`].
pub fn extension<'a>(path: &'a str) -> (r: Option<&'a str>)
    ensures
        opt_str(r) == extension_of(path@),
{
    match file_name(path) {
        Some(name) => {
            let length = name.unicode_len();
            proof {
                reveal_strlit(".");
            }
            match rfind(name, ".") {
                Some(i) => if i > 0 {
                    Some(from_index(name, i + 1))
                } else {
                    None
                },
                None => None,
            }
        },
        None => None,
    }
}

/// Computes [`stem_of`].
pub fn file_stem<'a>(path: &'a str) -> (r: Option<&'a str>)
    ensures
        opt_str(r) == stem_of(path@),
{
    match file_name(path) {
        Some(name) => match rfind(name, ".") {
            Some(i) => if i > 0 {
                Some(up_to(name, i))
            } else {
                Some(name)
            },
            None => Some(name),
        },
        None => None,
    }
}

/// A path whose extension is exactly `lean`.
pub open spec fn lean_file(path: Seq<char>) -> bool {
    extension_of(path) == Some("lean"@)
}

/// Decides [`lean_file`].
pub fn is_lean_file(path: &str) -> (r: bool)
    ensures
        r == lean_file(path@),
{
    match extension(path) {
        Some(found) => same(found, "lean"),
        None => false,
    }
}

/// A path from the root on.
pub open spec fn absolute(path: Seq<char>) -> bool {
    path.len() > 0 && path[0] == '/'
}

/// Decides [`absolute`].
pub fn is_absolute(path: &str) -> (r: bool)
    ensures
        r == absolute(path@),
{
    path.unicode_len() > 0 && path.get_char(0) == '/'
}

/// A path under a directory.
pub open spec fn placed_under(root: Seq<char>, path: Seq<char>) -> Seq<char> {
    if absolute(path) || root.len() == 0 {
        path
    } else if root.last() == '/' {
        root + path
    } else {
        root + "/"@ + path
    }
}

/// Computes [`placed_under`].
pub fn join_path(root: &str, path: &str) -> (r: String)
    ensures
        r@ == placed_under(root@, path@),
{
    let length = root.unicode_len();
    if is_absolute(path) || length == 0 {
        own(path)
    } else if root.get_char(length - 1) == '/' {
        cat2(root, path)
    } else {
        cat3(root, "/", path)
    }
}

/// A path that begins with the current directory.
pub open spec fn dotted(path: Seq<char>) -> bool {
    path == "."@ || begins(path, "./"@)
}

/// The components of a path, with its root or the current directory where it begins
/// there.
pub open spec fn full_parts(path: Seq<char>) -> Seq<Seq<char>> {
    if absolute(path) {
        seq!["/"@] + components(path)
    } else if dotted(path) {
        seq!["."@] + components(path)
    } else {
        components(path)
    }
}

/// Computes [`full_parts`].
pub fn split_full<'a>(path: &'a str) -> (r: Vec<&'a str>)
    ensures
        strs(r@) == full_parts(path@),
{
    let mut rest = split_path(path);
    let mut out: Vec<&'a str> = Vec::new();
    if is_absolute(path) {
        out.push("/");
        assert(strs(out@) =~= seq!["/"@]);
    } else if same(path, ".") || starts_with(path, "./") {
        out.push(".");
        assert(strs(out@) =~= seq!["."@]);
    } else {
        return rest;
    }
    let ghost first = strs(out@);
    let ghost added = strs(rest@);
    out.append(&mut rest);
    assert(strs(out@) =~= first + added);
    out
}

/// `path` lies at or under `root`, component by component. Every path lies under the
/// empty one.
pub open spec fn lies_under(path: Seq<char>, root: Seq<char>) -> bool {
    let p = full_parts(path);
    let r = full_parts(root);
    r.len() <= p.len() && p.take(r.len() as int) == r
}

/// Decides [`lies_under`].
pub fn is_under(path: &str, root: &str) -> (r: bool)
    ensures
        r == lies_under(path@, root@),
{
    let p = split_full(path);
    let q = split_full(root);
    assert(strs(p@).len() == p.len() && strs(q@).len() == q.len());
    if q.len() > p.len() {
        return false;
    }
    for i in 0..q.len()
        invariant
            q.len() <= p.len(),
            strs(q@) == full_parts(root@),
            strs(p@) == full_parts(path@),
            forall|j: int| 0 <= j < i ==> strs(p@)[j] == strs(q@)[j],
    {
        if !same(p[i], q[i]) {
            assert(strs(p@).take(q.len() as int)[i as int] != strs(q@)[i as int]);
            return false;
        }
    }
    assert(strs(p@).take(q.len() as int) =~= strs(q@));
    true
}

/// What remains of a path under a root, if it lies there.
pub open spec fn remainder(path: Seq<char>, root: Seq<char>) -> Option<Seq<Seq<char>>> {
    if lies_under(path, root) {
        Some(full_parts(path).skip(full_parts(root).len() as int))
    } else {
        None
    }
}

/// The contents of an optional list.
pub open spec fn opt_strs(list: Option<Vec<&str>>) -> Option<Seq<Seq<char>>> {
    match list {
        Some(parts) => Some(strs(parts@)),
        None => None,
    }
}

/// Computes [`remainder`].
pub fn strip_root<'a>(path: &'a str, root: &str) -> (r: Option<Vec<&'a str>>)
    ensures
        opt_strs(r) == remainder(path@, root@),
{
    if !is_under(path, root) {
        return None;
    }
    let parts = split_full(path);
    let skipped = split_full(root).len();
    assert(strs(parts@).len() == parts.len());
    let ghost wanted = strs(parts@).skip(skipped as int);
    let mut out: Vec<&'a str> = Vec::new();
    assert(strs(out@) =~= wanted.take(0));
    for i in skipped..parts.len()
        invariant
            skipped <= i,
            wanted == strs(parts@).skip(skipped as int),
            strs(out@) == wanted.take(i - skipped),
    {
        proof {
            prefix_step(wanted, i - skipped);
        }
        out.push(parts[i]);
    }
    proof {
        prefix_all(wanted);
    }
    Some(out)
}

/// The path that some components make up.
pub open spec fn path_of(parts: Seq<Seq<char>>) -> Seq<char> {
    if parts.len() > 0 && parts[0] == "/"@ {
        "/"@ + joined(parts.skip(1), "/"@)
    } else {
        joined(parts, "/"@)
    }
}

/// Computes [`path_of`].
pub fn join_parts(parts: &Vec<&str>) -> (r: String)
    ensures
        r@ == path_of(strs(parts@)),
{
    assert(strs(parts@).len() == parts.len());
    if parts.len() > 0 && same(parts[0], "/") {
        let rest = sublist(parts, 1, parts.len());
        assert(strs(rest@) =~= strs(parts@).skip(1));
        cat2("/", join_strs(&rest, "/").as_str())
    } else {
        join_strs(parts, "/")
    }
}

/// Whether a list of components ends with another.
pub open spec fn list_ends(list: Seq<Seq<char>>, tail: Seq<Seq<char>>) -> bool {
    tail.len() <= list.len() && list.skip(list.len() - tail.len()) == tail
}

/// Decides [`list_ends`].
pub fn ends_with_parts(list: &Vec<&str>, tail: &Vec<&str>) -> (r: bool)
    ensures
        r == list_ends(strs(list@), strs(tail@)),
{
    let ghost a = strs(list@);
    let ghost b = strs(tail@);
    assert(a.len() == list.len() && b.len() == tail.len());
    if tail.len() > list.len() {
        return false;
    }
    let skipped = list.len() - tail.len();
    for i in 0..tail.len()
        invariant
            a == strs(list@),
            b == strs(tail@),
            a.len() == list.len(),
            b.len() == tail.len(),
            skipped + tail.len() == list.len(),
            forall|j: int| 0 <= j < i ==> a[skipped + j] == b[j],
    {
        assert(a[skipped + i] == list@[skipped + i]@);
        assert(b[i as int] == tail@[i as int]@);
        if !same(list[skipped + i], tail[i]) {
            assert(a.skip(skipped as int)[i as int] != b[i as int]);
            return false;
        }
    }
    assert(a.skip(skipped as int) =~= b);
    true
}

/// A path ends with another, component by component.
pub open spec fn path_ends(path: Seq<char>, tail: Seq<char>) -> bool {
    list_ends(full_parts(path), full_parts(tail))
}

/// Decides [`path_ends`].
pub fn has_path_end(path: &str, tail: &str) -> (r: bool)
    ensures
        r == path_ends(path@, tail@),
{
    ends_with_parts(&split_full(path), &split_full(tail))
}

} // verus!

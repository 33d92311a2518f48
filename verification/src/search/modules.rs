//! Files of Lean source and the modules that they hold.
use crate::path::{
    base_name, extension_dot, file_name, full_parts, join_parts, path_of, remainder, split_full,
    strip_root,
};
use crate::search::exact::{sort_texts, sorted_texts};
use crate::search::warning::{replace_char, replaced};
use crate::text::class::{all_of, is_all, Class};
use crate::text::json::{json_text_at, read_json_text};
use crate::text::layout::sublist;
use crate::text::make::{
    cat2, join_strs, joined, own, prefix_all, prefix_step, same, strings, strings_push, strs,
    strs_push,
};
use crate::text::pieces::{has_string, pieces, split};
use crate::text::scan::{begins, ends, ends_with, opt_string, rfind, starts_with, up_to};
use vstd::prelude::*;

verus! {

broadcast use {strings_push, strs_push};

/// Where a source belongs.
#[derive(Clone, Copy, Debug, PartialEq, Eq, Structural)]
pub enum SourceKind {
    Project,
    Dependency,
    Stdlib,
}

/// Whether a directory entry is searched for sources.
pub open spec fn searched(name: Option<Seq<char>>, kind: SourceKind) -> bool {
    match name {
        Some(n) => match kind {
            SourceKind::Stdlib => !(n == ".git"@ || n == "build"@),
            _ => !(n == ".git"@ || n == ".lake"@ || n == "target"@),
        },
        None => true,
    }
}

/// Decides [`searched`] for the last component of a path.
pub fn source_entry(path: &str, kind: SourceKind) -> (r: bool)
    ensures
        r == searched(base_name(path@), kind),
{
    let Some(name) = file_name(path) else {
        return true;
    };
    match kind {
        SourceKind::Stdlib => !(same(name, ".git") || same(name, "build")),
        _ => !(same(name, ".git") || same(name, ".lake") || same(name, "target")),
    }
}

/// A path as it is shown: without the workspace, or else without the root that it
/// belongs to; that of the standard library under a name of its own.
pub open spec fn shown_path(
    path: Seq<char>,
    workspace: Seq<char>,
    root: Seq<char>,
    kind: SourceKind,
) -> Seq<char> {
    let in_root = match remainder(path, root) {
        Some(parts) => path_of(parts),
        None => path,
    };
    match kind {
        SourceKind::Stdlib => "<stdlib>/"@ + in_root,
        _ => match remainder(path, workspace) {
            Some(parts) => path_of(parts),
            None => in_root,
        },
    }
}

fn path_in(path: &str, root: &str) -> (r: String)
    ensures
        r@ == match remainder(path@, root@) {
            Some(parts) => path_of(parts),
            None => path@,
        },
{
    match strip_root(path, root) {
        Some(parts) => join_parts(&parts),
        None => own(path),
    }
}

/// Computes [`shown_path`].
pub fn display_path(path: &str, workspace: &str, root: &str, kind: SourceKind) -> (r: String)
    ensures
        r@ == shown_path(path@, workspace@, root@, kind),
{
    match kind {
        SourceKind::Stdlib => cat2("<stdlib>/", path_in(path, root).as_str()),
        _ => match strip_root(path, workspace) {
            Some(parts) => join_parts(&parts),
            None => path_in(path, root),
        },
    }
}

/// The components of a path under a root, or of the whole path where it lies elsewhere.
pub open spec fn parts_in(path: Seq<char>, root: Seq<char>) -> Seq<Seq<char>> {
    match remainder(path, root) {
        Some(parts) => parts,
        None => full_parts(path),
    }
}

fn collect_parts<'a>(path: &'a str, root: &str) -> (r: Vec<&'a str>)
    ensures
        strs(r@) == parts_in(path@, root@),
{
    match strip_root(path, root) {
        Some(parts) => parts,
        None => split_full(path),
    }
}

/// The first component of a package that names a library.
pub open spec fn library_name(part: Seq<char>) -> bool {
    ||| part == "Mathlib"@ || part == "Batteries"@ || part == "Cli"@
    ||| part == "Qq"@ || part == "Plausible"@
}

/// Decides [`library_name`].
pub fn is_library_name(part: &str) -> (r: bool)
    ensures
        r == library_name(part@),
{
    same(part, "Mathlib") || same(part, "Batteries") || same(part, "Cli") || same(part, "Qq")
        || same(part, "Plausible")
}

/// The first component from `i` on that names a library, or the number of components.
pub open spec fn library_from(parts: Seq<Seq<char>>, i: int) -> int
    decreases parts.len() - i,
{
    if i >= parts.len() || library_name(parts[i]) {
        i
    } else {
        library_from(parts, i + 1)
    }
}

fn find_library(parts: &Vec<&str>) -> (r: usize)
    ensures
        r == library_from(strs(parts@), 0),
        r <= parts.len(),
{
    for i in 0..parts.len()
        invariant
            library_from(strs(parts@), 0) == library_from(strs(parts@), i as int),
    {
        assert(strs(parts@)[i as int] == parts@[i as int]@);
        if is_library_name(parts[i]) {
            return i;
        }
    }
    assert(strs(parts@).len() == parts.len());
    parts.len()
}

/// A file name without its extension.
pub open spec fn sans_extension(name: Seq<char>) -> Seq<char> {
    match extension_dot(name) {
        Some(i) => if name == ".."@ {
            name
        } else {
            name.take(i)
        },
        None => name,
    }
}

fn drop_extension<'a>(name: &'a str) -> (r: &'a str)
    ensures
        r@ == sans_extension(name@),
{
    match rfind(name, ".") {
        Some(i) => if i > 0 && !same(name, "..") {
            up_to(name, i)
        } else {
            name
        },
        None => name,
    }
}

/// The components that name the module of a file: in a package they begin with the name
/// of the library where there is one.
pub open spec fn module_parts(path: Seq<char>, root: Seq<char>, kind: SourceKind) -> Seq<Seq<char>> {
    let parts = parts_in(path, root);
    let at = library_from(parts, 0);
    if kind == SourceKind::Dependency && at < parts.len() {
        parts.skip(at)
    } else {
        parts
    }
}

/// The module of a file.
pub open spec fn module_of(path: Seq<char>, root: Seq<char>, kind: SourceKind) -> Seq<char> {
    let parts = module_parts(path, root, kind);
    if parts.len() == 0 {
        ""@
    } else {
        joined(parts.drop_last().push(sans_extension(parts.last())), "."@)
    }
}

/// Computes [`module_of`].
pub fn module_name(path: &str, root: &str, kind: SourceKind) -> (r: String)
    ensures
        r@ == module_of(path@, root@, kind),
{
    let all = collect_parts(path, root);
    let ghost views = strs(all@);
    assert(views.len() == all.len());
    let mut start: usize = 0;
    if kind == SourceKind::Dependency {
        let at = find_library(&all);
        if at < all.len() {
            start = at;
        }
    }
    let ghost parts = module_parts(path@, root@, kind);
    assert(parts =~= views.subrange(start as int, views.len() as int));
    if all.len() == 0 {
        return own("");
    }
    let mut out = sublist(&all, start, all.len() - 1);
    assert(strs(out@) =~= parts.drop_last());
    let last = drop_extension(all[all.len() - 1]);
    assert(parts.last() == all@[all.len() - 1]@);
    out.push(last);
    join_strs(&out, ".")
}

/// A name that the index lists.
pub open spec fn indexable(name: Seq<char>) -> bool {
    let parts = pieces(name, Class::Is('.'));
    &&& name.len() > 0
    &&& !begins(name, "."@)
    &&& !ends(name, "."@)
    &&& forall|i: int|
        0 <= i < parts.len() ==> (#[trigger] parts[i]).len() > 0 && all_of(
            parts[i],
            Class::Word("_'"),
        )
}

/// Decides [`indexable`].
pub fn indexable_declaration_name(name: &str) -> (r: bool)
    ensures
        r == indexable(name@),
{
    if name.is_empty() || starts_with(name, ".") || ends_with(name, ".") {
        return false;
    }
    let parts = split(name, Class::Is('.'));
    assert(strs(parts@).len() == parts.len());
    for i in 0..parts.len()
        invariant
            strs(parts@) == pieces(name@, Class::Is('.')),
            strs(parts@).len() == parts.len(),
            forall|j: int|
                0 <= j < i ==> (#[trigger] strs(parts@)[j]).len() > 0 && all_of(
                    strs(parts@)[j],
                    Class::Word("_'"),
                ),
    {
        assert(strs(parts@)[i as int] == parts@[i as int]@);
        if parts[i].is_empty() || !is_all(parts[i], Class::Word("_'")) {
            return false;
        }
    }
    true
}

/// The name of the declaration that a key of the references of a module stands for.
pub open spec fn referred_name(encoded: Seq<char>) -> Option<Seq<char>> {
    json_text_at(encoded, "/c/n"@)
}

/// Computes [`referred_name`].
pub fn reference_name(encoded: &str) -> (r: Option<String>)
    ensures
        opt_string(r) == referred_name(encoded@),
{
    read_json_text(encoded, "/c/n")
}

/// A reference record of a module: the name that its key stands for, and the line of its
/// definition, counted from zero, where it has one.
#[derive(Debug)]
pub struct ReferenceRecord {
    pub name: Option<String>,
    pub line: Option<u64>,
}

/// The contents of a [`ReferenceRecord`].
pub struct ReferenceRecordView {
    pub name: Option<Seq<char>>,
    pub line: Option<u64>,
}

impl View for ReferenceRecord {
    type V = ReferenceRecordView;

    open spec fn view(&self) -> ReferenceRecordView {
        ReferenceRecordView { name: opt_string(self.name), line: self.line }
    }
}

/// The contents of a list of records.
pub open spec fn record_views(list: Seq<ReferenceRecord>) -> Seq<ReferenceRecordView> {
    list.map_values(|r: ReferenceRecord| r@)
}

/// A name with a line.
pub open spec fn named_lines(list: Seq<(String, u64)>) -> Seq<(Seq<char>, u64)> {
    list.map_values(|p: (String, u64)| (p.0@, p.1))
}

/// The names of a list of names with lines.
pub open spec fn first_names(list: Seq<(Seq<char>, u64)>) -> Seq<Seq<char>> {
    list.map_values(|p: (Seq<char>, u64)| p.0)
}

/// The declarations that have a definition but no entry among the declarations of their
/// module, each once, with the line of the first record.
pub open spec fn generated(records: Seq<ReferenceRecordView>, declared: Seq<Seq<char>>) -> Seq<
    (Seq<char>, u64),
>
    decreases records.len(),
{
    if records.len() == 0 {
        Seq::empty()
    } else {
        let before = generated(records.drop_last(), declared);
        match records.last() {
            ReferenceRecordView { name: Some(name), line: Some(line) } => if declared.contains(name)
                || !indexable(name) || first_names(before).contains(name) {
                before
            } else {
                before.push((name, (line + 1) as u64))
            },
            _ => before,
        }
    }
}

fn is_listed(list: &Vec<(String, u64)>, name: &str) -> (r: bool)
    ensures
        r == first_names(named_lines(list@)).contains(name@),
{
    let ghost names = first_names(named_lines(list@));
    for i in 0..list.len()
        invariant
            names == first_names(named_lines(list@)),
            forall|j: int| 0 <= j < i ==> (#[trigger] names[j]) != name@,
    {
        assert(names[i as int] == list@[i as int].0@);
        if same(list[i].0.as_str(), name) {
            return true;
        }
    }
    false
}

/// Computes [`generated`].
pub fn generated_declarations(records: &Vec<ReferenceRecord>, declared: &Vec<String>) -> (r: Vec<
    (String, u64),
>)
    requires
        forall|i: int|
            0 <= i < records.len() ==> ((#[trigger] records@[i]).line is Some ==> records@[i].line->0
                < u64::MAX),
    ensures
        named_lines(r@) == generated(record_views(records@), strings(declared@)),
{
    let ghost views = record_views(records@);
    let mut out: Vec<(String, u64)> = Vec::new();
    assert(named_lines(out@) =~= Seq::empty());
    for i in 0..records.len()
        invariant
            forall|j: int|
                0 <= j < records.len() ==> ((#[trigger] records@[j]).line is Some
                    ==> records@[j].line->0 < u64::MAX),
            views == record_views(records@),
            named_lines(out@) == generated(views.take(i as int), strings(declared@)),
    {
        proof {
            prefix_step(views, i as int);
        }
        assert(views[i as int] == records@[i as int]@);
        if let Some(name) = &records[i].name {
            if let Some(line) = records[i].line {
                if !has_string(declared, name.as_str()) && indexable_declaration_name(name.as_str())
                    && !is_listed(&out, name.as_str()) {
                    let ghost before = named_lines(out@);
                    out.push((name.clone(), line + 1));
                    assert(named_lines(out@) =~= before.push((name@, (line + 1) as u64)));
                }
            }
        }
    }
    proof {
        prefix_all(views);
    }
    out
}

/// The line of the first entry with a name.
pub open spec fn line_of_name(list: Seq<(Seq<char>, u64)>, name: Seq<char>, i: int) -> u64
    decreases list.len() - i,
{
    if i >= list.len() {
        0
    } else if list[i].0 == name {
        list[i].1
    } else {
        line_of_name(list, name, i + 1)
    }
}

/// Names with lines in the order of the names.
pub open spec fn in_name_order(list: Seq<(Seq<char>, u64)>) -> Seq<(Seq<char>, u64)> {
    sorted_texts(first_names(list)).map_values(
        |name: Seq<char>| (name, line_of_name(list, name, 0)),
    )
}

fn line_named(list: &Vec<(String, u64)>, name: &str) -> (r: u64)
    ensures
        r == line_of_name(named_lines(list@), name@, 0),
{
    let ghost views = named_lines(list@);
    for i in 0..list.len()
        invariant
            views == named_lines(list@),
            line_of_name(views, name@, 0) == line_of_name(views, name@, i as int),
    {
        assert(views[i as int] == (list@[i as int].0@, list@[i as int].1));
        if same(list[i].0.as_str(), name) {
            return list[i].1;
        }
    }
    0
}

/// The declarations of a module that were generated, such as aliases, in the order of
/// their names, with the lines that they are defined on.
pub fn generated_ilean_declarations(
    records: &Vec<ReferenceRecord>,
    declared: &Vec<String>,
) -> (r: Vec<(String, u64)>)
    requires
        forall|i: int|
            0 <= i < records.len() ==> ((#[trigger] records@[i]).line is Some ==> records@[i].line->0
                < u64::MAX),
    ensures
        named_lines(r@) == in_name_order(generated(record_views(records@), strings(declared@))),
{
    let found = generated_declarations(records, declared);
    let ghost views = named_lines(found@);
    let mut names: Vec<String> = Vec::new();
    assert(strings(names@) =~= first_names(views).take(0));
    for i in 0..found.len()
        invariant
            views == named_lines(found@),
            strings(names@) == first_names(views).take(i as int),
    {
        proof {
            prefix_step(first_names(views), i as int);
        }
        names.push(found[i].0.clone());
    }
    proof {
        prefix_all(first_names(views));
    }
    let sorted = sort_texts(&names);
    let ghost wanted = in_name_order(views);
    let mut out: Vec<(String, u64)> = Vec::new();
    assert(named_lines(out@) =~= wanted.take(0));
    for i in 0..sorted.len()
        invariant
            views == named_lines(found@),
            wanted == in_name_order(views),
            strings(sorted@) == sorted_texts(first_names(views)),
            named_lines(out@) == wanted.take(i as int),
    {
        proof {
            assert(strings(sorted@)[i as int] == sorted@[i as int]@);
            prefix_step(wanted, i as int);
        }
        let ghost before = named_lines(out@);
        let line = line_named(&found, sorted[i].as_str());
        out.push((sorted[i].clone(), line));
        assert(named_lines(out@) =~= before.push(wanted[i as int]));
    }
    assert(strings(sorted@).len() == sorted.len());
    proof {
        prefix_all(wanted);
    }
    out
}

/// Every generated declaration is listed once, is none of those that its module declares,
/// and has a name that the index lists.
pub proof fn generated_are_new(records: Seq<ReferenceRecordView>, declared: Seq<Seq<char>>)
    ensures
        forall|i: int, j: int|
            0 <= i < j < generated(records, declared).len() ==> (#[trigger] generated(
                records,
                declared,
            )[i]).0 != (#[trigger] generated(records, declared)[j]).0,
        forall|i: int|
            0 <= i < generated(records, declared).len() ==> !declared.contains(
                (#[trigger] generated(records, declared)[i]).0,
            ) && indexable(generated(records, declared)[i].0),
    decreases records.len(),
{
    if records.len() > 0 {
        let before = generated(records.drop_last(), declared);
        generated_are_new(records.drop_last(), declared);
        let all = generated(records, declared);
        if all.len() > before.len() {
            assert forall|i: int, j: int| 0 <= i < j < all.len() implies (#[trigger] all[i]).0 != (
            #[trigger] all[j]).0 by {
                if j == before.len() {
                    assert(first_names(before)[i] == all[i].0);
                }
            }
        }
    }
}

/// The path of the file of a module.
pub open spec fn file_of_module(module: Seq<char>) -> Seq<char> {
    replaced(module, '.', "/"@) + ".lean"@
}

/// Computes [`file_of_module`].
pub fn locate_module(module: &str) -> (r: String)
    ensures
        r@ == file_of_module(module@),
{
    let path = replace_char(module, '.', "/");
    cat2(path.as_str(), ".lean")
}

/// The path that is shown for a module: that of its file in the workspace, or one that
/// says that it is a dependency.
pub fn reference_display_path(module: &str, in_workspace: bool) -> (r: String)
    ensures
        r@ == if in_workspace {
            file_of_module(module@)
        } else {
            "<dependency>/"@ + file_of_module(module@)
        },
{
    let path = locate_module(module);
    if in_workspace {
        path
    } else {
        cat2("<dependency>/", path.as_str())
    }
}

} // verus!

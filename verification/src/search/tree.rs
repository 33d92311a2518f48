//! Where the sources that a user names are found.
use crate::order::{key_list, positions, rank, ranking};
use crate::path::{
    absolute, base_name, components, extension, extension_of, file_name, file_stem, full_parts,
    has_path_end, is_absolute, is_lean_file, is_under, join_path, lean_file, lies_under, path_ends,
    placed_under, split_full, split_path, stem_of,
};
use crate::search::diagnostics::{distance, edit_distance};
use crate::search::fallback::{code_path, path_code};
use crate::search::modules::{file_of_module, locate_module};
use crate::search::tokens::{identifier_query_parts, name_parts};
use crate::text::class::{any_of, is_any, Class};
use crate::text::layout::{front, listed, push_list, sublist};
use crate::text::make::{
    alike, cat2, join_strs, joined, lowercased, own, prefix_all, prefix_step, push_str, same,
    same_ignoring_case, strings, strings_push, strs, strs_push, to_lowercase,
};
use crate::text::pieces::has_string;
use crate::text::scan::{
    contains, has_text, opt_str, opt_string, sans_prefix, without_prefix,
};
use vstd::prelude::*;

verus! {

broadcast use {strings_push, strs_push};

/// What is known of the files of a workspace and of its packages.
#[derive(Debug)]
pub struct SourceTree {
    /// The directory of the workspace as it was given.
    pub root: String,
    /// The same directory with every link followed.
    pub real_root: String,
    /// The directory that relative paths start from.
    pub cwd: String,
    /// The directory of the packages with every link followed.
    pub packages: Option<String>,
    /// The packages and the directories in them.
    pub package_roots: Vec<String>,
    /// The Lean files of the project, relative to its directory.
    pub project_files: Vec<String>,
    /// The files of the packages.
    pub package_files: Vec<String>,
    /// Paths that lead to a file, each with the path that it leads to once every link
    /// is followed.
    pub files: Vec<(String, String)>,
    /// Paths that lead to a directory, likewise.
    pub directories: Vec<(String, String)>,
}

/// The contents of a [`SourceTree`].
pub struct TreeView {
    pub root: Seq<char>,
    pub real_root: Seq<char>,
    pub cwd: Seq<char>,
    pub packages: Option<Seq<char>>,
    pub package_roots: Seq<Seq<char>>,
    pub project_files: Seq<Seq<char>>,
    pub package_files: Seq<Seq<char>>,
    pub files: Seq<(Seq<char>, Seq<char>)>,
    pub directories: Seq<(Seq<char>, Seq<char>)>,
}

/// The contents of a list of pairs.
pub open spec fn pair_views(list: Seq<(String, String)>) -> Seq<(Seq<char>, Seq<char>)> {
    list.map_values(|p: (String, String)| (p.0@, p.1@))
}

impl View for SourceTree {
    type V = TreeView;

    open spec fn view(&self) -> TreeView {
        TreeView {
            root: self.root@,
            real_root: self.real_root@,
            cwd: self.cwd@,
            packages: opt_string(self.packages),
            package_roots: strings(self.package_roots@),
            project_files: strings(self.project_files@),
            package_files: strings(self.package_files@),
            files: pair_views(self.files@),
            directories: pair_views(self.directories@),
        }
    }
}

/// Where a path leads, by the first entry from `i` on that lists it.
pub open spec fn leads_from(known: Seq<(Seq<char>, Seq<char>)>, path: Seq<char>, i: int) -> Option<
    Seq<char>,
>
    decreases known.len() - i,
{
    if i >= known.len() {
        None
    } else if known[i].0 == path {
        Some(known[i].1)
    } else {
        leads_from(known, path, i + 1)
    }
}

/// Where a path leads.
pub open spec fn leads_to(known: Seq<(Seq<char>, Seq<char>)>, path: Seq<char>) -> Option<Seq<char>> {
    leads_from(known, path, 0)
}

fn follow<'a>(known: &'a Vec<(String, String)>, path: &str) -> (r: Option<&'a str>)
    ensures
        opt_str(r) == leads_to(pair_views(known@), path@),
{
    let ghost views = pair_views(known@);
    for i in 0..known.len()
        invariant
            views == pair_views(known@),
            leads_from(views, path@, 0) == leads_from(views, path@, i as int),
    {
        assert(views[i as int] == (known@[i as int].0@, known@[i as int].1@));
        if same(known[i].0.as_str(), path) {
            return Some(known[i].1.as_str());
        }
    }
    None
}

/// Where some paths lead, without those that lead nowhere.
pub open spec fn all_led(known: Seq<(Seq<char>, Seq<char>)>, paths: Seq<Seq<char>>) -> Seq<Seq<char>>
    decreases paths.len(),
{
    if paths.len() == 0 {
        Seq::empty()
    } else {
        let before = all_led(known, paths.drop_last());
        match leads_to(known, paths.last()) {
            Some(p) => before.push(p),
            None => before,
        }
    }
}

/// Computes [`all_led`].
pub fn follow_all(known: &Vec<(String, String)>, paths: &Vec<String>) -> (r: Vec<String>)
    ensures
        strings(r@) == all_led(pair_views(known@), strings(paths@)),
{
    let ghost views = strings(paths@);
    let mut out: Vec<String> = Vec::new();
    assert(strings(out@) =~= Seq::empty());
    for i in 0..paths.len()
        invariant
            views == strings(paths@),
            strings(out@) == all_led(pair_views(known@), views.take(i as int)),
    {
        proof {
            prefix_step(views, i as int);
        }
        if let Some(target) = follow(known, paths[i].as_str()) {
            out.push(own(target));
        }
    }
    proof {
        prefix_all(views);
    }
    out
}

/// What a list of candidates comes down to.
#[derive(Debug)]
pub enum Choice {
    Nothing,
    One(String),
    Several,
}

/// The contents of a [`Choice`].
pub enum ChoiceView {
    Nothing,
    One(Seq<char>),
    Several,
}

impl View for Choice {
    type V = ChoiceView;

    open spec fn view(&self) -> ChoiceView {
        match self {
            Choice::Nothing => ChoiceView::Nothing,
            Choice::One(s) => ChoiceView::One(s@),
            Choice::Several => ChoiceView::Several,
        }
    }
}

/// Candidates that are all the same come down to one.
pub open spec fn choice_of(list: Seq<Seq<char>>) -> ChoiceView {
    if list.len() == 0 {
        ChoiceView::Nothing
    } else if forall|i: int| 0 <= i < list.len() ==> (#[trigger] list[i]) == list[0] {
        ChoiceView::One(list[0])
    } else {
        ChoiceView::Several
    }
}

/// Computes [`choice_of`].
pub fn choose_sole(list: &Vec<String>) -> (r: Choice)
    ensures
        r@ == choice_of(strings(list@)),
{
    let ghost views = strings(list@);
    assert(views.len() == list.len());
    if list.len() == 0 {
        return Choice::Nothing;
    }
    assert(views[0] == list@[0]@);
    for i in 0..list.len()
        invariant
            list.len() > 0,
            views == strings(list@),
            views.len() == list.len(),
            views[0] == list@[0]@,
            forall|j: int| 0 <= j < i ==> (#[trigger] views[j]) == views[0],
    {
        assert(views[i as int] == list@[i as int]@);
        if !same(list[i].as_str(), list[0].as_str()) {
            return Choice::Several;
        }
    }
    Choice::One(list[0].clone())
}

/// The file that a user asks for: a module by its file, and a name without an extension
/// by that of a Lean file.
pub open spec fn requested_file(display: Seq<char>) -> Option<Seq<char>> {
    if !any_of(display, Class::Only("/\\")) && has_text(display, "."@) && !lean_file(display) {
        Some(file_of_module(display))
    } else if extension_of(display) is None {
        Some(display + ".lean"@)
    } else if lean_file(display) {
        Some(display)
    } else {
        None
    }
}

/// Computes [`requested_file`].
pub fn source_request_path(display: &str) -> (r: Option<String>)
    ensures
        opt_string(r) == requested_file(display@),
{
    if !is_any(display, Class::Only("/\\")) && contains(display, ".") && !is_lean_file(display) {
        Some(locate_module(display))
    } else if extension(display).is_none() {
        Some(cat2(display, ".lean"))
    } else if is_lean_file(display) {
        Some(own(display))
    } else {
        None
    }
}

/// The ends of a path that leave out its first components, but not all up to the file.
pub open spec fn inner_ends(parts: Seq<Seq<char>>) -> Seq<Seq<char>> {
    Seq::new(
        if parts.len() < 2 {
            0
        } else {
            (parts.len() - 2) as nat
        },
        |k: int| joined(parts.skip(k + 1), "/"@),
    )
}

/// Paths without those that repeat the one before.
pub open spec fn squeezed(list: Seq<Seq<char>>) -> Seq<Seq<char>>
    decreases list.len(),
{
    if list.len() == 0 {
        Seq::empty()
    } else {
        let kept = squeezed(list.drop_last());
        if kept.len() > 0 && full_parts(kept.last()) == full_parts(list.last()) {
            kept
        } else {
            kept.push(list.last())
        }
    }
}

/// A directory and a file in it of the same name.
pub open spec fn twin_path(path: Seq<char>) -> bool {
    let parts = full_parts(path);
    &&& parts.len() == 2
    &&& components(path).len() == 2
    &&& parts[0] != ".."@
    &&& stem_of(path) == Some(parts[0])
}

/// The paths under which a file is looked for: the path itself, its ends, and its name.
pub open spec fn path_variants(path: Seq<char>) -> Seq<Seq<char>> {
    let name: Seq<Seq<char>> = match base_name(path) {
        Some(n) => seq![n],
        None => Seq::empty(),
    };
    if absolute(path) {
        seq![path]
    } else {
        squeezed(
            seq![path] + (if twin_path(path) {
                name
            } else {
                Seq::empty()
            }) + inner_ends(full_parts(path)) + name,
        )
    }
}

fn same_parts(a: &str, b: &str) -> (r: bool)
    ensures
        r == (full_parts(a@) == full_parts(b@)),
{
    let x = split_full(a);
    let y = split_full(b);
    let ghost p = strs(x@);
    let ghost q = strs(y@);
    assert(p.len() == x.len() && q.len() == y.len());
    if x.len() != y.len() {
        return false;
    }
    for i in 0..x.len()
        invariant
            p == strs(x@),
            q == strs(y@),
            p == full_parts(a@),
            q == full_parts(b@),
            p.len() == x.len(),
            q.len() == x.len(),
            y.len() == x.len(),
            forall|j: int| 0 <= j < i ==> p[j] == q[j],
    {
        assert(p[i as int] == x@[i as int]@);
        assert(q[i as int] == y@[i as int]@);
        if !same(x[i], y[i]) {
            return false;
        }
    }
    assert(p =~= q);
    true
}

fn squeeze(list: &Vec<String>) -> (r: Vec<String>)
    ensures
        strings(r@) == squeezed(strings(list@)),
{
    let ghost views = strings(list@);
    let mut out: Vec<String> = Vec::new();
    assert(strings(out@) =~= Seq::empty());
    for i in 0..list.len()
        invariant
            views == strings(list@),
            strings(out@) == squeezed(views.take(i as int)),
    {
        proof {
            prefix_step(views, i as int);
        }
        let count = out.len();
        assert(strings(out@).len() == count);
        let mut repeats = false;
        if count > 0 {
            assert(strings(out@).last() == out@[count - 1]@);
            repeats = same_parts(out[count - 1].as_str(), list[i].as_str());
        }
        if !repeats {
            out.push(list[i].clone());
        }
    }
    proof {
        prefix_all(views);
    }
    out
}

fn is_twin_path(path: &str) -> (r: bool)
    ensures
        r == twin_path(path@),
{
    let parts = split_full(path);
    let plain = split_path(path);
    assert(strs(parts@).len() == parts.len());
    assert(strs(plain@).len() == plain.len());
    if parts.len() != 2 || plain.len() != 2 {
        return false;
    }
    assert(strs(parts@)[0] == parts@[0]@);
    match file_stem(path) {
        Some(stem) => !same(parts[0], "..") && same(stem, parts[0]),
        None => false,
    }
}

/// Computes [`path_variants`].
pub fn source_variants(path: &str) -> (r: Vec<String>)
    ensures
        strings(r@) == path_variants(path@),
{
    let mut out: Vec<String> = Vec::new();
    out.push(own(path));
    assert(strings(out@) =~= seq![path@]);
    if is_absolute(path) {
        return out;
    }
    let name = file_name(path);
    let ghost names: Seq<Seq<char>> = match base_name(path@) {
        Some(n) => seq![n],
        None => Seq::empty(),
    };
    let ghost first = strings(out@);
    if is_twin_path(path) {
        if let Some(n) = name {
            out.push(own(n));
            assert(strings(out@) =~= first + names);
        } else {
            assert(strings(out@) =~= first + names);
        }
    } else {
        assert(strings(out@) =~= first + Seq::<Seq<char>>::empty());
    }
    let ghost second = strings(out@);
    let parts = split_full(path);
    let ghost views = strs(parts@);
    assert(views.len() == parts.len());
    let ghost wanted = inner_ends(views);
    let stop = if parts.len() < 2 {
        0
    } else {
        parts.len() - 2
    };
    assert(strings(out@) =~= second + wanted.take(0));
    for k in 0..stop
        invariant
            views == strs(parts@),
            views.len() == parts.len(),
            wanted == inner_ends(views),
            stop == wanted.len(),
            stop + 2 <= parts.len() || stop == 0,
            strings(out@) == second + wanted.take(k as int),
    {
        proof {
            prefix_step(wanted, k as int);
        }
        let tail = sublist(&parts, k + 1, parts.len());
        assert(strs(tail@) =~= views.skip(k + 1));
        let ghost before = strings(out@);
        out.push(join_strs(&tail, "/"));
        assert(strings(out@) =~= second + wanted.take(k + 1));
    }
    proof {
        prefix_all(wanted);
    }
    let ghost third = strings(out@);
    if let Some(n) = name {
        out.push(own(n));
    }
    assert(strings(out@) =~= third + names);
    squeeze(&out)
}

/// A file that was found, with the name it is shown under where it is not shown by its
/// path in the workspace.
#[derive(Debug)]
pub struct ResolvedSource {
    pub path: String,
    pub display: Option<String>,
    pub project: bool,
}

/// The contents of a [`ResolvedSource`].
pub struct ResolvedView {
    pub path: Seq<char>,
    pub display: Option<Seq<char>>,
    pub project: bool,
}

impl View for ResolvedSource {
    type V = ResolvedView;

    open spec fn view(&self) -> ResolvedView {
        ResolvedView { path: self.path@, display: opt_string(self.display), project: self.project }
    }
}

/// The view of an optional file.
pub open spec fn resolved_view(r: Option<ResolvedSource>) -> Option<ResolvedView> {
    match r {
        Some(s) => Some(s@),
        None => None,
    }
}

/// The outcome of one way of looking.
pub enum Found {
    /// Nothing was found this way.
    Next,
    /// What was found is no single file.
    Stop,
    At(ResolvedSource),
}

/// The contents of a [`Found`].
pub enum FoundView {
    Next,
    Stop,
    At(ResolvedView),
}

impl View for Found {
    type V = FoundView;

    open spec fn view(&self) -> FoundView {
        match self {
            Found::Next => FoundView::Next,
            Found::Stop => FoundView::Stop,
            Found::At(s) => FoundView::At(s@),
        }
    }
}

/// The paths at which a variant may stand: in the project, or in a package.
pub open spec fn standing_places(tree: TreeView, variant: Seq<char>) -> Seq<Seq<char>> {
    seq![placed_under(tree.real_root, variant)] + match tree.packages {
        Some(p) => seq![placed_under(p, variant)] + tree.package_roots.map_values(
            |root: Seq<char>| placed_under(root, variant),
        ),
        None => Seq::empty(),
    }
}

fn places_of(tree: &SourceTree, variant: &str) -> (r: Vec<String>)
    ensures
        strings(r@) == standing_places(tree@, variant@),
{
    let mut out: Vec<String> = Vec::new();
    out.push(join_path(tree.real_root.as_str(), variant));
    let ghost first = seq![placed_under(tree.real_root@, variant@)];
    assert(strings(out@) =~= first);
    match &tree.packages {
        Some(packages) => {
            out.push(join_path(packages.as_str(), variant));
            let ghost head = seq![placed_under(packages@, variant@)];
            let ghost wanted = strings(tree.package_roots@).map_values(
                |root: Seq<char>| placed_under(root, variant@),
            );
            assert(strings(out@) =~= first + (head + wanted.take(0)));
            for i in 0..tree.package_roots.len()
                invariant
                    wanted == strings(tree.package_roots@).map_values(
                        |root: Seq<char>| placed_under(root, variant@),
                    ),
                    strings(out@) == first + (head + wanted.take(i as int)),
            {
                proof {
                    prefix_step(wanted, i as int);
                }
                out.push(join_path(tree.package_roots[i].as_str(), variant));
                assert(strings(out@) =~= first + (head + wanted.take(i + 1)));
            }
            proof {
                prefix_all(wanted);
            }
        },
        None => {
            assert(strings(out@) =~= first + Seq::<Seq<char>>::empty());
        },
    }
    out
}

/// Whether a file belongs to the project and not to one of its packages.
pub open spec fn in_project(tree: TreeView, path: Seq<char>) -> bool {
    lies_under(path, tree.real_root) && !(tree.packages is Some && lies_under(
        path,
        tree.packages->0,
    ))
}

/// A variant that is looked for where it would stand. The mere name of a file that was
/// asked for with its directory is not.
pub open spec fn standing_variant(variant: Seq<char>, requested: Seq<char>) -> bool {
    full_parts(requested).len() == 1 || full_parts(variant).len() > 1
}

/// The first variant from `i` on that stands somewhere decides.
pub open spec fn look_at_places(
    tree: TreeView,
    display: Seq<char>,
    requested: Seq<char>,
    variants: Seq<Seq<char>>,
    i: int,
) -> FoundView
    decreases variants.len() - i,
{
    if i >= variants.len() {
        FoundView::Next
    } else if !standing_variant(variants[i], requested) {
        look_at_places(tree, display, requested, variants, i + 1)
    } else {
        match choice_of(all_led(tree.files, standing_places(tree, variants[i]))) {
            ChoiceView::Nothing => look_at_places(tree, display, requested, variants, i + 1),
            ChoiceView::Several => FoundView::Stop,
            ChoiceView::One(path) => FoundView::At(
                ResolvedView {
                    path,
                    display: if in_project(tree, path) {
                        None
                    } else {
                        Some(display)
                    },
                    project: in_project(tree, path),
                },
            ),
        }
    }
}

fn find_at_places(tree: &SourceTree, display: &str, requested: &str, variants: &Vec<String>) -> (r:
    Found)
    ensures
        r@ == look_at_places(tree@, display@, requested@, strings(variants@), 0),
{
    let single = split_full(requested).len() == 1;
    let ghost views = strings(variants@);
    assert(views.len() == variants.len());
    for i in 0..variants.len()
        invariant
            single == (full_parts(requested@).len() == 1),
            views == strings(variants@),
            views.len() == variants.len(),
            look_at_places(tree@, display@, requested@, views, 0) == look_at_places(
                tree@,
                display@,
                requested@,
                views,
                i as int,
            ),
    {
        assert(views[i as int] == variants@[i as int]@);
        let variant = variants[i].as_str();
        let parts = split_full(variant);
        assert(strs(parts@).len() == parts.len());
        if single || parts.len() > 1 {
            match choose_sole(&follow_all(&tree.files, &places_of(tree, variant))) {
                Choice::Nothing => {},
                Choice::Several => {
                    return Found::Stop;
                },
                Choice::One(path) => {
                    let mut project = is_under(path.as_str(), tree.real_root.as_str());
                    if let Some(packages) = &tree.packages {
                        if is_under(path.as_str(), packages.as_str()) {
                            project = false;
                        }
                    }
                    let shown = if project {
                        None
                    } else {
                        Some(own(display))
                    };
                    return Found::At(ResolvedSource { path, display: shown, project });
                },
            }
        }
    }
    Found::Next
}

/// A test that files of a list are put to.
pub enum FileTest<'a> {
    /// The path ends with another.
    Ends(&'a str),
    /// The file has a name.
    Named(&'a str),
    /// The file has a name, letter case aside.
    Alike(&'a str),
    /// The parts of the name of the file hold others in their order.
    Parts(&'a Vec<String>),
}

/// The contents of a [`FileTest`].
pub enum FileTestView {
    Ends(Seq<char>),
    Named(Seq<char>),
    Alike(Seq<char>),
    Parts(Seq<Seq<char>>),
}

/// The second list, from position `j` on, holds the texts of the first, from position `i`
/// on, in their order.
pub open spec fn holds_in_order(
    needles: Seq<Seq<char>>,
    i: int,
    haystack: Seq<Seq<char>>,
    j: int,
) -> bool
    decreases haystack.len() - j,
{
    if i >= needles.len() {
        true
    } else if j >= haystack.len() {
        false
    } else if needles[i] == haystack[j] {
        holds_in_order(needles, i + 1, haystack, j + 1)
    } else {
        holds_in_order(needles, i, haystack, j + 1)
    }
}

/// Decides [`holds_in_order`] for whole lists.
pub fn ordered_subset(needles: &Vec<String>, haystack: &Vec<String>) -> (r: bool)
    ensures
        r == holds_in_order(strings(needles@), 0, strings(haystack@), 0),
{
    let ghost a = strings(needles@);
    let ghost b = strings(haystack@);
    assert(a.len() == needles.len() && b.len() == haystack.len());
    if needles.len() == 0 {
        return true;
    }
    let mut i: usize = 0;
    for j in 0..haystack.len()
        invariant
            a == strings(needles@),
            b == strings(haystack@),
            a.len() == needles.len(),
            b.len() == haystack.len(),
            i < needles.len(),
            holds_in_order(a, 0, b, 0) == holds_in_order(a, i as int, b, j as int),
    {
        assert(a[i as int] == needles@[i as int]@);
        assert(b[j as int] == haystack@[j as int]@);
        if same(haystack[j].as_str(), needles[i].as_str()) {
            i += 1;
            if i == needles.len() {
                assert(holds_in_order(a, i as int, b, j + 1));
                return true;
            }
        }
    }
    false
}

/// A list that holds others in their order holds each of them.
pub proof fn held_in_order_are_held(
    needles: Seq<Seq<char>>,
    i: int,
    haystack: Seq<Seq<char>>,
    j: int,
)
    requires
        0 <= i,
        0 <= j,
        holds_in_order(needles, i, haystack, j),
    ensures
        forall|k: int| i <= k < needles.len() ==> haystack.contains(#[trigger] needles[k]),
    decreases haystack.len() - j,
{
    if i < needles.len() {
        if needles[i] == haystack[j] {
            held_in_order_are_held(needles, i + 1, haystack, j + 1);
            assert(haystack.contains(needles[i]));
        } else {
            held_in_order_are_held(needles, i, haystack, j + 1);
        }
    }
}

/// Every list holds itself in its order.
pub proof fn each_list_holds_itself(list: Seq<Seq<char>>, i: int)
    requires
        0 <= i,
    ensures
        holds_in_order(list, i, list, i),
    decreases list.len() - i,
{
    if i < list.len() {
        each_list_holds_itself(list, i + 1);
    }
}

impl<'a> FileTest<'a> {
    pub open spec fn view(&self) -> FileTestView {
        match self {
            FileTest::Ends(t) => FileTestView::Ends(t@),
            FileTest::Named(t) => FileTestView::Named(t@),
            FileTest::Alike(t) => FileTestView::Alike(t@),
            FileTest::Parts(list) => FileTestView::Parts(strings(list@)),
        }
    }

    /// Decides [`FileTestView::passes`].
    pub fn accepts(&self, path: &str) -> (r: bool)
        ensures
            r == self@.passes(path@),
    {
        match self {
            FileTest::Ends(tail) => has_path_end(path, tail),
            FileTest::Named(name) => match file_name(path) {
                Some(n) => same(n, name),
                None => false,
            },
            FileTest::Alike(name) => match file_name(path) {
                Some(n) => same_ignoring_case(n, name),
                None => false,
            },
            FileTest::Parts(parts) => {
                let own_parts = match file_stem(path) {
                    Some(stem) => identifier_query_parts(stem),
                    None => Vec::new(),
                };
                assert(stem_of(path@) is None ==> strings(own_parts@) =~= Seq::empty());
                ordered_subset(parts, &own_parts)
            },
        }
    }
}

/// The parts of the name of a file.
pub open spec fn stem_parts(path: Seq<char>) -> Seq<Seq<char>> {
    match stem_of(path) {
        Some(stem) => name_parts(stem),
        None => Seq::empty(),
    }
}

impl FileTestView {
    /// What the test demands of a path.
    pub open spec fn passes(self, path: Seq<char>) -> bool {
        match self {
            FileTestView::Ends(tail) => path_ends(path, tail),
            FileTestView::Named(name) => base_name(path) == Some(name),
            FileTestView::Alike(name) => base_name(path) is Some && alike(base_name(path)->0, name),
            FileTestView::Parts(parts) => holds_in_order(parts, 0, stem_parts(path), 0),
        }
    }
}

/// The files that pass a test, each under a directory.
pub open spec fn passing_files(files: Seq<Seq<char>>, test: FileTestView, root: Seq<char>) -> Seq<
    Seq<char>,
>
    decreases files.len(),
{
    if files.len() == 0 {
        Seq::empty()
    } else if test.passes(files.last()) {
        passing_files(files.drop_last(), test, root).push(placed_under(root, files.last()))
    } else {
        passing_files(files.drop_last(), test, root)
    }
}

/// What the files that pass a test come down to.
pub open spec fn choice_passing(
    tree: TreeView,
    files: Seq<Seq<char>>,
    test: FileTestView,
    root: Seq<char>,
) -> ChoiceView {
    choice_of(all_led(tree.files, passing_files(files, test, root)))
}

fn choose_passing(tree: &SourceTree, files: &Vec<String>, test: &FileTest, root: &str) -> (r: Choice)
    ensures
        r@ == choice_passing(tree@, strings(files@), test@, root@),
{
    let ghost views = strings(files@);
    let mut out: Vec<String> = Vec::new();
    assert(strings(out@) =~= Seq::empty());
    for i in 0..files.len()
        invariant
            views == strings(files@),
            strings(out@) == passing_files(views.take(i as int), test@, root@),
    {
        proof {
            prefix_step(views, i as int);
        }
        assert(views[i as int] == files@[i as int]@);
        if test.accepts(files[i].as_str()) {
            out.push(join_path(root, files[i].as_str()));
        }
    }
    proof {
        prefix_all(views);
    }
    choose_sole(&follow_all(&tree.files, &out))
}

/// A file of the project.
pub open spec fn project_source(path: Seq<char>) -> ResolvedView {
    ResolvedView { path, display: None, project: true }
}

/// The first variant from `i` on that a file of the project ends with decides.
pub open spec fn look_in_project(tree: TreeView, variants: Seq<Seq<char>>, i: int) -> FoundView
    decreases variants.len() - i,
{
    if i >= variants.len() {
        FoundView::Next
    } else {
        match choice_passing(
            tree,
            tree.project_files,
            FileTestView::Ends(variants[i]),
            tree.real_root,
        ) {
            ChoiceView::Nothing => look_in_project(tree, variants, i + 1),
            ChoiceView::Several => FoundView::Stop,
            ChoiceView::One(path) => FoundView::At(project_source(path)),
        }
    }
}

fn find_in_project(tree: &SourceTree, variants: &Vec<String>) -> (r: Found)
    ensures
        r@ == look_in_project(tree@, strings(variants@), 1),
{
    let ghost views = strings(variants@);
    assert(views.len() == variants.len());
    let mut i: usize = 1;
    while i < variants.len()
        invariant
            1 <= i,
            i <= variants.len() || i == 1,
            views == strings(variants@),
            views.len() == variants.len(),
            look_in_project(tree@, views, 1) == look_in_project(tree@, views, i as int),
        decreases variants.len() - i,
    {
        assert(views[i as int] == variants@[i as int]@);
        let test = FileTest::Ends(variants[i].as_str());
        match choose_passing(tree, &tree.project_files, &test, tree.real_root.as_str()) {
            Choice::Nothing => {},
            Choice::Several => {
                return Found::Stop;
            },
            Choice::One(path) => {
                return Found::At(ResolvedSource { path, display: None, project: true });
            },
        }
        i += 1;
    }
    Found::Next
}

/// The first variant of more than one component, from `i` on, that a file of a package
/// ends with decides.
pub open spec fn look_in_packages(
    tree: TreeView,
    display: Seq<char>,
    variants: Seq<Seq<char>>,
    i: int,
) -> FoundView
    decreases variants.len() - i,
{
    if i >= variants.len() {
        FoundView::Next
    } else if full_parts(variants[i]).len() <= 1 {
        look_in_packages(tree, display, variants, i + 1)
    } else {
        match choice_passing(tree, tree.package_files, FileTestView::Ends(variants[i]), ""@) {
            ChoiceView::Nothing => look_in_packages(tree, display, variants, i + 1),
            ChoiceView::Several => FoundView::Stop,
            ChoiceView::One(path) => FoundView::At(
                ResolvedView { path, display: Some(display), project: false },
            ),
        }
    }
}

fn find_in_packages(tree: &SourceTree, display: &str, variants: &Vec<String>) -> (r: Found)
    ensures
        r@ == look_in_packages(tree@, display@, strings(variants@), 0),
{
    let ghost views = strings(variants@);
    assert(views.len() == variants.len());
    for i in 0..variants.len()
        invariant
            views == strings(variants@),
            views.len() == variants.len(),
            look_in_packages(tree@, display@, views, 0) == look_in_packages(
                tree@,
                display@,
                views,
                i as int,
            ),
    {
        assert(views[i as int] == variants@[i as int]@);
        let parts = split_full(variants[i].as_str());
        assert(strs(parts@).len() == parts.len());
        if parts.len() > 1 {
            let test = FileTest::Ends(variants[i].as_str());
            match choose_passing(tree, &tree.package_files, &test, "") {
                Choice::Nothing => {},
                Choice::Several => {
                    return Found::Stop;
                },
                Choice::One(path) => {
                    return Found::At(
                        ResolvedSource { path, display: Some(own(display)), project: false },
                    );
                },
            }
        }
    }
    Found::Next
}

/// A file that was asked for by its name alone: the one of that name, else the one of
/// that name letter case aside, else the one whose name holds the parts of that name.
pub open spec fn look_by_name(tree: TreeView, requested: Seq<char>) -> Option<ResolvedView> {
    let files = tree.project_files;
    let root = tree.real_root;
    match base_name(requested) {
        None => None,
        Some(name) => match choice_passing(tree, files, FileTestView::Named(name), root) {
            ChoiceView::One(path) => Some(project_source(path)),
            ChoiceView::Several => None,
            ChoiceView::Nothing => match choice_passing(
                tree,
                files,
                FileTestView::Alike(name),
                root,
            ) {
                ChoiceView::One(path) => Some(project_source(path)),
                ChoiceView::Several => None,
                ChoiceView::Nothing => if stem_parts(requested).len() < 2 {
                    None
                } else {
                    match choice_passing(
                        tree,
                        files,
                        FileTestView::Parts(stem_parts(requested)),
                        root,
                    ) {
                        ChoiceView::One(path) => Some(project_source(path)),
                        _ => None,
                    }
                },
            },
        },
    }
}

fn find_by_name(tree: &SourceTree, requested: &str) -> (r: Option<ResolvedSource>)
    ensures
        resolved_view(r) == look_by_name(tree@, requested@),
{
    let files = &tree.project_files;
    let root = tree.real_root.as_str();
    let name = file_name(requested)?;
    match choose_passing(tree, files, &FileTest::Named(name), root) {
        Choice::One(path) => {
            return Some(ResolvedSource { path, display: None, project: true });
        },
        Choice::Several => {
            return None;
        },
        Choice::Nothing => {},
    }
    match choose_passing(tree, files, &FileTest::Alike(name), root) {
        Choice::One(path) => {
            return Some(ResolvedSource { path, display: None, project: true });
        },
        Choice::Several => {
            return None;
        },
        Choice::Nothing => {},
    }
    let parts = match file_stem(requested) {
        Some(stem) => identifier_query_parts(stem),
        None => Vec::new(),
    };
    assert(stem_of(requested@) is None ==> strings(parts@) =~= Seq::empty());
    assert(strings(parts@).len() == parts.len());
    if parts.len() < 2 {
        return None;
    }
    match choose_passing(tree, files, &FileTest::Parts(&parts), root) {
        Choice::One(path) => Some(ResolvedSource { path, display: None, project: true }),
        _ => None,
    }
}

/// The file that a request leads to. What stands at the path itself in the workspace
/// comes first; then what stands there under a variant of the path, in the project or in
/// a package; then a file of the project that ends with a variant; then one of a package;
/// and last, for a mere name, a file of the project with that name. Where one of these
/// ways finds different files, the request leads nowhere.
pub open spec fn resolved(tree: TreeView, display: Seq<char>, requested: Seq<char>) -> Option<
    ResolvedView,
> {
    let variants = path_variants(requested);
    let direct = leads_to(tree.files, placed_under(tree.cwd, requested));
    if direct is Some && lies_under(direct->0, tree.root) {
        Some(project_source(direct->0))
    } else {
        match look_at_places(tree, display, requested, variants, 0) {
            FoundView::At(source) => Some(source),
            FoundView::Stop => None,
            FoundView::Next => match look_in_project(tree, variants, 1) {
                FoundView::At(source) => Some(source),
                FoundView::Stop => None,
                FoundView::Next => match (if tree.packages is Some {
                    look_in_packages(tree, display, variants, 0)
                } else {
                    FoundView::Next
                }) {
                    FoundView::At(source) => Some(source),
                    FoundView::Stop => None,
                    FoundView::Next => if full_parts(requested).len() == 1 {
                        look_by_name(tree, requested)
                    } else {
                        None
                    },
                },
            },
        }
    }
}

/// Computes [`resolved`].
pub fn resolve_requested(tree: &SourceTree, display: &str, requested: &str) -> (r: Option<
    ResolvedSource,
>)
    ensures
        resolved_view(r) == resolved(tree@, display@, requested@),
{
    if let Some(direct) = follow(&tree.files, join_path(tree.cwd.as_str(), requested).as_str()) {
        if is_under(direct, tree.root.as_str()) {
            return Some(ResolvedSource { path: own(direct), display: None, project: true });
        }
    }
    let variants = source_variants(requested);
    match find_at_places(tree, display, requested, &variants) {
        Found::At(source) => {
            return Some(source);
        },
        Found::Stop => {
            return None;
        },
        Found::Next => {},
    }
    match find_in_project(tree, &variants) {
        Found::At(source) => {
            return Some(source);
        },
        Found::Stop => {
            return None;
        },
        Found::Next => {},
    }
    if tree.packages.is_some() {
        match find_in_packages(tree, display, &variants) {
            Found::At(source) => {
                return Some(source);
            },
            Found::Stop => {
                return None;
            },
            Found::Next => {},
        }
    }
    let parts = split_full(requested);
    assert(strs(parts@).len() == parts.len());
    if parts.len() == 1 {
        find_by_name(tree, requested)
    } else {
        None
    }
}

/// What a user wrote without the mark of a dependency.
pub open spec fn undisguised(path: Seq<char>) -> Seq<char> {
    sans_prefix(path, "<dependency>/"@)
}

/// The file that a path or a module leads to.
pub open spec fn source_at(tree: TreeView, path: Seq<char>) -> Option<ResolvedView> {
    match requested_file(undisguised(path)) {
        Some(requested) => resolved(tree, undisguised(path), requested),
        None => None,
    }
}

/// Computes [`source_at`].
pub fn resolve_source_path(tree: &SourceTree, path: &str) -> (r: Option<ResolvedSource>)
    ensures
        resolved_view(r) == source_at(tree@, path@),
{
    let display = without_prefix(path, "<dependency>/");
    let requested = source_request_path(display)?;
    resolve_requested(tree, display, requested.as_str())
}

/// The file that the path of a Lean file leads to.
pub open spec fn goal_at(tree: TreeView, path: Seq<char>) -> Option<ResolvedView> {
    if lean_file(undisguised(path)) {
        resolved(tree, undisguised(path), undisguised(path))
    } else {
        None
    }
}

/// Computes [`goal_at`].
pub fn resolve_goal_path(tree: &SourceTree, path: &str) -> (r: Option<ResolvedSource>)
    ensures
        resolved_view(r) == goal_at(tree@, path@),
{
    let display = without_prefix(path, "<dependency>/");
    if is_lean_file(display) {
        resolve_requested(tree, display, display)
    } else {
        None
    }
}

/// A Lean file leads to the same place whether it is looked up as a source or as the
/// place of a goal.
pub proof fn lean_files_resolve_alike(tree: TreeView, path: Seq<char>)
    requires
        lean_file(undisguised(path)),
    ensures
        goal_at(tree, path) == source_at(tree, path),
{
}

/// Where a request is found in the project, it is not shown under another name.
pub proof fn project_sources_show_their_path(tree: TreeView, path: Seq<char>)
    ensures
        match source_at(tree, path) {
            Some(source) => source.project <==> source.display is None,
            None => true,
        },
{
    if let Some(requested) = requested_file(undisguised(path)) {
        let variants = path_variants(requested);
        places_show(tree, undisguised(path), requested, variants, 0);
        project_shows(tree, variants, 1);
        packages_show(tree, undisguised(path), variants, 0);
    }
}

proof fn places_show(
    tree: TreeView,
    display: Seq<char>,
    requested: Seq<char>,
    variants: Seq<Seq<char>>,
    i: int,
)
    ensures
        match look_at_places(tree, display, requested, variants, i) {
            FoundView::At(source) => source.project <==> source.display is None,
            _ => true,
        },
    decreases variants.len() - i,
{
    if i < variants.len() {
        places_show(tree, display, requested, variants, i + 1);
    }
}

proof fn project_shows(tree: TreeView, variants: Seq<Seq<char>>, i: int)
    ensures
        match look_in_project(tree, variants, i) {
            FoundView::At(source) => source.project && source.display is None,
            _ => true,
        },
    decreases variants.len() - i,
{
    if i < variants.len() {
        project_shows(tree, variants, i + 1);
    }
}

proof fn packages_show(tree: TreeView, display: Seq<char>, variants: Seq<Seq<char>>, i: int)
    ensures
        match look_in_packages(tree, display, variants, i) {
            FoundView::At(source) => !source.project && source.display is Some,
            _ => true,
        },
    decreases variants.len() - i,
{
    if i < variants.len() {
        packages_show(tree, display, variants, i + 1);
    }
}

/// How many of some parts another list holds.
pub open spec fn shared_parts(parts: Seq<Seq<char>>, others: Seq<Seq<char>>) -> nat
    decreases parts.len(),
{
    if parts.len() == 0 {
        0
    } else {
        shared_parts(parts.drop_last(), others) + if others.contains(parts.last()) {
            1nat
        } else {
            0nat
        }
    }
}

fn count_shared(parts: &Vec<String>, others: &Vec<String>) -> (r: usize)
    ensures
        r == shared_parts(strings(parts@), strings(others@)),
        r <= parts.len(),
{
    let ghost views = strings(parts@);
    let mut n: usize = 0;
    for i in 0..parts.len()
        invariant
            views == strings(parts@),
            n <= i,
            n == shared_parts(views.take(i as int), strings(others@)),
    {
        proof {
            prefix_step(views, i as int);
        }
        if has_string(others, parts[i].as_str()) {
            n += 1;
        }
    }
    proof {
        prefix_all(views);
    }
    n
}

/// The components of the directory of a path.
pub open spec fn directory_parts(path: Seq<char>) -> Seq<Seq<char>> {
    if full_parts(path).len() == 0 {
        Seq::empty()
    } else {
        full_parts(path).drop_last()
    }
}

fn same_directory(a: &str, b: &str) -> (r: bool)
    ensures
        r == (directory_parts(a@) == directory_parts(b@)),
{
    let x = split_full(a);
    let y = split_full(b);
    let ghost p = strs(x@);
    let ghost q = strs(y@);
    assert(p.len() == x.len() && q.len() == y.len());
    let m = if x.len() == 0 {
        0
    } else {
        x.len() - 1
    };
    let n = if y.len() == 0 {
        0
    } else {
        y.len() - 1
    };
    let ghost dp = directory_parts(a@);
    let ghost dq = directory_parts(b@);
    assert(dp.len() == m && dq.len() == n);
    if m != n {
        return false;
    }
    for i in 0..m
        invariant
            p == strs(x@),
            q == strs(y@),
            m <= x.len(),
            m <= y.len(),
            dp == p.take(m as int),
            dq == q.take(m as int),
            dp == directory_parts(a@),
            dq == directory_parts(b@),
            forall|j: int| 0 <= j < i ==> dp[j] == dq[j],
    {
        assert(dp[i as int] == x@[i as int]@);
        assert(dq[i as int] == y@[i as int]@);
        if !same(x[i], y[i]) {
            return false;
        }
    }
    assert(dp =~= dq);
    true
}

/// Whether the name of a file is close to the one asked for: most of its parts are
/// shared, or few letters differ.
pub open spec fn close_name(requested: Seq<char>, candidate: Seq<char>) -> bool {
    let parts = name_parts(requested);
    let low = lowercased(requested);
    ||| parts.len() >= 2 && shared_parts(parts, name_parts(candidate)) + 1 >= parts.len()
    ||| distance(low, lowercased(candidate)) <= if low.len() / 5 > 2 {
        low.len() / 5
    } else {
        2
    }
}

/// The name asked for.
pub open spec fn stem_or_empty(path: Seq<char>) -> Seq<char> {
    match stem_of(path) {
        Some(stem) => stem,
        None => ""@,
    }
}

/// A file near the one asked for.
pub open spec fn near(requested: Seq<char>, candidate: Seq<char>) -> bool {
    stem_of(candidate) is Some && close_name(stem_or_empty(requested), stem_of(candidate)->0)
}

/// Files near the one asked for.
pub open spec fn near_files(files: Seq<Seq<char>>, requested: Seq<char>) -> Seq<Seq<char>>
    decreases files.len(),
{
    if files.len() == 0 {
        Seq::empty()
    } else if near(requested, files.last()) {
        near_files(files.drop_last(), requested).push(files.last())
    } else {
        near_files(files.drop_last(), requested)
    }
}

/// Near files are ordered with those of the same directory first, then by the parts
/// that their names share with the one asked for, then by the letters that differ, then
/// by their paths.
pub open spec fn near_key(requested: Seq<char>, candidate: Seq<char>) -> Seq<u64> {
    let stem = stem_or_empty(candidate);
    seq![
        if directory_parts(candidate) == directory_parts(requested) {
            0u64
        } else {
            1u64
        },
        (u64::MAX - shared_parts(name_parts(stem_or_empty(requested)), name_parts(stem))) as u64,
        distance(lowercased(stem_or_empty(requested)), lowercased(stem)) as u64,
    ] + path_code(components(candidate))
}

/// The keys of some files.
pub open spec fn near_keys(files: Seq<Seq<char>>, requested: Seq<char>) -> Seq<Seq<u64>> {
    files.map_values(|f: Seq<char>| near_key(requested, f))
}

/// The five files nearest to the one asked for.
pub open spec fn nearest(files: Seq<Seq<char>>, requested: Seq<char>) -> Seq<Seq<char>> {
    let list = near_files(files, requested);
    front(ranking(near_keys(list, requested)).map_values(|i: int| list[i]), 5)
}

fn stem_text<'a>(path: &'a str) -> (r: &'a str)
    ensures
        r@ == stem_or_empty(path@),
{
    match file_stem(path) {
        Some(stem) => stem,
        None => "",
    }
}

fn is_near(requested: &str, candidate: &str) -> (r: bool)
    ensures
        r == near(requested@, candidate@),
{
    let Some(stem) = file_stem(candidate) else {
        return false;
    };
    let wanted = stem_text(requested);
    let parts = identifier_query_parts(wanted);
    assert(strings(parts@).len() == parts.len());
    let shared = count_shared(&parts, &identifier_query_parts(stem));
    if parts.len() >= 2 && shared >= parts.len() - 1 {
        return true;
    }
    let low = to_lowercase(wanted);
    let fifth = low.as_str().unicode_len() / 5;
    let allowed = if fifth > 2 {
        fifth
    } else {
        2
    };
    edit_distance(low.as_str(), to_lowercase(stem).as_str()) <= allowed
}

fn key_near(requested: &str, candidate: &str) -> (r: Vec<u64>)
    ensures
        r@ == near_key(requested@, candidate@),
{
    let wanted = stem_text(requested);
    let stem = stem_text(candidate);
    let mut out: Vec<u64> = Vec::new();
    out.push(
        if same_directory(candidate, requested) {
            0
        } else {
            1
        },
    );
    let shared = count_shared(&identifier_query_parts(wanted), &identifier_query_parts(stem));
    out.push(u64::MAX - shared as u64);
    out.push(edit_distance(to_lowercase(wanted).as_str(), to_lowercase(stem).as_str()) as u64);
    let mut rest = code_path(&split_path(candidate));
    out.append(&mut rest);
    assert(out@ =~= near_key(requested@, candidate@));
    out
}

/// Computes [`nearest`].
pub fn nearest_files(files: &Vec<String>, requested: &str) -> (r: Vec<String>)
    ensures
        strings(r@) == nearest(strings(files@), requested@),
{
    let ghost all = strings(files@);
    let mut list: Vec<String> = Vec::new();
    assert(strings(list@) =~= Seq::empty());
    for i in 0..files.len()
        invariant
            all == strings(files@),
            strings(list@) == near_files(all.take(i as int), requested@),
    {
        proof {
            prefix_step(all, i as int);
        }
        assert(all[i as int] == files@[i as int]@);
        if is_near(requested, files[i].as_str()) {
            list.push(files[i].clone());
        }
    }
    proof {
        prefix_all(all);
    }
    let ghost views = strings(list@);
    let ghost wanted = near_keys(views, requested@);
    let mut keys: Vec<Vec<u64>> = Vec::new();
    assert(key_list(keys@) =~= wanted.take(0));
    for i in 0..list.len()
        invariant
            views == strings(list@),
            wanted == near_keys(views, requested@),
            keys.len() == i,
            key_list(keys@) == wanted.take(i as int),
    {
        proof {
            prefix_step(wanted, i as int);
        }
        assert(views[i as int] == list@[i as int]@);
        let ghost before = key_list(keys@);
        keys.push(key_near(requested, list[i].as_str()));
        assert(key_list(keys@) =~= before.push(wanted[i as int]));
    }
    proof {
        prefix_all(wanted);
    }
    let order = rank(&keys);
    let ghost sorted = ranking(near_keys(views, requested@)).map_values(|i: int| views[i]);
    assert(positions(order@).len() == order.len());
    let mut out: Vec<String> = Vec::new();
    assert(strings(out@) =~= sorted.take(0));
    for i in 0..order.len()
        invariant
            order.len() == keys.len(),
            list.len() == keys.len(),
            views == strings(list@),
            forall|j: int| 0 <= j < order.len() ==> (#[trigger] order@[j]) < keys.len(),
            positions(order@) == ranking(key_list(keys@)),
            key_list(keys@) == near_keys(views, requested@),
            sorted == ranking(near_keys(views, requested@)).map_values(|i: int| views[i]),
            sorted.len() == order.len(),
            strings(out@) == sorted.take(i as int),
    {
        proof {
            prefix_step(sorted, i as int);
            assert(positions(order@)[i as int] == order@[i as int] as int);
        }
        out.push(list[order[i]].clone());
    }
    proof {
        prefix_all(sorted);
    }
    assert(strings(out@).len() == out.len());
    if out.len() > 5 {
        out.truncate(5);
        assert(strings(out@) =~= sorted.take(5));
    }
    out
}

/// The files of a project near a request.
pub open spec fn nearby(files: Seq<Seq<char>>, requested: Seq<char>) -> Seq<Seq<char>> {
    match requested_file(requested) {
        Some(path) => nearest(files, path),
        None => Seq::empty(),
    }
}

/// Computes [`nearby`].
pub fn nearby_source_paths(files: &Vec<String>, requested: &str) -> (r: Vec<String>)
    ensures
        strings(r@) == nearby(strings(files@), requested@),
{
    match source_request_path(requested) {
        Some(path) => nearest_files(files, path.as_str()),
        None => {
            let out: Vec<String> = Vec::new();
            assert(strings(out@) =~= Seq::empty());
            out
        },
    }
}

/// What is said when a source is not found: the files near it are listed.
pub open spec fn not_found(files: Seq<Seq<char>>, requested: Seq<char>) -> Seq<char> {
    let near_list = nearby(files, requested);
    "source file not found or ambiguous: "@ + requested + if near_list.len() == 0 {
        ""@
    } else {
        "\nnearby sources:"@ + listed(near_list, "\n  "@)
    }
}

/// Computes [`not_found`].
pub fn missing_source_with_nearby(files: &Vec<String>, requested: &str) -> (r: String)
    ensures
        r@ == not_found(strings(files@), requested@),
{
    let mut out = cat2("source file not found or ambiguous: ", requested);
    let list = nearby_source_paths(files, requested);
    assert(strings(list@).len() == list.len());
    if list.len() == 0 {
        push_str(&mut out, "");
    } else {
        let mut part = own("\nnearby sources:");
        push_list(&mut part, &list, "\n  ");
        push_str(&mut out, part.as_str());
    }
    out
}

/// Whether a project has a file of a name.
pub open spec fn has_file_named(files: Seq<Seq<char>>, name: Seq<char>) -> bool {
    exists|i: int| 0 <= i < files.len() && base_name(#[trigger] files[i]) == Some(name)
}

fn is_file_there(files: &Vec<String>, name: &str) -> (r: bool)
    ensures
        r == has_file_named(strings(files@), name@),
{
    let ghost views = strings(files@);
    for i in 0..files.len()
        invariant
            views == strings(files@),
            forall|j: int| 0 <= j < i ==> base_name(#[trigger] views[j]) != Some(name@),
    {
        assert(views[i as int] == files@[i as int]@);
        if let Some(n) = file_name(files[i].as_str()) {
            if same(n, name) {
                return true;
            }
        }
    }
    assert(views.len() == files.len());
    false
}

/// The view of an optional tree.
pub open spec fn opt_tree(tree: Option<&SourceTree>) -> Option<TreeView> {
    match tree {
        Some(t) => Some(t@),
        None => None,
    }
}

/// What is said when a source is not found in a workspace. Where the project's main
/// directory is another one that has it, a synchronisation is due.
pub open spec fn missing_source(
    tree: TreeView,
    main: Option<TreeView>,
    requested: Seq<char>,
) -> Seq<char> {
    let named = base_name(requested) is Some && has_file_named(
        tree.project_files,
        base_name(requested)->0,
    );
    if main is Some && !named && source_at(main->0, requested) is Some {
        "source file is on managed main; run mathmux sync"@
    } else {
        not_found(tree.project_files, requested)
    }
}

/// Computes [`missing_source`].
pub fn missing_source_message(tree: &SourceTree, main: Option<&SourceTree>, requested: &str) -> (r:
    String)
    ensures
        r@ == missing_source(tree@, opt_tree(main), requested@),
{
    if let Some(other) = main {
        let named = match file_name(requested) {
            Some(name) => is_file_there(&tree.project_files, name),
            None => false,
        };
        if !named && resolve_source_path(other, requested).is_some() {
            return own("source file is on managed main; run mathmux sync");
        }
    }
    missing_source_with_nearby(&tree.project_files, requested)
}

} // verus!

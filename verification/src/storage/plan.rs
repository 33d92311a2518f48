//! What a collection removes.
use crate::failure::{refuse, unit_view, Failure};
use crate::order::{key_list, positions, rank, ranking};
use crate::path::{
    absolute, base_name, components, extension, extension_of, file_name, is_absolute, is_under,
    join_path, lies_under, placed_under, split_path,
};
use crate::search::fallback::{code_path, path_code};
use crate::search::tokens::{append_strings, distinct, without_repeats};
use crate::storage::size::{holds_file, same_file, FileRecord};
use crate::text::class::{all_of, is_all, Class};
use crate::text::make::{
    cat2, copy_strings, join, joined, own, prefix_all, prefix_step, same, strings, strings_push,
    strs,
};
use crate::text::pieces::{has_string, line_list, lines, split_text, fields};
use crate::text::scan::{
    after_prefix, bare, cut, opt_str, opt_string, sans_suffix, split_once, strip_prefix, trim,
    without_suffix,
};
use vstd::prelude::*;

verus! {

broadcast use strings_push;

/// The key that orders a path, component by component.
pub open spec fn path_key(path: Seq<char>) -> Seq<u64> {
    seq![
        if absolute(path) {
            0u64
        } else {
            1u64
        },
    ] + path_code(components(path))
}

/// Paths in order.
pub open spec fn sorted_paths(list: Seq<Seq<char>>) -> Seq<Seq<char>> {
    ranking(list.map_values(|p: Seq<char>| path_key(p))).map_values(|i: int| list[i])
}

fn key_of_path(path: &str) -> (r: Vec<u64>)
    ensures
        r@ == path_key(path@),
{
    let mut out: Vec<u64> = Vec::new();
    out.push(
        if is_absolute(path) {
            0
        } else {
            1
        },
    );
    let mut rest = code_path(&split_path(path));
    out.append(&mut rest);
    assert(out@ =~= path_key(path@));
    out
}

/// Computes [`sorted_paths`].
pub fn sort_paths(list: &Vec<String>) -> (r: Vec<String>)
    ensures
        strings(r@) == sorted_paths(strings(list@)),
{
    let ghost wanted = strings(list@).map_values(|p: Seq<char>| path_key(p));
    let mut keys: Vec<Vec<u64>> = Vec::new();
    assert(key_list(keys@) =~= wanted.take(0));
    for i in 0..list.len()
        invariant
            wanted == strings(list@).map_values(|p: Seq<char>| path_key(p)),
            keys.len() == i,
            key_list(keys@) == wanted.take(i as int),
    {
        proof {
            prefix_step(wanted, i as int);
        }
        let ghost before = key_list(keys@);
        keys.push(key_of_path(list[i].as_str()));
        assert(key_list(keys@) =~= before.push(wanted[i as int]));
    }
    proof {
        prefix_all(wanted);
    }
    let order = rank(&keys);
    let ghost sorted = sorted_paths(strings(list@));
    assert(positions(order@).len() == order.len());
    let mut out: Vec<String> = Vec::new();
    assert(strings(out@) =~= sorted.take(0));
    for i in 0..order.len()
        invariant
            order.len() == keys.len(),
            list.len() == keys.len(),
            forall|j: int| 0 <= j < order.len() ==> (#[trigger] order@[j]) < keys.len(),
            positions(order@) == ranking(key_list(keys@)),
            key_list(keys@) == strings(list@).map_values(|p: Seq<char>| path_key(p)),
            sorted == sorted_paths(strings(list@)),
            sorted.len() == order.len(),
            strings(out@) == sorted.take(i as int),
    {
        proof {
            prefix_step(sorted, i as int);
            assert(positions(order@)[i as int] == order@[i as int] as int);
        }
        out.push(list[order[i]].clone());
    }
    proof {
        prefix_all(sorted);
    }
    out
}

/// Sorting a list of paths keeps what it holds.
pub proof fn sorting_keeps_paths(list: Seq<Seq<char>>, path: Seq<char>)
    ensures
        sorted_paths(list).contains(path) <==> list.contains(path),
{
    let keys = list.map_values(|p: Seq<char>| path_key(p));
    crate::order::ranking_is_permutation(keys);
    let order = ranking(keys);
    if list.contains(path) {
        let i = list.index_of(path);
        assert(order.contains(i));
        let k = order.index_of(i);
        assert(sorted_paths(list)[k] == list[i]);
    }
    if sorted_paths(list).contains(path) {
        let k = sorted_paths(list).index_of(path);
        assert(sorted_paths(list)[k] == list[order[k]]);
        assert(order.contains(order[k]));
    }
}

/// What a request for a collection is refused for.
pub open spec fn request_fault(dry_run: bool, hard: bool, confirm: bool) -> Result<(), Seq<char>> {
    if confirm && !hard {
        Err("--confirm is only valid with --hard"@)
    } else if hard && !dry_run && !confirm {
        Err("hard GC requires --confirm; run --hard --dry-run first"@)
    } else {
        Ok(())
    }
}

/// Refuses a request that would remove more than was asked for.
pub fn check_gc_request(dry_run: bool, hard: bool, confirm: bool) -> (r: Result<(), Failure>)
    ensures
        unit_view(r) == request_fault(dry_run, hard, confirm),
{
    if confirm && !hard {
        return refuse("--confirm is only valid with --hard");
    }
    if hard && !dry_run && !confirm {
        return refuse("hard GC requires --confirm; run --hard --dry-run first");
    }
    Ok(())
}

/// A hard collection that changes anything was confirmed.
pub proof fn hard_collections_are_confirmed(dry_run: bool, hard: bool, confirm: bool)
    ensures
        request_fault(dry_run, hard, confirm) is Ok && hard && !dry_run ==> confirm,
        request_fault(dry_run, hard, confirm) is Ok && confirm ==> hard,
{
}

/// What a hard collection waits for.
pub open spec fn hard_fault(running: Seq<Seq<char>>, validation_work: bool) -> Result<(), Seq<char>> {
    if running.len() > 0 {
        Err("hard GC refused while checks are running: "@ + joined(running, ", "@))
    } else if validation_work {
        Err("hard GC refused while the validation queue is not empty"@)
    } else {
        Ok(())
    }
}

/// Refuses a hard collection while work is under way.
pub fn check_hard_gc(running: &Vec<String>, validation_work: bool) -> (r: Result<(), Failure>)
    ensures
        unit_view(r) == hard_fault(strings(running@), validation_work),
{
    assert(strings(running@).len() == running.len());
    if running.len() > 0 {
        let list = join(running, ", ");
        return refuse(cat2("hard GC refused while checks are running: ", list.as_str()).as_str());
    }
    if validation_work {
        return refuse("hard GC refused while the validation queue is not empty");
    }
    Ok(())
}

/// An entry of a directory.
#[derive(Debug)]
pub struct DirectoryEntry {
    pub path: String,
    pub is_dir: bool,
}

/// The contents of a [`DirectoryEntry`].
pub struct EntryView {
    pub path: Seq<char>,
    pub is_dir: bool,
}

impl View for DirectoryEntry {
    type V = EntryView;

    open spec fn view(&self) -> EntryView {
        EntryView { path: self.path@, is_dir: self.is_dir }
    }
}

/// The contents of a list of entries.
pub open spec fn directory_views(list: Seq<DirectoryEntry>) -> Seq<EntryView> {
    list.map_values(|e: DirectoryEntry| e@)
}

/// A directory with the setups of a workspace that was deleted.
pub open spec fn deleted_setup(e: EntryView, deleted: Seq<Seq<char>>) -> bool {
    e.is_dir && base_name(e.path) is Some && base_name(e.path)->0 != "shared"@
        && deleted.contains(base_name(e.path)->0)
}

/// The directories with the setups of deleted workspaces.
pub open spec fn deleted_setups(list: Seq<EntryView>, deleted: Seq<Seq<char>>) -> Seq<Seq<char>>
    decreases list.len(),
{
    if list.len() == 0 {
        Seq::empty()
    } else if deleted_setup(list.last(), deleted) {
        deleted_setups(list.drop_last(), deleted).push(list.last().path)
    } else {
        deleted_setups(list.drop_last(), deleted)
    }
}

fn collect_deleted(list: &Vec<DirectoryEntry>, deleted: &Vec<String>) -> (r: Vec<String>)
    ensures
        strings(r@) == deleted_setups(directory_views(list@), strings(deleted@)),
{
    let ghost views = directory_views(list@);
    let mut out: Vec<String> = Vec::new();
    assert(strings(out@) =~= Seq::empty());
    for i in 0..list.len()
        invariant
            views == directory_views(list@),
            strings(out@) == deleted_setups(views.take(i as int), strings(deleted@)),
    {
        proof {
            prefix_step(views, i as int);
        }
        assert(views[i as int] == list@[i as int]@);
        if let Some(name) = file_name(list[i].path.as_str()) {
            if list[i].is_dir && !same(name, "shared") && has_string(deleted, name) {
                out.push(list[i].path.clone());
            }
        }
    }
    proof {
        prefix_all(views);
    }
    out
}

/// A directory of a generation of the Lean service that nothing uses.
pub open spec fn obsolete_service(e: EntryView, expected: Seq<Seq<char>>) -> bool {
    e.is_dir && base_name(e.path) is Some && !expected.contains(base_name(e.path)->0)
}

/// The directories of generations that nothing uses.
pub open spec fn obsolete_services(list: Seq<EntryView>, expected: Seq<Seq<char>>) -> Seq<Seq<char>>
    decreases list.len(),
{
    if list.len() == 0 {
        Seq::empty()
    } else if obsolete_service(list.last(), expected) {
        obsolete_services(list.drop_last(), expected).push(list.last().path)
    } else {
        obsolete_services(list.drop_last(), expected)
    }
}

fn collect_obsolete(list: &Vec<DirectoryEntry>, expected: &Vec<String>) -> (r: Vec<String>)
    ensures
        strings(r@) == obsolete_services(directory_views(list@), strings(expected@)),
{
    let ghost views = directory_views(list@);
    let mut out: Vec<String> = Vec::new();
    assert(strings(out@) =~= Seq::empty());
    for i in 0..list.len()
        invariant
            views == directory_views(list@),
            strings(out@) == obsolete_services(views.take(i as int), strings(expected@)),
    {
        proof {
            prefix_step(views, i as int);
        }
        assert(views[i as int] == list@[i as int]@);
        if let Some(name) = file_name(list[i].path.as_str()) {
            if list[i].is_dir && !has_string(expected, name) {
                out.push(list[i].path.clone());
            }
        }
    }
    proof {
        prefix_all(views);
    }
    out
}

/// A setup that workspaces share, with those of its companions that exist.
#[derive(Debug)]
pub struct SharedSetup {
    pub path: String,
    pub record: FileRecord,
    pub companions: Vec<String>,
}

/// The contents of a [`SharedSetup`].
pub struct SharedView {
    pub path: Seq<char>,
    pub record: FileRecord,
    pub companions: Seq<Seq<char>>,
}

impl View for SharedSetup {
    type V = SharedView;

    open spec fn view(&self) -> SharedView {
        SharedView {
            path: self.path@,
            record: self.record,
            companions: strings(self.companions@),
        }
    }
}

/// The contents of a list of setups.
pub open spec fn shared_views(list: Seq<SharedSetup>) -> Seq<SharedView> {
    list.map_values(|s: SharedSetup| s@)
}

/// A setup that no active workspace links to.
pub open spec fn unused_setup(s: SharedView, active: Seq<FileRecord>) -> bool {
    extension_of(s.path) == Some("json"@) && !holds_file(active, s.record)
}

/// The files of the setups that no active workspace links to.
pub open spec fn unused_setups(list: Seq<SharedView>, active: Seq<FileRecord>) -> Seq<Seq<char>>
    decreases list.len(),
{
    if list.len() == 0 {
        Seq::empty()
    } else if unused_setup(list.last(), active) {
        unused_setups(list.drop_last(), active).push(list.last().path) + list.last().companions
    } else {
        unused_setups(list.drop_last(), active)
    }
}

fn is_file_held(list: &Vec<FileRecord>, f: &FileRecord) -> (r: bool)
    ensures
        r == holds_file(list@, *f),
{
    for i in 0..list.len()
        invariant
            forall|j: int| 0 <= j < i ==> !same_file(#[trigger] list@[j], *f),
    {
        if list[i].device == f.device && list[i].inode == f.inode {
            assert(same_file(list@[i as int], *f));
            return true;
        }
    }
    false
}

fn collect_unused(list: &Vec<SharedSetup>, active: &Vec<FileRecord>) -> (r: Vec<String>)
    ensures
        strings(r@) == unused_setups(shared_views(list@), active@),
{
    let ghost views = shared_views(list@);
    let mut out: Vec<String> = Vec::new();
    assert(strings(out@) =~= Seq::empty());
    for i in 0..list.len()
        invariant
            views == shared_views(list@),
            strings(out@) == unused_setups(views.take(i as int), active@),
    {
        proof {
            prefix_step(views, i as int);
        }
        assert(views[i as int] == list@[i as int]@);
        let json = match extension(list[i].path.as_str()) {
            Some(ext) => same(ext, "json"),
            None => false,
        };
        if json && !is_file_held(active, &list[i].record) {
            out.push(list[i].path.clone());
            append_strings(&mut out, copy_strings(&list[i].companions));
        }
    }
    proof {
        prefix_all(views);
    }
    out
}

/// The companions that a setup may have.
pub fn setup_companions(path: &str) -> (r: Vec<String>)
    ensures
        strings(r@) == seq![
            sans_suffix(path@, "json"@) + "fingerprint"@,
            sans_suffix(path@, "json"@) + "lock"@,
        ],
{
    let stem = without_suffix(path, "json");
    let mut out: Vec<String> = Vec::new();
    out.push(cat2(stem, "fingerprint"));
    out.push(cat2(stem, "lock"));
    assert(strings(out@) =~= seq![
        sans_suffix(path@, "json"@) + "fingerprint"@,
        sans_suffix(path@, "json"@) + "lock"@,
    ]);
    out
}

/// What a normal collection removes.
#[derive(Debug)]
pub struct CleanupPlan {
    pub deleted_setup_directories: Vec<String>,
    pub shared_setup_files: Vec<String>,
    pub lean_service_directories: Vec<String>,
}

/// The contents of a [`CleanupPlan`].
pub struct PlanView {
    pub deleted_setup_directories: Seq<Seq<char>>,
    pub shared_setup_files: Seq<Seq<char>>,
    pub lean_service_directories: Seq<Seq<char>>,
}

impl View for CleanupPlan {
    type V = PlanView;

    open spec fn view(&self) -> PlanView {
        PlanView {
            deleted_setup_directories: strings(self.deleted_setup_directories@),
            shared_setup_files: strings(self.shared_setup_files@),
            lean_service_directories: strings(self.lean_service_directories@),
        }
    }
}

/// The plan of a normal collection.
pub open spec fn plan_of(
    setups: Seq<EntryView>,
    deleted: Seq<Seq<char>>,
    shared: Seq<SharedView>,
    active: Seq<FileRecord>,
    services: Seq<EntryView>,
    expected: Seq<Seq<char>>,
) -> PlanView {
    PlanView {
        deleted_setup_directories: sorted_paths(deleted_setups(setups, deleted)),
        shared_setup_files: sorted_paths(unused_setups(shared, active)),
        lean_service_directories: sorted_paths(obsolete_services(services, expected)),
    }
}

/// Computes [`plan_of`]: `setups` and `services` are the entries of the directories of
/// setups and of the Lean service, `deleted` the references of deleted workspaces,
/// `active` the files of the setups of active ones, and `expected` the generations of
/// the Lean service that are in use.
pub fn cleanup_plan(
    setups: &Vec<DirectoryEntry>,
    deleted: &Vec<String>,
    shared: &Vec<SharedSetup>,
    active: &Vec<FileRecord>,
    services: &Vec<DirectoryEntry>,
    expected: &Vec<String>,
) -> (r: CleanupPlan)
    ensures
        r@ == plan_of(
            directory_views(setups@),
            strings(deleted@),
            shared_views(shared@),
            active@,
            directory_views(services@),
            strings(expected@),
        ),
{
    CleanupPlan {
        deleted_setup_directories: sort_paths(&collect_deleted(setups, deleted)),
        shared_setup_files: sort_paths(&collect_unused(shared, active)),
        lean_service_directories: sort_paths(&collect_obsolete(services, expected)),
    }
}

proof fn deleted_setups_are_deleted(list: Seq<EntryView>, deleted: Seq<Seq<char>>, path: Seq<char>)
    requires
        deleted_setups(list, deleted).contains(path),
    ensures
        exists|i: int|
            0 <= i < list.len() && (#[trigger] list[i]).path == path && deleted_setup(
                list[i],
                deleted,
            ),
    decreases list.len(),
{
    if list.len() > 0 {
        let before = deleted_setups(list.drop_last(), deleted);
        if before.contains(path) {
            deleted_setups_are_deleted(list.drop_last(), deleted, path);
            let i = choose|i: int|
                0 <= i < list.drop_last().len() && (#[trigger] list.drop_last()[i]).path == path
                    && deleted_setup(list.drop_last()[i], deleted);
            assert(list[i].path == path);
        } else {
            let all = deleted_setups(list, deleted);
            let k = all.index_of(path);
            assert(k == before.len());
            assert(list[list.len() - 1].path == path);
        }
    }
}

/// A normal collection removes no setups but those of workspaces that were deleted.
pub proof fn only_deleted_setups_are_removed(
    setups: Seq<EntryView>,
    deleted: Seq<Seq<char>>,
    shared: Seq<SharedView>,
    active: Seq<FileRecord>,
    services: Seq<EntryView>,
    expected: Seq<Seq<char>>,
    path: Seq<char>,
)
    requires
        plan_of(setups, deleted, shared, active, services, expected)
            .deleted_setup_directories.contains(path),
    ensures
        base_name(path) is Some,
        deleted.contains(base_name(path)->0),
        base_name(path)->0 != "shared"@,
{
    sorting_keeps_paths(deleted_setups(setups, deleted), path);
    deleted_setups_are_deleted(setups, deleted, path);
}

proof fn obsolete_services_are_unused(
    list: Seq<EntryView>,
    expected: Seq<Seq<char>>,
    path: Seq<char>,
)
    requires
        obsolete_services(list, expected).contains(path),
    ensures
        base_name(path) is Some,
        !expected.contains(base_name(path)->0),
    decreases list.len(),
{
    if list.len() > 0 {
        let before = obsolete_services(list.drop_last(), expected);
        if before.contains(path) {
            obsolete_services_are_unused(list.drop_last(), expected, path);
        } else {
            let all = obsolete_services(list, expected);
            let k = all.index_of(path);
            assert(k == before.len());
        }
    }
}

/// A normal collection removes no generation of the Lean service that is in use.
pub proof fn used_services_stay(
    setups: Seq<EntryView>,
    deleted: Seq<Seq<char>>,
    shared: Seq<SharedView>,
    active: Seq<FileRecord>,
    services: Seq<EntryView>,
    expected: Seq<Seq<char>>,
    path: Seq<char>,
)
    requires
        plan_of(setups, deleted, shared, active, services, expected)
            .lean_service_directories.contains(path),
    ensures
        base_name(path) is Some,
        !expected.contains(base_name(path)->0),
{
    sorting_keeps_paths(obsolete_services(services, expected), path);
    obsolete_services_are_unused(services, expected, path);
}

/// The paths that a normal collection removes.
pub open spec fn plan_paths(plan: PlanView) -> Seq<Seq<char>> {
    plan.deleted_setup_directories + plan.shared_setup_files + plan.lean_service_directories
}

/// Computes [`plan_paths`].
pub fn cleanup_paths(plan: &CleanupPlan) -> (r: Vec<String>)
    ensures
        strings(r@) == plan_paths(plan@),
{
    let mut out = copy_strings(&plan.deleted_setup_directories);
    append_strings(&mut out, copy_strings(&plan.shared_setup_files));
    append_strings(&mut out, copy_strings(&plan.lean_service_directories));
    out
}

/// An artifact in a cache.
#[derive(Debug)]
pub struct Artifact {
    pub path: String,
    /// How many paths lead to the file.
    pub links: u64,
}

/// The contents of an [`Artifact`].
pub struct ArtifactView {
    pub path: Seq<char>,
    pub links: u64,
}

impl View for Artifact {
    type V = ArtifactView;

    open spec fn view(&self) -> ArtifactView {
        ArtifactView { path: self.path@, links: self.links }
    }
}

/// The contents of a list of artifacts.
pub open spec fn artifact_views(list: Seq<Artifact>) -> Seq<ArtifactView> {
    list.map_values(|a: Artifact| a@)
}

/// The artifacts that only the cache itself reaches.
pub open spec fn lone_artifacts(list: Seq<ArtifactView>) -> Seq<Seq<char>>
    decreases list.len(),
{
    if list.len() == 0 {
        Seq::empty()
    } else if list.last().links == 1 {
        lone_artifacts(list.drop_last()).push(list.last().path)
    } else {
        lone_artifacts(list.drop_last())
    }
}

fn collect_lone(list: &Vec<Artifact>) -> (r: Vec<String>)
    ensures
        strings(r@) == lone_artifacts(artifact_views(list@)),
{
    let ghost views = artifact_views(list@);
    let mut out: Vec<String> = Vec::new();
    assert(strings(out@) =~= Seq::empty());
    for i in 0..list.len()
        invariant
            views == artifact_views(list@),
            strings(out@) == lone_artifacts(views.take(i as int)),
    {
        proof {
            prefix_step(views, i as int);
        }
        assert(views[i as int] == list@[i as int]@);
        if list[i].links == 1 {
            out.push(list[i].path.clone());
        }
    }
    proof {
        prefix_all(views);
    }
    out
}

/// A working tree of the repository that no workspace is registered for.
#[derive(Debug)]
pub struct UnregisteredWorktree {
    pub path: String,
    pub exists: bool,
    /// How many paths in it have changes, where that could be found out.
    pub dirty_paths: Option<usize>,
}

/// The contents of an [`UnregisteredWorktree`].
pub struct WorktreeView {
    pub path: Seq<char>,
    pub exists: bool,
    pub dirty_paths: Option<usize>,
}

impl View for UnregisteredWorktree {
    type V = WorktreeView;

    open spec fn view(&self) -> WorktreeView {
        WorktreeView { path: self.path@, exists: self.exists, dirty_paths: self.dirty_paths }
    }
}

/// The contents of a list of working trees.
pub open spec fn worktree_views(list: Seq<UnregisteredWorktree>) -> Seq<WorktreeView> {
    list.map_values(|w: UnregisteredWorktree| w@)
}

/// What is known of the use of a working tree.
#[derive(Clone, Copy, Debug)]
pub struct WorktreeUse {
    pub locked: bool,
    /// A process works in it.
    pub active: bool,
    /// It holds what the main branch holds.
    pub same_tree: bool,
    /// It has a manifest of a Rust package.
    pub has_manifest: bool,
    /// It has a directory of build outputs.
    pub has_target: bool,
}

/// A working tree in which nothing would be lost.
pub open spec fn idle(w: WorktreeView, u: WorktreeUse) -> bool {
    w.exists && w.dirty_paths == Some(0usize) && !u.locked && !u.active
}

/// A working tree that a hard collection removes.
pub open spec fn removable(w: WorktreeView, u: WorktreeUse, parent: Seq<char>) -> bool {
    idle(w, u) && lies_under(w.path, parent) && u.same_tree
}

/// A working tree whose build outputs a hard collection removes.
pub open spec fn cleanable(w: WorktreeView, u: WorktreeUse, parent: Seq<char>) -> bool {
    idle(w, u) && !removable(w, u, parent) && u.has_manifest && u.has_target
}

fn is_idle(w: &UnregisteredWorktree, u: &WorktreeUse) -> (r: bool)
    ensures
        r == idle(w@, *u),
{
    let clean = match w.dirty_paths {
        Some(n) => n == 0,
        None => false,
    };
    w.exists && clean && !u.locked && !u.active
}

fn is_removable(w: &UnregisteredWorktree, u: &WorktreeUse, parent: &str) -> (r: bool)
    ensures
        r == removable(w@, *u, parent@),
{
    is_idle(w, u) && is_under(w.path.as_str(), parent) && u.same_tree
}

/// The working trees among the first `n` that a hard collection removes.
pub open spec fn removable_worktrees(
    list: Seq<WorktreeView>,
    uses: Seq<WorktreeUse>,
    parent: Seq<char>,
    n: nat,
) -> Seq<Seq<char>>
    decreases n,
{
    if n == 0 {
        Seq::empty()
    } else {
        let before = removable_worktrees(list, uses, parent, (n - 1) as nat);
        if removable(list[n - 1], uses[n - 1], parent) {
            before.push(list[n - 1].path)
        } else {
            before
        }
    }
}

/// The build outputs in the first `n` working trees that a hard collection removes.
pub open spec fn cleanable_targets(
    list: Seq<WorktreeView>,
    uses: Seq<WorktreeUse>,
    parent: Seq<char>,
    n: nat,
) -> Seq<Seq<char>>
    decreases n,
{
    if n == 0 {
        Seq::empty()
    } else {
        let before = cleanable_targets(list, uses, parent, (n - 1) as nat);
        if cleanable(list[n - 1], uses[n - 1], parent) {
            before.push(placed_under(list[n - 1].path, "target"@))
        } else {
            before
        }
    }
}

/// What a hard collection removes besides.
#[derive(Debug)]
pub struct HardCleanupPlan {
    pub lake_artifacts: Vec<String>,
    pub validation_build: Option<String>,
    pub worktree_targets: Vec<String>,
    pub unregistered_worktrees: Vec<String>,
}

/// The contents of a [`HardCleanupPlan`].
pub struct HardPlanView {
    pub lake_artifacts: Seq<Seq<char>>,
    pub validation_build: Option<Seq<char>>,
    pub worktree_targets: Seq<Seq<char>>,
    pub unregistered_worktrees: Seq<Seq<char>>,
}

impl View for HardCleanupPlan {
    type V = HardPlanView;

    open spec fn view(&self) -> HardPlanView {
        HardPlanView {
            lake_artifacts: strings(self.lake_artifacts@),
            validation_build: opt_string(self.validation_build),
            worktree_targets: strings(self.worktree_targets@),
            unregistered_worktrees: strings(self.unregistered_worktrees@),
        }
    }
}

/// The plan of a hard collection.
pub open spec fn hard_plan_of(
    artifacts: Seq<ArtifactView>,
    validation_build: Option<Seq<char>>,
    list: Seq<WorktreeView>,
    uses: Seq<WorktreeUse>,
    parent: Seq<char>,
) -> HardPlanView {
    HardPlanView {
        lake_artifacts: sorted_paths(lone_artifacts(artifacts)),
        validation_build,
        worktree_targets: sorted_paths(cleanable_targets(list, uses, parent, list.len())),
        unregistered_worktrees: sorted_paths(removable_worktrees(list, uses, parent, list.len())),
    }
}

/// Computes [`hard_plan_of`].
pub fn hard_cleanup_plan(
    artifacts: &Vec<Artifact>,
    validation_build: Option<&str>,
    unregistered: &Vec<UnregisteredWorktree>,
    uses: &Vec<WorktreeUse>,
    parent: &str,
) -> (r: HardCleanupPlan)
    requires
        unregistered.len() == uses.len(),
    ensures
        r@ == hard_plan_of(
            artifact_views(artifacts@),
            opt_str(validation_build),
            worktree_views(unregistered@),
            uses@,
            parent@,
        ),
{
    let ghost views = worktree_views(unregistered@);
    assert(views.len() == unregistered.len());
    let mut removed: Vec<String> = Vec::new();
    let mut targets: Vec<String> = Vec::new();
    assert(strings(removed@) =~= Seq::empty());
    assert(strings(targets@) =~= Seq::empty());
    for i in 0..unregistered.len()
        invariant
            unregistered.len() == uses.len(),
            views == worktree_views(unregistered@),
            strings(removed@) == removable_worktrees(views, uses@, parent@, i as nat),
            strings(targets@) == cleanable_targets(views, uses@, parent@, i as nat),
    {
        assert(views[i as int] == unregistered@[i as int]@);
        let w = &unregistered[i];
        let u = &uses[i];
        if is_removable(w, u, parent) {
            removed.push(w.path.clone());
        } else if is_idle(w, u) && u.has_manifest && u.has_target {
            targets.push(join_path(w.path.as_str(), "target"));
        }
    }
    HardCleanupPlan {
        lake_artifacts: sort_paths(&collect_lone(artifacts)),
        validation_build: match validation_build {
            Some(path) => Some(own(path)),
            None => None,
        },
        worktree_targets: sort_paths(&targets),
        unregistered_worktrees: sort_paths(&removed),
    }
}

/// The paths that a hard collection removes besides.
pub open spec fn hard_plan_paths(plan: HardPlanView) -> Seq<Seq<char>> {
    plan.lake_artifacts + (match plan.validation_build {
        Some(path) => seq![path],
        None => Seq::empty(),
    }) + plan.worktree_targets + plan.unregistered_worktrees
}

/// Computes [`hard_plan_paths`].
pub fn hard_cleanup_paths(plan: &HardCleanupPlan) -> (r: Vec<String>)
    ensures
        strings(r@) == hard_plan_paths(plan@),
{
    let mut out = copy_strings(&plan.lake_artifacts);
    let ghost first = strings(out@);
    if let Some(path) = &plan.validation_build {
        out.push(path.clone());
        assert(strings(out@) =~= first + seq![path@]);
    } else {
        assert(strings(out@) =~= first + Seq::<Seq<char>>::empty());
    }
    append_strings(&mut out, copy_strings(&plan.worktree_targets));
    append_strings(&mut out, copy_strings(&plan.unregistered_worktrees));
    out
}

proof fn removable_are_idle(
    list: Seq<WorktreeView>,
    uses: Seq<WorktreeUse>,
    parent: Seq<char>,
    n: nat,
    path: Seq<char>,
)
    requires
        n <= list.len(),
        removable_worktrees(list, uses, parent, n).contains(path),
    ensures
        exists|i: int|
            0 <= i < n && (#[trigger] list[i]).path == path && removable(list[i], uses[i], parent),
    decreases n,
{
    if n > 0 {
        let before = removable_worktrees(list, uses, parent, (n - 1) as nat);
        if before.contains(path) {
            removable_are_idle(list, uses, parent, (n - 1) as nat, path);
        } else {
            let all = removable_worktrees(list, uses, parent, n);
            let k = all.index_of(path);
            assert(k == before.len());
            assert(list[n - 1].path == path);
        }
    }
}

/// A hard collection removes no working tree with changes, none that is locked or in
/// use, none that holds anything but the main branch, and none outside the directory of
/// the workspaces.
pub proof fn only_idle_worktrees_are_removed(
    artifacts: Seq<ArtifactView>,
    validation_build: Option<Seq<char>>,
    list: Seq<WorktreeView>,
    uses: Seq<WorktreeUse>,
    parent: Seq<char>,
    path: Seq<char>,
)
    requires
        list.len() == uses.len(),
        hard_plan_of(artifacts, validation_build, list, uses, parent)
            .unregistered_worktrees.contains(path),
    ensures
        lies_under(path, parent),
        exists|i: int|
            0 <= i < list.len() && (#[trigger] list[i]).path == path && list[i].dirty_paths == Some(
                0usize,
            ) && !uses[i].locked && !uses[i].active && uses[i].same_tree,
{
    sorting_keeps_paths(removable_worktrees(list, uses, parent, list.len()), path);
    removable_are_idle(list, uses, parent, list.len(), path);
}

proof fn cleanable_stand(
    list: Seq<WorktreeView>,
    uses: Seq<WorktreeUse>,
    parent: Seq<char>,
    n: nat,
    path: Seq<char>,
)
    requires
        n <= list.len(),
    ensures
        cleanable_targets(list, uses, parent, n).contains(path) <==> exists|i: int|
            0 <= i < n && placed_under((#[trigger] list[i]).path, "target"@) == path && cleanable(
                list[i],
                uses[i],
                parent,
            ),
    decreases n,
{
    if n > 0 {
        let m = (n - 1) as nat;
        let before = cleanable_targets(list, uses, parent, m);
        let all = cleanable_targets(list, uses, parent, n);
        cleanable_stand(list, uses, parent, m, path);
        let own = placed_under(list[n - 1].path, "target"@) == path && cleanable(
            list[n - 1],
            uses[n - 1],
            parent,
        );
        if all.contains(path) {
            let k = all.index_of(path);
            if k < before.len() {
                assert(before[k] == path);
                assert(before.contains(path));
            }
        }
        if before.contains(path) {
            let k = before.index_of(path);
            assert(all[k] == path);
        }
        if own {
            assert(all[before.len() as int] == path);
        }
    }
}

proof fn removable_stand(
    list: Seq<WorktreeView>,
    uses: Seq<WorktreeUse>,
    parent: Seq<char>,
    n: nat,
    i: int,
)
    requires
        0 <= i < n <= list.len(),
        removable(list[i], uses[i], parent),
    ensures
        removable_worktrees(list, uses, parent, n).contains(list[i].path),
    decreases n,
{
    let before = removable_worktrees(list, uses, parent, (n - 1) as nat);
    let all = removable_worktrees(list, uses, parent, n);
    if i < n - 1 {
        removable_stand(list, uses, parent, (n - 1) as nat, i);
        let k = before.index_of(list[i].path);
        assert(all[k] == list[i].path);
    } else {
        assert(all[before.len() as int] == list[i].path);
    }
}

/// Of a working tree a hard collection removes the build outputs just where it exists, has
/// no changes, is neither locked nor in use, has a manifest and build outputs, and is not
/// removed as a whole.
pub proof fn only_idle_targets_are_removed(
    artifacts: Seq<ArtifactView>,
    validation_build: Option<Seq<char>>,
    list: Seq<WorktreeView>,
    uses: Seq<WorktreeUse>,
    parent: Seq<char>,
    path: Seq<char>,
)
    requires
        list.len() == uses.len(),
    ensures
        hard_plan_of(artifacts, validation_build, list, uses, parent).worktree_targets.contains(
            path,
        ) <==> exists|i: int|
            0 <= i < list.len() && placed_under((#[trigger] list[i]).path, "target"@) == path
                && list[i].exists && list[i].dirty_paths == Some(0usize) && !uses[i].locked
                && !uses[i].active && uses[i].has_manifest && uses[i].has_target && !(
            uses[i].same_tree && lies_under(list[i].path, parent)),
{
    sorting_keeps_paths(cleanable_targets(list, uses, parent, list.len()), path);
    cleanable_stand(list, uses, parent, list.len(), path);
    if exists|i: int|
        0 <= i < list.len() && placed_under((#[trigger] list[i]).path, "target"@) == path
            && list[i].exists && list[i].dirty_paths == Some(0usize) && !uses[i].locked
            && !uses[i].active && uses[i].has_manifest && uses[i].has_target && !(uses[i].same_tree
            && lies_under(list[i].path, parent)) {
        let i = choose|i: int|
            0 <= i < list.len() && placed_under((#[trigger] list[i]).path, "target"@) == path
                && list[i].exists && list[i].dirty_paths == Some(0usize) && !uses[i].locked
                && !uses[i].active && uses[i].has_manifest && uses[i].has_target && !(
            uses[i].same_tree && lies_under(list[i].path, parent));
        assert(cleanable(list[i], uses[i], parent));
    }
}

/// A working tree that exists in the directory of the workspaces without changes, that is
/// neither locked nor in use, and that holds what the main branch holds, is removed by a
/// hard collection.
pub proof fn idle_worktrees_are_removed(
    artifacts: Seq<ArtifactView>,
    validation_build: Option<Seq<char>>,
    list: Seq<WorktreeView>,
    uses: Seq<WorktreeUse>,
    parent: Seq<char>,
    i: int,
)
    requires
        list.len() == uses.len(),
        0 <= i < list.len(),
        list[i].exists,
        list[i].dirty_paths == Some(0usize),
        !uses[i].locked,
        !uses[i].active,
        uses[i].same_tree,
        lies_under(list[i].path, parent),
    ensures
        hard_plan_of(
            artifacts,
            validation_build,
            list,
            uses,
            parent,
        ).unregistered_worktrees.contains(list[i].path),
{
    removable_stand(list, uses, parent, list.len(), i);
    sorting_keeps_paths(removable_worktrees(list, uses, parent, list.len()), list[i].path);
}

proof fn lone_artifacts_stand(list: Seq<ArtifactView>, path: Seq<char>)
    ensures
        lone_artifacts(list).contains(path) <==> exists|i: int|
            0 <= i < list.len() && (#[trigger] list[i]).path == path && list[i].links == 1,
    decreases list.len(),
{
    if list.len() > 0 {
        let shorter = list.drop_last();
        let before = lone_artifacts(shorter);
        let all = lone_artifacts(list);
        lone_artifacts_stand(shorter, path);
        if all.contains(path) {
            let k = all.index_of(path);
            if k < before.len() {
                assert(before[k] == path);
                let i = choose|i: int|
                    0 <= i < shorter.len() && (#[trigger] shorter[i]).path == path
                        && shorter[i].links == 1;
                assert(list[i].path == path);
            } else {
                assert(list[list.len() - 1].path == path);
            }
        }
        if exists|i: int|
            0 <= i < list.len() && (#[trigger] list[i]).path == path && list[i].links == 1 {
            let i = choose|i: int|
                0 <= i < list.len() && (#[trigger] list[i]).path == path && list[i].links == 1;
            if i < shorter.len() {
                assert(shorter[i].path == path);
                assert(before.contains(path));
                let k = before.index_of(path);
                assert(all[k] == path);
            } else {
                assert(all[before.len() as int] == path);
            }
        }
    }
}

/// A hard collection removes an artifact just where nothing else links to it, and the
/// build of the validation just where there is one.
pub proof fn only_lone_artifacts_are_removed(
    artifacts: Seq<ArtifactView>,
    validation_build: Option<Seq<char>>,
    list: Seq<WorktreeView>,
    uses: Seq<WorktreeUse>,
    parent: Seq<char>,
    path: Seq<char>,
)
    ensures
        hard_plan_of(artifacts, validation_build, list, uses, parent).lake_artifacts.contains(
            path,
        ) <==> exists|i: int|
            0 <= i < artifacts.len() && (#[trigger] artifacts[i]).path == path
                && artifacts[i].links == 1,
        hard_plan_of(artifacts, validation_build, list, uses, parent).validation_build
            == validation_build,
{
    sorting_keeps_paths(lone_artifacts(artifacts), path);
    lone_artifacts_stand(artifacts, path);
}

/// The paths of the working trees that a listing of git names, without some.
pub open spec fn listed_worktrees(lines: Seq<Seq<char>>, known: Seq<Seq<char>>) -> Seq<Seq<char>>
    decreases lines.len(),
{
    if lines.len() == 0 {
        Seq::empty()
    } else {
        let before = listed_worktrees(lines.drop_last(), known);
        match after_prefix(lines.last(), "worktree "@) {
            Some(path) => if known.contains(path) {
                before
            } else {
                before.push(path)
            },
            None => before,
        }
    }
}

/// The working trees that a listing of git names and no workspace is registered for, in
/// order and each once. `known` holds the directories of the project, of validation and
/// of the workspaces.
pub fn unregistered_worktrees(listing: &str, known: &Vec<String>) -> (r: Vec<String>)
    ensures
        strings(r@) == distinct(
            sorted_paths(listed_worktrees(line_list(listing@), strings(known@))),
        ),
{
    let list = lines(listing);
    let ghost views = strs(list@);
    let mut out: Vec<String> = Vec::new();
    assert(strings(out@) =~= Seq::empty());
    for i in 0..list.len()
        invariant
            views == strs(list@),
            strings(out@) == listed_worktrees(views.take(i as int), strings(known@)),
    {
        proof {
            prefix_step(views, i as int);
        }
        assert(views[i as int] == list@[i as int]@);
        if let Some(path) = strip_prefix(list[i], "worktree ") {
            if !has_string(known, path) {
                out.push(own(path));
            }
        }
    }
    proof {
        prefix_all(views);
    }
    without_repeats(&sort_paths(&out))
}

/// The directory of git that a working tree points to.
pub open spec fn git_directory(contents: Seq<char>, worktree: Seq<char>) -> Option<Seq<char>> {
    match after_prefix(contents, "gitdir:"@) {
        Some(rest) => Some(placed_under(worktree, bare(rest))),
        None => None,
    }
}

/// Computes [`git_directory`]. A working tree without one counts as locked.
pub fn git_directory_of(contents: &str, worktree: &str) -> (r: Option<String>)
    ensures
        opt_string(r) == git_directory(contents@, worktree@),
{
    match strip_prefix(contents, "gitdir:") {
        Some(rest) => Some(join_path(worktree, trim(rest))),
        None => None,
    }
}

/// The generations that the arguments of a command name under a directory.
pub open spec fn generations_in(arguments: Seq<Seq<char>>, prefix: Seq<char>) -> Seq<Seq<char>>
    decreases arguments.len(),
{
    if arguments.len() == 0 {
        Seq::empty()
    } else {
        let before = generations_in(arguments.drop_last(), prefix);
        match after_prefix(arguments.last(), prefix) {
            Some(rest) => {
                let name = match cut(rest, "/"@) {
                    Some(sides) => sides.0,
                    None => rest,
                };
                if name.len() == 0 {
                    before
                } else {
                    before.push(name)
                }
            },
            None => before,
        }
    }
}

/// The generations of the Lean service that the command line of a process names.
pub fn in_use_lean_service_generations(command: &str, service_root: &str) -> (r: Vec<String>)
    ensures
        strings(r@) == generations_in(fields(command@, "\0"@), service_root@ + "/"@),
{
    let prefix = cat2(service_root, "/");
    proof {
        reveal_strlit("\0");
    }
    let list = split_text(command, "\0");
    let ghost views = strs(list@);
    let mut out: Vec<String> = Vec::new();
    assert(strings(out@) =~= Seq::empty());
    for i in 0..list.len()
        invariant
            prefix@ == service_root@ + "/"@,
            views == strs(list@),
            strings(out@) == generations_in(views.take(i as int), prefix@),
    {
        proof {
            prefix_step(views, i as int);
        }
        assert(views[i as int] == list@[i as int]@);
        if let Some(rest) = strip_prefix(list[i], prefix.as_str()) {
            let name = match split_once(rest, "/") {
                Some(sides) => sides.0,
                None => rest,
            };
            if !name.is_empty() {
                out.push(own(name));
            }
        }
    }
    proof {
        prefix_all(views);
    }
    out
}

/// A process as the machine tells it: its entry, where it works, and what it was called with.
#[derive(Debug)]
pub struct ProcessEntry {
    pub name: String,
    pub directory: Option<String>,
    pub command: Option<Vec<u8>>,
}

/// The contents of a [`ProcessEntry`].
pub struct ProcessView {
    pub name: Seq<char>,
    pub directory: Option<Seq<char>>,
    pub command: Option<Seq<u8>>,
}

impl View for ProcessEntry {
    type V = ProcessView;

    open spec fn view(&self) -> ProcessView {
        ProcessView {
            name: self.name@,
            directory: opt_string(self.directory),
            command: match self.command {
                Some(bytes) => Some(bytes@),
                None => None,
            },
        }
    }
}

/// Whether bytes stand in a row of bytes.
pub open spec fn holds_bytes(list: Seq<u8>, part: Seq<u8>) -> bool {
    exists|i: int| 0 <= i <= list.len() - part.len() && #[trigger] bytes_at(list, part, i)
}

/// Whether bytes stand at a place of a row of bytes.
pub open spec fn bytes_at(list: Seq<u8>, part: Seq<u8>, i: int) -> bool {
    list.subrange(i, i + part.len()) == part
}

/// Whether a process works in a worktree: it stands there, or was called with its path.
pub open spec fn works_in(process: ProcessView, worktree: Seq<char>) -> bool {
    &&& all_of(process.name, Class::Digit)
    &&& {
        ||| process.directory matches Some(directory) && lies_under(directory, worktree)
        ||| process.command matches Some(command) && holds_bytes(
            command,
            vstd::utf8::encode_utf8(worktree),
        )
    }
}

fn stand_at(list: &Vec<u8>, part: &[u8], i: usize) -> (r: bool)
    requires
        i + part@.len() <= list.len(),
    ensures
        r == bytes_at(list@, part@, i as int),
{
    for k in 0..part.len()
        invariant
            i + part@.len() <= list.len(),
            forall|j: int| 0 <= j < k ==> list@[i + j] == #[trigger] part@[j],
    {
        if list[i + k] != part[k] {
            assert(list@.subrange(i as int, i + part@.len())[k as int] != part@[k as int]);
            return false;
        }
    }
    assert(list@.subrange(i as int, i + part@.len()) =~= part@);
    true
}

fn has_bytes(list: &Vec<u8>, part: &[u8]) -> (r: bool)
    ensures
        r == holds_bytes(list@, part@),
{
    if part.len() > list.len() {
        return false;
    }
    let last = list.len() - part.len();
    let mut i: usize = 0;
    while i <= last
        invariant
            last + part@.len() == list.len(),
            i <= last + 1,
            forall|j: int| 0 <= j < i ==> !#[trigger] bytes_at(list@, part@, j),
        decreases last + 1 - i,
    {
        if stand_at(list, part, i) {
            return true;
        }
        if i == last {
            return false;
        }
        i += 1;
    }
    false
}

/// Whether a process works in a worktree.
pub fn worktree_has_active_process(worktree: &str, processes: &Vec<ProcessEntry>) -> (r: bool)
    ensures
        r == exists|i: int|
            0 <= i < processes.len() && works_in(#[trigger] processes@[i]@, worktree@),
{
    for i in 0..processes.len()
        invariant
            forall|j: int| 0 <= j < i ==> !works_in(#[trigger] processes@[j]@, worktree@),
    {
        let process = &processes[i];
        if is_all(process.name.as_str(), Class::Digit) {
            if let Some(directory) = &process.directory {
                if is_under(directory.as_str(), worktree) {
                    assert(works_in(processes@[i as int]@, worktree@));
                    return true;
                }
            }
            if let Some(command) = &process.command {
                if has_bytes(command, worktree.as_bytes()) {
                    assert(works_in(processes@[i as int]@, worktree@));
                    return true;
                }
            }
        }
        assert(!works_in(processes@[i as int]@, worktree@));
    }
    false
}

/// A database with its side files.
pub open spec fn database_files(path: Seq<char>) -> Seq<Seq<char>> {
    seq![path, path + "-wal"@, path + "-shm"@]
}

/// The files of some databases.
pub open spec fn all_database_files(list: Seq<Seq<char>>) -> Seq<Seq<char>>
    decreases list.len(),
{
    if list.len() == 0 {
        Seq::empty()
    } else {
        all_database_files(list.drop_last()) + database_files(list.last())
    }
}

/// Computes [`all_database_files`].
pub fn database_paths(databases: &Vec<String>) -> (r: Vec<String>)
    ensures
        strings(r@) == all_database_files(strings(databases@)),
{
    let ghost views = strings(databases@);
    let mut out: Vec<String> = Vec::new();
    assert(strings(out@) =~= Seq::empty());
    for i in 0..databases.len()
        invariant
            views == strings(databases@),
            strings(out@) == all_database_files(views.take(i as int)),
    {
        proof {
            prefix_step(views, i as int);
        }
        let ghost before = strings(out@);
        let path = databases[i].as_str();
        out.push(own(path));
        out.push(cat2(path, "-wal"));
        out.push(cat2(path, "-shm"));
        assert(strings(out@) =~= before + database_files(path@));
    }
    proof {
        prefix_all(views);
    }
    out
}

} // verus!

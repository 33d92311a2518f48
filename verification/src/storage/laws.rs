//! What a collection removes, frees and tells, on every input.
use crate::path::{base_name, extension_of, full_parts, lies_under};
use crate::search::tokens::{distinct, distinct_keeps_each_once};
use crate::storage::plan::{
    bytes_at, deleted_setups, generations_in, git_directory, hard_fault, listed_worktrees, obsolete_services,
    holds_bytes, plan_of, plan_paths, request_fault, sorted_paths, sorting_keeps_paths, unused_setups, works_in, EntryView,
    HardPlanView, PlanView, ProcessView, SharedView, WorktreeView,
};
use crate::storage::report::{
    category_lines, gc_head, gc_text, hard_text, history_text, planned_removals, remaining,
    removed_as, standing_count, storage_text, worktree_line, worktree_lines, worktrees_text,
    OutcomeView, RemovalKind, RemovalView, Standing,
};
use crate::storage::size::{
    holds_file, same_file, size_text, space_freed, space_taken, tenths_of, times_held, with_unit,
    FileRecord,
};
use crate::text::chain::{
    appended_holds, chain, chain_pair, chain_push, chain_tells, label_begins, pushed_holds,
    some_item, some_item_step,
};
use crate::text::make::joined;
use crate::text::number::decimal;
use crate::text::scan::{
    after_prefix, bare, begins, cut, find_from_is_first, find_text, found_between, found_in_part,
    has_text, occurs_at,
};
use vstd::prelude::*;

verus! {

proof fn deleted_setups_stand(list: Seq<EntryView>, deleted: Seq<Seq<char>>, path: Seq<char>)
    ensures
        deleted_setups(list, deleted).contains(path) <==> some_item(
            list,
            |e: EntryView|
                e.path == path && e.is_dir && base_name(path) is Some && base_name(path)->0
                    != "shared"@ && deleted.contains(base_name(path)->0),
        ),
    decreases list.len(),
{
    let wanted = |e: EntryView|
        e.path == path && e.is_dir && base_name(path) is Some && base_name(path)->0 != "shared"@
            && deleted.contains(base_name(path)->0);
    if list.len() > 0 {
        deleted_setups_stand(list.drop_last(), deleted, path);
        some_item_step(list, wanted);
        pushed_holds(deleted_setups(list.drop_last(), deleted), list.last().path, path);
    }
}

proof fn obsolete_services_stand(list: Seq<EntryView>, expected: Seq<Seq<char>>, path: Seq<char>)
    ensures
        obsolete_services(list, expected).contains(path) <==> some_item(
            list,
            |e: EntryView|
                e.path == path && e.is_dir && base_name(path) is Some && !expected.contains(
                    base_name(path)->0,
                ),
        ),
    decreases list.len(),
{
    let wanted = |e: EntryView|
        e.path == path && e.is_dir && base_name(path) is Some && !expected.contains(
            base_name(path)->0,
        );
    if list.len() > 0 {
        obsolete_services_stand(list.drop_last(), expected, path);
        some_item_step(list, wanted);
        pushed_holds(obsolete_services(list.drop_last(), expected), list.last().path, path);
    }
}

/// Some file of a list is the same file.
pub open spec fn linked(active: Seq<FileRecord>, f: FileRecord) -> bool {
    some_item(active, |other: FileRecord| other.device == f.device && other.inode == f.inode)
}

proof fn linked_is_held(active: Seq<FileRecord>, f: FileRecord)
    ensures
        linked(active, f) <==> holds_file(active, f),
{
    let same = |other: FileRecord| other.device == f.device && other.inode == f.inode;
    if linked(active, f) {
        let i = choose|i: int| 0 <= i < active.len() && same(#[trigger] active[i]);
        assert(same_file(active[i], f));
    }
    if holds_file(active, f) {
        let i = choose|i: int| 0 <= i < active.len() && same_file(#[trigger] active[i], f);
        assert(same(active[i]));
    }
}

proof fn unused_setups_stand(list: Seq<SharedView>, active: Seq<FileRecord>, path: Seq<char>)
    ensures
        unused_setups(list, active).contains(path) <==> some_item(
            list,
            |s: SharedView|
                (s.path == path || s.companions.contains(path)) && extension_of(s.path) == Some(
                    "json"@,
                ) && !linked(active, s.record),
        ),
    decreases list.len(),
{
    let wanted = |s: SharedView|
        (s.path == path || s.companions.contains(path)) && extension_of(s.path) == Some("json"@)
            && !linked(active, s.record);
    if list.len() > 0 {
        let s = list.last();
        let before = unused_setups(list.drop_last(), active);
        unused_setups_stand(list.drop_last(), active, path);
        some_item_step(list, wanted);
        linked_is_held(active, s.record);
        pushed_holds(before, s.path, path);
        appended_holds(before.push(s.path), s.companions, path);
    }
}

/// A normal collection removes the directory of setups of every workspace that was
/// deleted, but never the shared one; the files of every shared setup that no active
/// workspace links to; and every generation of the Lean service that is not in use. It
/// removes nothing else.
pub proof fn normal_collections_are_exact(
    setups: Seq<EntryView>,
    deleted: Seq<Seq<char>>,
    shared: Seq<SharedView>,
    active: Seq<FileRecord>,
    services: Seq<EntryView>,
    expected: Seq<Seq<char>>,
    path: Seq<char>,
)
    ensures
        ({
            let plan = plan_of(setups, deleted, shared, active, services, expected);
            &&& plan.deleted_setup_directories.contains(path) <==> some_item(
                setups,
                |e: EntryView|
                    e.path == path && e.is_dir && base_name(path) is Some && base_name(path)->0
                        != "shared"@ && deleted.contains(base_name(path)->0),
            )
            &&& plan.shared_setup_files.contains(path) <==> some_item(
                shared,
                |s: SharedView|
                    (s.path == path || s.companions.contains(path)) && extension_of(s.path) == Some(
                        "json"@,
                    ) && !linked(active, s.record),
            )
            &&& plan.lean_service_directories.contains(path) <==> some_item(
                services,
                |e: EntryView|
                    e.path == path && e.is_dir && base_name(path) is Some && !expected.contains(
                        base_name(path)->0,
                    ),
            )
            &&& plan_paths(plan).contains(path) <==> plan.deleted_setup_directories.contains(path)
                || plan.shared_setup_files.contains(path) || plan.lean_service_directories.contains(
                path,
            )
        }),
{
    let plan = plan_of(setups, deleted, shared, active, services, expected);
    sorting_keeps_paths(deleted_setups(setups, deleted), path);
    sorting_keeps_paths(unused_setups(shared, active), path);
    sorting_keeps_paths(obsolete_services(services, expected), path);
    deleted_setups_stand(setups, deleted, path);
    unused_setups_stand(shared, active, path);
    obsolete_services_stand(services, expected, path);
    appended_holds(plan.deleted_setup_directories, plan.shared_setup_files, path);
    appended_holds(
        plan.deleted_setup_directories + plan.shared_setup_files,
        plan.lean_service_directories,
        path,
    );
}

proof fn removed_as_holds(kind: RemovalKind, paths: Seq<Seq<char>>, r: RemovalView)
    ensures
        removed_as(kind, paths).contains(r) <==> r.kind == kind && paths.contains(r.path),
{
    let all = removed_as(kind, paths);
    if all.contains(r) {
        let i = all.index_of(r);
        assert(paths[i] == r.path);
    }
    if r.kind == kind && paths.contains(r.path) {
        assert(all[paths.index_of(r.path)] == r);
    }
}

/// A collection removes every path of its plans, and no other: working trees by git, setup
/// files and artifacts as files, and everything else as directories. Without a hard plan
/// no working tree goes.
pub proof fn removals_are_exact(plan: PlanView, hard: Option<HardPlanView>, path: Seq<char>)
    ensures
        ({
            let all = planned_removals(plan, hard);
            &&& all.contains(RemovalView { kind: RemovalKind::Worktree, path }) <==> (
            hard matches Some(h) && h.unregistered_worktrees.contains(path))
            &&& all.contains(RemovalView { kind: RemovalKind::File, path })
                <==> plan.shared_setup_files.contains(path) || (hard matches Some(h)
                && h.lake_artifacts.contains(path))
            &&& all.contains(RemovalView { kind: RemovalKind::Directory, path })
                <==> plan.deleted_setup_directories.contains(path)
                || plan.lean_service_directories.contains(path) || (hard matches Some(h) && (
            h.worktree_targets.contains(path) || h.validation_build == Some(path)))
        }),
{
    let w = RemovalView { kind: RemovalKind::Worktree, path };
    let f = RemovalView { kind: RemovalKind::File, path };
    let d = RemovalView { kind: RemovalKind::Directory, path };
    removals_of_kind(plan, hard, w);
    removals_of_kind(plan, hard, f);
    removals_of_kind(plan, hard, d);
}

proof fn removals_of_kind(plan: PlanView, hard: Option<HardPlanView>, r: RemovalView)
    ensures
        planned_removals(plan, hard).contains(r) <==> {
            ||| r.kind == RemovalKind::Directory && plan.deleted_setup_directories.contains(r.path)
            ||| r.kind == RemovalKind::File && plan.shared_setup_files.contains(r.path)
            ||| r.kind == RemovalKind::Directory && plan.lean_service_directories.contains(r.path)
            ||| hard matches Some(h) && {
                ||| r.kind == RemovalKind::Worktree && h.unregistered_worktrees.contains(r.path)
                ||| r.kind == RemovalKind::File && h.lake_artifacts.contains(r.path)
                ||| r.kind == RemovalKind::Directory && h.worktree_targets.contains(r.path)
                ||| r.kind == RemovalKind::Directory && h.validation_build == Some(r.path)
            }
        },
{
    let a = removed_as(RemovalKind::Directory, plan.deleted_setup_directories);
    let b = removed_as(RemovalKind::File, plan.shared_setup_files);
    let c = removed_as(RemovalKind::Directory, plan.lean_service_directories);
    removed_as_holds(RemovalKind::Directory, plan.deleted_setup_directories, r);
    removed_as_holds(RemovalKind::File, plan.shared_setup_files, r);
    removed_as_holds(RemovalKind::Directory, plan.lean_service_directories, r);
    appended_holds(a, b, r);
    appended_holds(a + b, c, r);
    if let Some(h) = hard {
        let build = match h.validation_build {
            Some(path) => seq![path],
            None => Seq::empty(),
        };
        if h.validation_build is Some {
            assert(build[0] == h.validation_build->0);
        }
        assert(build.contains(r.path) <==> h.validation_build == Some(r.path));
        let e = removed_as(RemovalKind::Worktree, h.unregistered_worktrees);
        let f = removed_as(RemovalKind::File, h.lake_artifacts);
        let g = removed_as(RemovalKind::Directory, h.worktree_targets);
        let k = removed_as(RemovalKind::Directory, build);
        removed_as_holds(RemovalKind::Worktree, h.unregistered_worktrees, r);
        removed_as_holds(RemovalKind::File, h.lake_artifacts, r);
        removed_as_holds(RemovalKind::Directory, h.worktree_targets, r);
        removed_as_holds(RemovalKind::Directory, build, r);
        appended_holds(a + b + c, e, r);
        appended_holds(a + b + c + e, f, r);
        appended_holds(a + b + c + e + f, g, r);
        appended_holds(a + b + c + e + f + g, k, r);
    }
}

/// A request is refused just where it confirms what is not hard, or is hard and neither
/// dry nor confirmed.
pub proof fn refused_requests(dry_run: bool, hard: bool, confirm: bool)
    ensures
        request_fault(dry_run, hard, confirm) is Ok <==> (hard || !confirm) && (hard && !dry_run
            ==> confirm),
{
}

/// A hard collection goes ahead just where no check runs and no validation waits or runs;
/// it names every check that runs.
pub proof fn hard_collections_wait(running: Seq<Seq<char>>, validation_work: bool, i: int)
    requires
        0 <= i < running.len(),
    ensures
        hard_fault(Seq::empty(), validation_work) is Ok <==> !validation_work,
        hard_fault(running, validation_work) matches Err(message) && has_text(message, running[i]),
{
    joined_holds(running, ", "@, i);
    let front = "hard GC refused while checks are running: "@;
    found_in_part(front, joined(running, ", "@), Seq::empty(), running[i]);
    assert(front + joined(running, ", "@) + Seq::<char>::empty() =~= front + joined(
        running,
        ", "@,
    ));
}

/// Every text of a list is found in the list put together.
pub proof fn joined_holds(list: Seq<Seq<char>>, separator: Seq<char>, i: int)
    requires
        0 <= i < list.len(),
    ensures
        has_text(joined(list, separator), list[i]),
    decreases list.len(),
{
    if list.len() == 1 {
        found_between(Seq::empty(), list[0], Seq::empty());
        assert(Seq::<char>::empty() + list[0] + Seq::<char>::empty() =~= list[0]);
    } else {
        let front = joined(list.drop_last(), separator);
        if i < list.len() - 1 {
            joined_holds(list.drop_last(), separator, i);
            found_in_part(Seq::empty(), front, separator + list.last(), list[i]);
            assert(Seq::<char>::empty() + front + (separator + list.last()) =~= front + separator
                + list.last());
        } else {
            found_between(front + separator, list.last(), Seq::empty());
            assert(front + separator + list.last() + Seq::<char>::empty() =~= front + separator
                + list.last());
        }
    }
}

proof fn listed_worktrees_stand(lines: Seq<Seq<char>>, known: Seq<Seq<char>>, path: Seq<char>)
    ensures
        listed_worktrees(lines, known).contains(path) <==> lines.contains("worktree "@ + path)
            && !known.contains(path),
    decreases lines.len(),
{
    if lines.len() > 0 {
        let last = lines.last();
        let before = listed_worktrees(lines.drop_last(), known);
        let line = "worktree "@ + path;
        listed_worktrees_stand(lines.drop_last(), known, path);
        assert(lines =~= lines.drop_last().push(last));
        pushed_holds(lines.drop_last(), last, line);
        label_begins("worktree "@, path);
        assert(line.skip("worktree "@.len() as int) =~= path);
        if let Some(rest) = after_prefix(last, "worktree "@) {
            pushed_holds(before, rest, path);
            assert(last =~= "worktree "@ + rest) by {
                assert(last.take("worktree "@.len() as int) == "worktree "@);
            }
        }
    }
}

/// The working trees outside the registry are those that a listing of git names and that
/// are not known, each once.
pub proof fn unknown_worktrees_are_listed(
    lines: Seq<Seq<char>>,
    known: Seq<Seq<char>>,
    path: Seq<char>,
)
    ensures
        ({
            let list = distinct(sorted_paths(listed_worktrees(lines, known)));
            &&& list.no_duplicates()
            &&& list.contains(path) <==> lines.contains("worktree "@ + path) && !known.contains(
                path,
            )
        }),
{
    let all = sorted_paths(listed_worktrees(lines, known));
    distinct_keeps_each_once(all);
    listed_worktrees_stand(lines, known, path);
    sorting_keeps_paths(listed_worktrees(lines, known), path);
}

/// The first component of a path.
spec fn first_part(tail: Seq<char>) -> Seq<char> {
    match cut(tail, "/"@) {
        Some(sides) => sides.0,
        None => tail,
    }
}

proof fn first_part_is_name(tail: Seq<char>, name: Seq<char>, rest: Seq<char>)
    requires
        !name.contains('/'),
        tail == name || tail == name + "/"@ + rest,
    ensures
        first_part(tail) == name,
{
    reveal_strlit("/");
    let n = name.len() as int;
    find_from_is_first(tail, "/"@, 0);
    if tail == name + "/"@ + rest {
        assert(tail.subrange(n, n + 1) =~= "/"@);
        assert(occurs_at(tail, "/"@, n));
    }
    if let Some(i) = find_text(tail, "/"@) {
        assert(tail.subrange(i, i + 1)[0] == '/');
        assert(tail[i] == '/');
        if i < n {
            assert(name[i] == '/');
        }
        assert(tail.take(n) =~= name);
    }
}

proof fn generations_step(arguments: Seq<Seq<char>>, prefix: Seq<char>, name: Seq<char>)
    requires
        arguments.len() > 0,
        name.len() > 0,
    ensures
        generations_in(arguments, prefix).contains(name) <==> generations_in(
            arguments.drop_last(),
            prefix,
        ).contains(name) || (after_prefix(arguments.last(), prefix) matches Some(tail)
            && first_part(tail) == name),
{
    if let Some(tail) = after_prefix(arguments.last(), prefix) {
        pushed_holds(generations_in(arguments.drop_last(), prefix), first_part(tail), name);
    }
}

/// A process that names a path under the directory of the Lean service uses the
/// generation whose directory holds that path.
pub proof fn named_generations_are_in_use(
    arguments: Seq<Seq<char>>,
    prefix: Seq<char>,
    name: Seq<char>,
    rest: Seq<char>,
)
    requires
        name.len() > 0,
        !name.contains('/'),
        arguments.contains(prefix + (name + "/"@ + rest)) || arguments.contains(prefix + name),
    ensures
        generations_in(arguments, prefix).contains(name),
    decreases arguments.len(),
{
    let last = arguments.last();
    let shorter = arguments.drop_last();
    let long = name + "/"@ + rest;
    assert(arguments =~= shorter.push(last));
    pushed_holds(shorter, last, prefix + long);
    pushed_holds(shorter, last, prefix + name);
    generations_step(arguments, prefix, name);
    if shorter.contains(prefix + long) || shorter.contains(prefix + name) {
        named_generations_are_in_use(shorter, prefix, name, rest);
    } else {
        let tail = if last == prefix + long {
            long
        } else {
            name
        };
        label_begins(prefix, tail);
        assert((prefix + tail).skip(prefix.len() as int) =~= tail);
        first_part_is_name(tail, name, rest);
    }
}

/// A working tree points to the directory that follows the mark of git, from its own
/// directory on where that is relative.
pub proof fn git_directories_follow_their_mark(rest: Seq<char>, worktree: Seq<char>)
    ensures
        git_directory("gitdir:"@ + rest, worktree) == Some(
            crate::path::placed_under(worktree, bare(rest)),
        ),
{
    label_begins("gitdir:"@, rest);
    assert(("gitdir:"@ + rest).skip("gitdir:"@.len() as int) =~= rest);
}

/// A path more to a file that is held takes no more space; a path to another file takes
/// as much more as that file has blocks of 512 bytes, as far as numbers go.
pub proof fn files_take_their_blocks(list: Seq<FileRecord>, f: FileRecord)
    ensures
        space_taken(Seq::empty()) == 0,
        linked(list, f) ==> space_taken(list.push(f)) == space_taken(list),
        !linked(list, f) && space_taken(list) + f.blocks * 512 <= u64::MAX ==> space_taken(
            list.push(f),
        ) == space_taken(list) + f.blocks * 512,
        !linked(list, f) && space_taken(list) + f.blocks * 512 > u64::MAX ==> space_taken(
            list.push(f),
        ) == u64::MAX,
{
    linked_is_held(list, f);
    assert(list.push(f).drop_last() =~= list);
}

proof fn freed_prefix(all: Seq<FileRecord>, n: nat)
    requires
        n <= all.len(),
        forall|i: int| 0 <= i < all.len() ==> times_held(all, #[trigger] all[i]) >= all[i].links,
    ensures
        space_freed(all, n) == space_taken(all.take(n as int)),
    decreases n,
{
    if n > 0 {
        freed_prefix(all, (n - 1) as nat);
        assert(all.take(n as int).drop_last() =~= all.take(n - 1));
        assert(all.take(n as int).last() == all[n - 1]);
    } else {
        assert(all.take(0) =~= Seq::empty());
    }
}

/// Where all paths to every file are removed, all the space that they take is freed.
pub proof fn unlinked_files_are_freed(all: Seq<FileRecord>)
    requires
        forall|i: int| 0 <= i < all.len() ==> times_held(all, #[trigger] all[i]) >= all[i].links,
    ensures
        space_freed(all, all.len()) == space_taken(all),
{
    freed_prefix(all, all.len());
    assert(all.take(all.len() as int) =~= all);
}

/// Tenths of a unit are the nearest, and of two that are as near the even ones.
pub proof fn tenths_are_nearest(bytes: int, unit: int)
    requires
        bytes >= 0,
        unit > 0,
    ensures
        -unit <= 2 * (tenths_of(bytes, unit) * unit - bytes * 10) <= unit,
        2 * (tenths_of(bytes, unit) * unit - bytes * 10) == unit || 2 * (tenths_of(bytes, unit)
            * unit - bytes * 10) == -unit ==> tenths_of(bytes, unit) % 2 == 0,
{
    let q = bytes * 10 / unit;
    let rest = bytes * 10 % unit;
    vstd::arithmetic::div_mod::lemma_fundamental_div_mod(bytes * 10, unit);
    assert(unit * q == q * unit) by (nonlinear_arith);
    assert((q + 1) * unit == q * unit + unit) by (nonlinear_arith);
    vstd::arithmetic::div_mod::lemma_mod_bound(bytes * 10, unit);
}

/// A size is told in bytes below a kibibyte, and else in the largest unit that it reaches,
/// in tenths.
pub proof fn sizes_are_told_in_their_unit(bytes: u64)
    ensures
        bytes < 0x400 ==> size_text(bytes) == decimal(bytes as nat) + " B"@,
        0x400 <= bytes < 0x10_0000 ==> size_text(bytes) == with_unit(
            tenths_of(bytes as int, 0x400),
            " KiB"@,
        ),
        0x10_0000 <= bytes < 0x4000_0000 ==> size_text(bytes) == with_unit(
            tenths_of(bytes as int, 0x10_0000),
            " MiB"@,
        ),
        0x4000_0000 <= bytes ==> size_text(bytes) == with_unit(
            tenths_of(bytes as int, 0x4000_0000),
            " GiB"@,
        ),
        forall|tenths: int, unit: Seq<char>| #[trigger]
            with_unit(tenths, unit) == decimal((tenths / 10) as nat) + "."@ + decimal(
                (tenths % 10) as nat,
            ) + unit,
{
}

/// Every working tree that is missing, has changes or cannot be read is named, with how
/// many paths have changes.
pub proof fn unclean_worktrees_are_named(list: Seq<WorktreeView>, i: int)
    requires
        0 <= i < list.len(),
    ensures
        ({
            let text = worktrees_text(list);
            let w = list[i];
            &&& !w.exists ==> has_text(text, "\n  "@ + w.path + ": missing"@)
            &&& w.exists && w.dirty_paths is None ==> has_text(
                text,
                "\n  "@ + w.path + ": status unavailable"@,
            )
            &&& w.exists && w.dirty_paths is Some && w.dirty_paths->0 == 1 ==> has_text(
                text,
                "\n  "@ + w.path + ": dirty ("@ + decimal(1) + " path"@ + ""@ + ")"@,
            )
            &&& w.exists && w.dirty_paths is Some && w.dirty_paths->0 > 1 ==> has_text(
                text,
                "\n  "@ + w.path + ": dirty ("@ + decimal(w.dirty_paths->0 as nat) + " path"@
                    + "s"@ + ")"@,
            )
        }),
{
    let text = worktrees_text(list);
    let line = worktree_line(list[i]);
    worktree_lines_hold(list, i);
    let front = "\ngit worktrees outside MathMux registry: "@ + decimal(list.len()) + " ("@
        + decimal(standing_count(list, Standing::Clean)) + " clean, "@ + decimal(
        standing_count(list, Standing::Dirty),
    ) + " dirty, "@ + decimal(standing_count(list, Standing::Missing)) + " missing, "@ + decimal(
        standing_count(list, Standing::Unknown),
    ) + " status unavailable)"@;
    let back = "\nGC leaves these git worktrees untouched; inspect before any manual removal."@;
    found_in_part(front, worktree_lines(list), back, line);
    assert(text == front + worktree_lines(list) + back);
}

proof fn worktree_lines_hold(list: Seq<WorktreeView>, i: int)
    requires
        0 <= i < list.len(),
    ensures
        has_text(worktree_lines(list), worktree_line(list[i])),
    decreases list.len(),
{
    let front = worktree_lines(list.drop_last());
    let last = worktree_line(list.last());
    if i < list.len() - 1 {
        worktree_lines_hold(list.drop_last(), i);
        found_in_part(Seq::empty(), front, last, worktree_line(list[i]));
        assert(Seq::<char>::empty() + front + last =~= front + last);
    } else {
        found_between(front, last, Seq::empty());
        assert(front + last + Seq::<char>::empty() =~= front + last);
    }
}

/// Working trees outside the registry are counted all together, and by how they stand:
/// one more that exists without changes, with changes, that is missing, or that cannot be
/// read counts there once.
pub proof fn worktrees_are_counted(list: Seq<WorktreeView>, w: WorktreeView)
    ensures
        standing_count(Seq::empty(), Standing::Clean) == 0,
        standing_count(Seq::empty(), Standing::Dirty) == 0,
        standing_count(Seq::empty(), Standing::Missing) == 0,
        standing_count(Seq::empty(), Standing::Unknown) == 0,
        standing_count(list.push(w), Standing::Clean) == standing_count(list, Standing::Clean) + (
        if w.exists && w.dirty_paths == Some(0usize) {
            1int
        } else {
            0
        }),
        standing_count(list.push(w), Standing::Dirty) == standing_count(list, Standing::Dirty) + (
        if w.dirty_paths is Some && w.dirty_paths->0 > 0 {
            1int
        } else {
            0
        }),
        standing_count(list.push(w), Standing::Missing) == standing_count(list, Standing::Missing)
            + (if !w.exists {
            1int
        } else {
            0
        }),
        standing_count(list.push(w), Standing::Unknown) == standing_count(list, Standing::Unknown)
            + (if w.exists && w.dirty_paths is None {
            1int
        } else {
            0
        }),
{
    assert(list.push(w).drop_last() =~= list);
}

/// A collection that is no dry run says what it reclaimed and how many rows of the history
/// it pruned; any collection says whether it is hard, and counts what each part of its
/// plan removes.
pub proof fn collections_tell_what_they_removed(
    o: OutcomeView,
    plan: PlanView,
    hard: Option<HardPlanView>,
    worktrees: Seq<WorktreeView>,
)
    ensures
        ({
            let text = gc_text(o, plan, hard, worktrees);
            &&& hard is Some ==> begins(text, "MathMux hard GC "@)
            &&& hard is None ==> begins(text, "MathMux normal GC "@)
            &&& !o.dry_run ==> has_text(text, "reclaimed"@ + (" "@ + size_text(o.reclaimable)))
            &&& has_text(
                text,
                "\ndeleted setup workspaces: "@ + decimal(plan.deleted_setup_directories.len())
                    + "\nshared setup files: "@,
            )
            &&& has_text(
                text,
                "\nshared setup files: "@ + decimal(plan.shared_setup_files.len())
                    + "\nobsolete Lean-service generations: "@,
            )
            &&& has_text(
                text,
                "\nobsolete Lean-service generations: "@ + decimal(
                    plan.lean_service_directories.len(),
                ),
            )
            &&& !o.dry_run ==> has_text(
                text,
                "\nsearch history rows pruned: "@ + decimal(o.search_rows as nat)
                    + "\ntelemetry rows pruned: "@ + decimal(o.telemetry_rows as nat)
                    + "\nSQLite: passive checkpoint complete"@,
            )
        }),
{
    let text = gc_text(o, plan, hard, worktrees);
    let first = if hard is Some {
        "MathMux hard GC "@
    } else {
        "MathMux normal GC "@
    };
    let said = if o.dry_run {
        "would reclaim"@
    } else {
        "reclaimed"@
    };
    let p0 = seq![first];
    assert(p0.drop_last() =~= Seq::empty());
    assert(chain(p0) =~= first) by {
        reveal_with_fuel(chain, 2);
    }
    let p1 = p0.push(said);
    chain_push(p0, said);
    let p2 = p1.push(" "@ + size_text(o.reclaimable));
    chain_pair(p1, " "@, size_text(o.reclaimable));
    let p3 = p2.push(
        "\ndeleted setup workspaces: "@ + decimal(plan.deleted_setup_directories.len()),
    );
    chain_pair(p2, "\ndeleted setup workspaces: "@, decimal(plan.deleted_setup_directories.len()));
    let p4 = p3.push("\nshared setup files: "@ + decimal(plan.shared_setup_files.len()));
    chain_pair(p3, "\nshared setup files: "@, decimal(plan.shared_setup_files.len()));
    let p5 = p4.push(
        "\nobsolete Lean-service generations: "@ + decimal(plan.lean_service_directories.len()),
    );
    chain_pair(
        p4,
        "\nobsolete Lean-service generations: "@,
        decimal(plan.lean_service_directories.len()),
    );
    let besides = match hard {
        Some(h) => hard_text(o, h),
        None => ""@,
    };
    let p6 = p5.push(besides);
    chain_push(p5, besides);
    let p7 = p6.push(history_text(o));
    chain_push(p6, history_text(o));
    let left = worktrees_text(
        match hard {
            Some(h) => if o.dry_run {
                worktrees
            } else {
                remaining(worktrees, h.unregistered_worktrees)
            },
            None => worktrees,
        },
    );
    let p8 = p7.push(left);
    chain_push(p7, left);
    assert(gc_head(o, plan, hard is Some) == chain(p5));
    assert(text == chain(p8));
    let sized = " "@ + size_text(o.reclaimable);
    assert(sized.take(sized.len() as int) =~= sized);
    chain_tells(p8, 1, sized);
    label_begins("\nshared setup files: "@, decimal(plan.shared_setup_files.len()));
    label_begins(
        "\nobsolete Lean-service generations: "@,
        decimal(plan.lean_service_directories.len()),
    );
    chain_tells(p8, 3, "\nshared setup files: "@);
    chain_tells(p8, 4, "\nobsolete Lean-service generations: "@);
    assert(p8[6].take(0) =~= Seq::<char>::empty());
    chain_tells(p8, 5, Seq::empty());
    assert(p8[5] + Seq::<char>::empty() =~= p8[5]);
    assert(p8[8].take(0) =~= Seq::<char>::empty());
    chain_tells(p8, 7, Seq::empty());
    assert(p8[7] + Seq::<char>::empty() =~= p8[7]);
    report_begins(o, plan, hard, worktrees);
}

proof fn report_begins(
    o: OutcomeView,
    plan: PlanView,
    hard: Option<HardPlanView>,
    worktrees: Seq<WorktreeView>,
)
    ensures
        hard is Some ==> begins(gc_text(o, plan, hard, worktrees), "MathMux hard GC "@),
        hard is None ==> begins(gc_text(o, plan, hard, worktrees), "MathMux normal GC "@),
{
    let text = gc_text(o, plan, hard, worktrees);
    let first = if hard is Some {
        "MathMux hard GC "@
    } else {
        "MathMux normal GC "@
    };
    assert(text.take(first.len() as int) =~= first);
}

/// After a hard collection just those working trees are told of that it did not remove.
pub proof fn removed_worktrees_are_not_told(
    list: Seq<WorktreeView>,
    removed: Seq<Seq<char>>,
    w: WorktreeView,
)
    ensures
        remaining(list, removed).contains(w) <==> list.contains(w) && !removed.contains(w.path),
    decreases list.len(),
{
    if list.len() > 0 {
        removed_worktrees_are_not_told(list.drop_last(), removed, w);
        assert(list =~= list.drop_last().push(list.last()));
        pushed_holds(list.drop_last(), list.last(), w);
        pushed_holds(remaining(list.drop_last(), removed), list.last(), w);
    }
}

/// The report on the storage tells the total, every part with its size, and what a normal
/// collection would reclaim.
pub proof fn storage_is_told_by_part(
    total: u64,
    categories: Seq<(Seq<char>, u64)>,
    plan: PlanView,
    reclaimable: u64,
    worktrees: Seq<WorktreeView>,
    i: int,
)
    requires
        0 <= i < categories.len(),
    ensures
        ({
            let text = storage_text(total, categories, plan, reclaimable, worktrees);
            &&& begins(text, "MathMux storage: "@ + size_text(total))
            &&& has_text(text, "\n"@ + categories[i].0 + ": "@ + size_text(categories[i].1))
            &&& has_text(text, "\nnormal GC reclaimable: "@ + size_text(reclaimable) + " ("@)
        }),
{
    let text = storage_text(total, categories, plan, reclaimable, worktrees);
    let first = "MathMux storage: "@ + size_text(total);
    let parts = category_lines(categories);
    let free = "\nnormal GC reclaimable: "@ + size_text(reclaimable) + " ("@;
    let tail = decimal(plan.deleted_setup_directories.len()) + " deleted workspaces, "@ + decimal(
        plan.shared_setup_files.len(),
    ) + " shared setup files, "@ + decimal(plan.lean_service_directories.len())
        + " obsolete Lean-service generations)"@
        + "\nCategory sizes are physical estimates and may overlap where setups are hard-linked."@
        + worktrees_text(worktrees);
    assert(text =~= first + parts + free + tail);
    assert(text.take(first.len() as int) =~= first);
    found_between(first + parts, free, tail);
    category_lines_hold(categories, i);
    let line = "\n"@ + categories[i].0 + ": "@ + size_text(categories[i].1);
    found_in_part(first, parts, free + tail, line);
    assert(first + parts + (free + tail) =~= text);
}

proof fn category_lines_hold(list: Seq<(Seq<char>, u64)>, i: int)
    requires
        0 <= i < list.len(),
    ensures
        has_text(category_lines(list), "\n"@ + list[i].0 + ": "@ + size_text(list[i].1)),
    decreases list.len(),
{
    let front = category_lines(list.drop_last());
    let c = list.last();
    let last = "\n"@ + c.0 + ": "@ + size_text(c.1);
    assert(category_lines(list) =~= front + last);
    if i < list.len() - 1 {
        category_lines_hold(list.drop_last(), i);
        found_in_part(
            Seq::empty(),
            front,
            last,
            "\n"@ + list[i].0 + ": "@ + size_text(list[i].1),
        );
        assert(Seq::<char>::empty() + front + last =~= front + last);
    } else {
        found_between(front, last, Seq::empty());
        assert(front + last + Seq::<char>::empty() =~= front + last);
    }
}

/// A process works in a worktree where it stands there or below, or where the path of the
/// worktree is anywhere in what it was called with; what is not named by digits is no
/// process, and one of which neither is known works nowhere.
pub proof fn processes_are_found_at_work(
    process: ProcessView,
    worktree: Seq<char>,
    before: Seq<u8>,
    after: Seq<u8>,
    k: int,
)
    ensures
        0 <= k < process.name.len() && !('0' <= process.name[k] <= '9') ==> !works_in(
            process,
            worktree,
        ),
        process.directory is None && process.command is None ==> !works_in(process, worktree),
        (forall|j: int|
            0 <= j < process.name.len() ==> '0' <= #[trigger] process.name[j] <= '9') ==> {
            &&& process.directory == Some(worktree) ==> works_in(process, worktree)
            &&& process.command == Some(before + vstd::utf8::encode_utf8(worktree) + after)
                ==> works_in(process, worktree)
        },
        process.command is None && process.directory is Some && works_in(process, worktree)
            ==> lies_under(process.directory->0, worktree),
        process.directory is None && process.command is Some && works_in(process, worktree)
            ==> exists|i: int|
            0 <= i && i + vstd::utf8::encode_utf8(worktree).len() <= process.command->0.len()
                && #[trigger] process.command->0.subrange(
                i,
                i + vstd::utf8::encode_utf8(worktree).len(),
            ) == vstd::utf8::encode_utf8(worktree),
{
    let path = vstd::utf8::encode_utf8(worktree);
    let p = full_parts(worktree);
    assert(p.take(p.len() as int) =~= p);
    let whole = before + path + after;
    assert(whole.subrange(before.len() as int, (before.len() + path.len()) as int) =~= path);
    assert(bytes_at(whole, path, before.len() as int));
    assert(holds_bytes(whole, path));
    if process.directory is None && process.command is Some && works_in(process, worktree) {
        let list = process.command->0;
        let i = choose|i: int| 0 <= i <= list.len() - path.len() && #[trigger] bytes_at(list, path, i);
        assert(list.subrange(i, i + path.len()) == path);
    }
}

} // verus!

//! What is said of the storage and of a collection.
use crate::failure::Failure;
use crate::storage::plan::{
    check_gc_request, hard_plan_paths, plan_paths, request_fault, worktree_views, CleanupPlan,
    HardCleanupPlan, HardPlanView, PlanView, UnregisteredWorktree, WorktreeView,
};
use crate::storage::size::{format_bytes, size_text};
use crate::text::layout::{listed, push_list};
use crate::text::make::{cat2, cat3, cat5, own, prefix_all, prefix_step, push_str, strings};
use crate::text::number::{decimal, show, show_size};
use crate::text::pieces::has_string;
use crate::text::scan::{has_text, occurs_at};
use vstd::prelude::*;

verus! {

/// How a working tree stands.
#[derive(Clone, Copy, PartialEq, Eq, Structural, Debug)]
pub enum Standing {
    Clean,
    Dirty,
    Missing,
    Unknown,
}

/// How a working tree stands.
pub open spec fn standing_of(w: WorktreeView) -> Standing {
    if !w.exists {
        Standing::Missing
    } else {
        match w.dirty_paths {
            Some(n) => if n == 0 {
                Standing::Clean
            } else {
                Standing::Dirty
            },
            None => Standing::Unknown,
        }
    }
}

fn find_standing(w: &UnregisteredWorktree) -> (r: Standing)
    ensures
        r == standing_of(w@),
{
    if !w.exists {
        Standing::Missing
    } else {
        match w.dirty_paths {
            Some(n) => if n == 0 {
                Standing::Clean
            } else {
                Standing::Dirty
            },
            None => Standing::Unknown,
        }
    }
}

/// How many working trees stand in a way. One that is missing may also be counted as
/// dirty.
pub open spec fn standing_count(list: Seq<WorktreeView>, standing: Standing) -> nat
    decreases list.len(),
{
    if list.len() == 0 {
        0
    } else {
        standing_count(list.drop_last(), standing) + if counted_as(list.last(), standing) {
            1nat
        } else {
            0nat
        }
    }
}

/// Whether a working tree counts as standing in a way.
pub open spec fn counted_as(w: WorktreeView, standing: Standing) -> bool {
    match standing {
        Standing::Dirty => w.dirty_paths is Some && w.dirty_paths->0 > 0,
        other => standing_of(w) == other,
    }
}

fn count_standing(list: &Vec<UnregisteredWorktree>, standing: Standing) -> (r: usize)
    ensures
        r == standing_count(worktree_views(list@), standing),
{
    let ghost views = worktree_views(list@);
    let mut n: usize = 0;
    for i in 0..list.len()
        invariant
            views == worktree_views(list@),
            n <= i,
            n == standing_count(views.take(i as int), standing),
    {
        proof {
            prefix_step(views, i as int);
        }
        assert(views[i as int] == list@[i as int]@);
        let counted = match standing {
            Standing::Dirty => match list[i].dirty_paths {
                Some(paths) => paths > 0,
                None => false,
            },
            other => find_standing(&list[i]) == other,
        };
        if counted {
            n += 1;
        }
    }
    proof {
        prefix_all(views);
    }
    n
}

/// What is said of a working tree that is not clean.
pub open spec fn worktree_line(w: WorktreeView) -> Seq<char> {
    match standing_of(w) {
        Standing::Clean => ""@,
        Standing::Missing => "\n  "@ + w.path + ": missing"@,
        Standing::Dirty => "\n  "@ + w.path + ": dirty ("@ + decimal(w.dirty_paths->0 as nat)
            + " path"@ + (if w.dirty_paths->0 == 1 {
            ""@
        } else {
            "s"@
        }) + ")"@,
        Standing::Unknown => "\n  "@ + w.path + ": status unavailable"@,
    }
}

/// What is said of some working trees.
pub open spec fn worktree_lines(list: Seq<WorktreeView>) -> Seq<char>
    decreases list.len(),
{
    if list.len() == 0 {
        ""@
    } else {
        worktree_lines(list.drop_last()) + worktree_line(list.last())
    }
}

fn show_worktree(w: &UnregisteredWorktree) -> (r: String)
    ensures
        r@ == worktree_line(w@),
{
    let path = w.path.as_str();
    if !w.exists {
        return cat3("\n  ", path, ": missing");
    }
    match w.dirty_paths {
        Some(n) => if n == 0 {
            own("")
        } else {
            let count = show_size(n);
            let mut out = cat5("\n  ", path, ": dirty (", count.as_str(), " path");
            push_str(
                &mut out,
                if n == 1 {
                    ""
                } else {
                    "s"
                },
            );
            push_str(&mut out, ")");
            out
        },
        None => cat3("\n  ", path, ": status unavailable"),
    }
}

/// What is said of the working trees that no workspace is registered for.
pub open spec fn worktrees_text(list: Seq<WorktreeView>) -> Seq<char> {
    if list.len() == 0 {
        ""@
    } else {
        "\ngit worktrees outside MathMux registry: "@ + decimal(list.len()) + " ("@ + decimal(
            standing_count(list, Standing::Clean),
        ) + " clean, "@ + decimal(standing_count(list, Standing::Dirty)) + " dirty, "@ + decimal(
            standing_count(list, Standing::Missing),
        ) + " missing, "@ + decimal(standing_count(list, Standing::Unknown))
            + " status unavailable)"@ + worktree_lines(list)
            + "\nGC leaves these git worktrees untouched; inspect before any manual removal."@
    }
}

/// Adds [`worktrees_text`] to a text.
pub fn append_unregistered_worktrees(output: &mut String, worktrees: &Vec<UnregisteredWorktree>)
    ensures
        final(output)@ == old(output)@ + worktrees_text(worktree_views(worktrees@)),
{
    let ghost views = worktree_views(worktrees@);
    assert(views.len() == worktrees.len());
    if worktrees.len() == 0 {
        push_str(output, "");
        return;
    }
    let total = show_size(worktrees.len());
    let mut out = cat3("\ngit worktrees outside MathMux registry: ", total.as_str(), " (");
    push_str(&mut out, show_size(count_standing(worktrees, Standing::Clean)).as_str());
    push_str(&mut out, " clean, ");
    push_str(&mut out, show_size(count_standing(worktrees, Standing::Dirty)).as_str());
    push_str(&mut out, " dirty, ");
    push_str(&mut out, show_size(count_standing(worktrees, Standing::Missing)).as_str());
    push_str(&mut out, " missing, ");
    push_str(&mut out, show_size(count_standing(worktrees, Standing::Unknown)).as_str());
    push_str(&mut out, " status unavailable)");
    let mut rows = own("");
    for i in 0..worktrees.len()
        invariant
            views == worktree_views(worktrees@),
            rows@ == worktree_lines(views.take(i as int)),
    {
        proof {
            prefix_step(views, i as int);
        }
        assert(views[i as int] == worktrees@[i as int]@);
        push_str(&mut rows, show_worktree(&worktrees[i]).as_str());
    }
    proof {
        prefix_all(views);
    }
    push_str(&mut out, rows.as_str());
    push_str(
        &mut out,
        "\nGC leaves these git worktrees untouched; inspect before any manual removal.",
    );
    push_str(output, out.as_str());
}

/// A part of the storage with its size.
#[derive(Debug)]
pub struct StorageCategory {
    pub label: String,
    pub bytes: u64,
}

/// The contents of a [`StorageCategory`].
pub open spec fn category_views(list: Seq<StorageCategory>) -> Seq<(Seq<char>, u64)> {
    list.map_values(|c: StorageCategory| (c.label@, c.bytes))
}

/// The sizes of the parts of the storage.
pub open spec fn category_lines(list: Seq<(Seq<char>, u64)>) -> Seq<char>
    decreases list.len(),
{
    if list.len() == 0 {
        ""@
    } else {
        category_lines(list.drop_last()) + "\n"@ + list.last().0 + ": "@ + size_text(list.last().1)
    }
}

/// What is said of the storage.
pub open spec fn storage_text(
    total: u64,
    categories: Seq<(Seq<char>, u64)>,
    plan: PlanView,
    reclaimable: u64,
    worktrees: Seq<WorktreeView>,
) -> Seq<char> {
    "MathMux storage: "@ + size_text(total) + category_lines(categories)
        + "\nnormal GC reclaimable: "@ + size_text(reclaimable) + " ("@ + decimal(
        plan.deleted_setup_directories.len(),
    ) + " deleted workspaces, "@ + decimal(plan.shared_setup_files.len())
        + " shared setup files, "@ + decimal(plan.lean_service_directories.len())
        + " obsolete Lean-service generations)"@
        + "\nCategory sizes are physical estimates and may overlap where setups are hard-linked."@
        + worktrees_text(worktrees)
}

/// Computes [`storage_text`].
pub fn render_storage(
    total: u64,
    categories: &Vec<StorageCategory>,
    plan: &CleanupPlan,
    reclaimable: u64,
    worktrees: &Vec<UnregisteredWorktree>,
) -> (r: String)
    ensures
        r@ == storage_text(
            total,
            category_views(categories@),
            plan@,
            reclaimable,
            worktree_views(worktrees@),
        ),
{
    let ghost views = category_views(categories@);
    let mut rows = own("");
    for i in 0..categories.len()
        invariant
            views == category_views(categories@),
            rows@ == category_lines(views.take(i as int)),
    {
        proof {
            prefix_step(views, i as int);
        }
        assert(views[i as int] == (categories@[i as int].label@, categories@[i as int].bytes));
        push_str(&mut rows, "\n");
        push_str(&mut rows, categories[i].label.as_str());
        push_str(&mut rows, ": ");
        push_str(&mut rows, format_bytes(categories[i].bytes).as_str());
    }
    proof {
        prefix_all(views);
    }
    assert(plan@.deleted_setup_directories.len() == plan.deleted_setup_directories.len());
    assert(plan@.shared_setup_files.len() == plan.shared_setup_files.len());
    assert(plan@.lean_service_directories.len() == plan.lean_service_directories.len());
    let whole = format_bytes(total);
    let mut out = cat3("MathMux storage: ", whole.as_str(), rows.as_str());
    push_str(&mut out, "\nnormal GC reclaimable: ");
    push_str(&mut out, format_bytes(reclaimable).as_str());
    push_str(&mut out, " (");
    push_str(&mut out, show_size(plan.deleted_setup_directories.len()).as_str());
    push_str(&mut out, " deleted workspaces, ");
    push_str(&mut out, show_size(plan.shared_setup_files.len()).as_str());
    push_str(&mut out, " shared setup files, ");
    push_str(&mut out, show_size(plan.lean_service_directories.len()).as_str());
    push_str(&mut out, " obsolete Lean-service generations)");
    push_str(
        &mut out,
        "\nCategory sizes are physical estimates and may overlap where setups are hard-linked.",
    );
    append_unregistered_worktrees(&mut out, worktrees);
    out
}

/// The sizes of what a hard collection removes.
#[derive(Clone, Copy, Debug)]
pub struct HardSizes {
    pub lake_artifacts: u64,
    pub validation_build: u64,
    pub worktree_targets: u64,
    pub unregistered_worktrees: u64,
}

/// What a collection did, or would do.
#[derive(Debug)]
pub struct GcOutcome {
    pub dry_run: bool,
    pub reclaimable: u64,
    pub search_rows: u64,
    pub telemetry_rows: u64,
    /// Where artifacts are cached.
    pub artifact_root: String,
    pub sizes: HardSizes,
}

/// The contents of a [`GcOutcome`].
pub struct OutcomeView {
    pub dry_run: bool,
    pub reclaimable: u64,
    pub search_rows: u64,
    pub telemetry_rows: u64,
    pub artifact_root: Seq<char>,
    pub sizes: HardSizes,
}

impl View for GcOutcome {
    type V = OutcomeView;

    open spec fn view(&self) -> OutcomeView {
        OutcomeView {
            dry_run: self.dry_run,
            reclaimable: self.reclaimable,
            search_rows: self.search_rows,
            telemetry_rows: self.telemetry_rows,
            artifact_root: self.artifact_root@,
            sizes: self.sizes,
        }
    }
}

/// The first lines of a report on a collection.
pub open spec fn gc_head(o: OutcomeView, plan: PlanView, hard: bool) -> Seq<char> {
    (if hard {
        "MathMux hard GC "@
    } else {
        "MathMux normal GC "@
    }) + (if o.dry_run {
        "would reclaim"@
    } else {
        "reclaimed"@
    }) + " "@ + size_text(o.reclaimable) + "\ndeleted setup workspaces: "@ + decimal(
        plan.deleted_setup_directories.len(),
    ) + "\nshared setup files: "@ + decimal(plan.shared_setup_files.len())
        + "\nobsolete Lean-service generations: "@ + decimal(plan.lean_service_directories.len())
}

/// A count with a size.
pub open spec fn counted(count: nat, bytes: u64) -> Seq<char> {
    decimal(count) + " ("@ + size_text(bytes)
}

/// What is said of what a hard collection removes besides.
pub open spec fn hard_text(o: OutcomeView, plan: HardPlanView) -> Seq<char> {
    "\nhard Lake artifacts: "@ + counted(plan.lake_artifacts.len(), o.sizes.lake_artifacts)
        + " under "@ + o.artifact_root + ")\nvalidation build: "@ + (match plan.validation_build {
        Some(path) => path,
        None => "none"@,
    }) + " ("@ + size_text(o.sizes.validation_build)
        + ")\nunregistered clean worktree targets: "@ + counted(
        plan.worktree_targets.len(),
        o.sizes.worktree_targets,
    ) + ")\nunregistered clean worktrees: "@ + counted(
        plan.unregistered_worktrees.len(),
        o.sizes.unregistered_worktrees,
    ) + ")"@ + listed(plan.unregistered_worktrees, "\n  worktree: "@) + (
    match plan.validation_build {
        Some(path) => "\n  validation build: "@ + path,
        None => ""@,
    }) + listed(plan.worktree_targets, "\n  target: "@)
}

/// What is said of the history.
pub open spec fn history_text(o: OutcomeView) -> Seq<char> {
    if o.dry_run {
        "\nhistory: unchanged by dry run"@
    } else {
        "\nsearch history rows pruned: "@ + decimal(o.search_rows as nat)
            + "\ntelemetry rows pruned: "@ + decimal(o.telemetry_rows as nat)
            + "\nSQLite: passive checkpoint complete"@
    }
}

/// The working trees that remain.
pub open spec fn remaining(list: Seq<WorktreeView>, removed: Seq<Seq<char>>) -> Seq<WorktreeView>
    decreases list.len(),
{
    if list.len() == 0 {
        Seq::empty()
    } else if removed.contains(list.last().path) {
        remaining(list.drop_last(), removed)
    } else {
        remaining(list.drop_last(), removed).push(list.last())
    }
}

fn keep_remaining(list: &Vec<UnregisteredWorktree>, removed: &Vec<String>) -> (r: Vec<
    UnregisteredWorktree,
>)
    ensures
        worktree_views(r@) == remaining(worktree_views(list@), strings(removed@)),
{
    let ghost views = worktree_views(list@);
    let mut out: Vec<UnregisteredWorktree> = Vec::new();
    assert(worktree_views(out@) =~= Seq::empty());
    for i in 0..list.len()
        invariant
            views == worktree_views(list@),
            worktree_views(out@) == remaining(views.take(i as int), strings(removed@)),
    {
        proof {
            prefix_step(views, i as int);
        }
        assert(views[i as int] == list@[i as int]@);
        if !has_string(removed, list[i].path.as_str()) {
            let ghost before = worktree_views(out@);
            let copied = UnregisteredWorktree {
                path: list[i].path.clone(),
                exists: list[i].exists,
                dirty_paths: list[i].dirty_paths,
            };
            out.push(copied);
            assert(worktree_views(out@) =~= before.push(copied@));
        }
    }
    proof {
        prefix_all(views);
    }
    out
}

/// The report on a collection; a hard one has a plan of its own.
pub open spec fn gc_text(
    o: OutcomeView,
    plan: PlanView,
    hard: Option<HardPlanView>,
    worktrees: Seq<WorktreeView>,
) -> Seq<char> {
    gc_head(o, plan, hard is Some) + (match hard {
        Some(h) => hard_text(o, h),
        None => ""@,
    }) + history_text(o) + worktrees_text(
        match hard {
            Some(h) => if o.dry_run {
                worktrees
            } else {
                remaining(worktrees, h.unregistered_worktrees)
            },
            None => worktrees,
        },
    )
}

fn show_counted(count: usize, bytes: u64) -> (r: String)
    ensures
        r@ == counted(count as nat, bytes),
{
    let number = show_size(count);
    let size = format_bytes(bytes);
    cat3(number.as_str(), " (", size.as_str())
}

fn show_head(o: &GcOutcome, plan: &CleanupPlan, hard: bool) -> (r: String)
    ensures
        r@ == gc_head(o@, plan@, hard),
{
    assert(plan@.deleted_setup_directories.len() == plan.deleted_setup_directories.len());
    assert(plan@.shared_setup_files.len() == plan.shared_setup_files.len());
    assert(plan@.lean_service_directories.len() == plan.lean_service_directories.len());
    let mut out = own(
        if hard {
            "MathMux hard GC "
        } else {
            "MathMux normal GC "
        },
    );
    push_str(
        &mut out,
        if o.dry_run {
            "would reclaim"
        } else {
            "reclaimed"
        },
    );
    push_str(&mut out, " ");
    push_str(&mut out, format_bytes(o.reclaimable).as_str());
    push_str(&mut out, "\ndeleted setup workspaces: ");
    push_str(&mut out, show_size(plan.deleted_setup_directories.len()).as_str());
    push_str(&mut out, "\nshared setup files: ");
    push_str(&mut out, show_size(plan.shared_setup_files.len()).as_str());
    push_str(&mut out, "\nobsolete Lean-service generations: ");
    push_str(&mut out, show_size(plan.lean_service_directories.len()).as_str());
    out
}

fn show_hard(o: &GcOutcome, plan: &HardCleanupPlan) -> (r: String)
    ensures
        r@ == hard_text(o@, plan@),
{
    assert(plan@.lake_artifacts.len() == plan.lake_artifacts.len());
    assert(plan@.worktree_targets.len() == plan.worktree_targets.len());
    assert(plan@.unregistered_worktrees.len() == plan.unregistered_worktrees.len());
    let build = match &plan.validation_build {
        Some(path) => path.as_str(),
        None => "none",
    };
    let mut out = own("\nhard Lake artifacts: ");
    push_str(
        &mut out,
        show_counted(plan.lake_artifacts.len(), o.sizes.lake_artifacts).as_str(),
    );
    push_str(&mut out, " under ");
    push_str(&mut out, o.artifact_root.as_str());
    push_str(&mut out, ")\nvalidation build: ");
    push_str(&mut out, build);
    push_str(&mut out, " (");
    push_str(&mut out, format_bytes(o.sizes.validation_build).as_str());
    push_str(&mut out, ")\nunregistered clean worktree targets: ");
    push_str(
        &mut out,
        show_counted(plan.worktree_targets.len(), o.sizes.worktree_targets).as_str(),
    );
    push_str(&mut out, ")\nunregistered clean worktrees: ");
    push_str(
        &mut out,
        show_counted(
            plan.unregistered_worktrees.len(),
            o.sizes.unregistered_worktrees,
        ).as_str(),
    );
    push_str(&mut out, ")");
    push_list(&mut out, &plan.unregistered_worktrees, "\n  worktree: ");
    match &plan.validation_build {
        Some(path) => push_str(&mut out, cat2("\n  validation build: ", path.as_str()).as_str()),
        None => push_str(&mut out, ""),
    }
    push_list(&mut out, &plan.worktree_targets, "\n  target: ");
    out
}

/// The view of an optional plan.
pub open spec fn opt_plan(plan: Option<&HardCleanupPlan>) -> Option<HardPlanView> {
    match plan {
        Some(p) => Some(p@),
        None => None,
    }
}

/// How a path is removed.
#[derive(Debug, Clone, Copy, PartialEq, Eq, Structural)]
pub enum RemovalKind {
    File,
    Directory,
    Worktree,
}

/// A path that a collection removes.
#[derive(Debug)]
pub struct Removal {
    pub kind: RemovalKind,
    pub path: String,
}

/// The contents of a [`Removal`].
pub struct RemovalView {
    pub kind: RemovalKind,
    pub path: Seq<char>,
}

impl View for Removal {
    type V = RemovalView;

    open spec fn view(&self) -> RemovalView {
        RemovalView { kind: self.kind, path: self.path@ }
    }
}

/// The contents of a list of removals.
pub open spec fn removal_views(list: Seq<Removal>) -> Seq<RemovalView> {
    list.map_values(|r: Removal| r@)
}

/// What a collection does to the machine.
#[derive(Debug)]
pub struct Removals {
    pub paths: Vec<Removal>,
    pub prune_history: bool,
}

/// The removal of every path of a list.
pub open spec fn removed_as(kind: RemovalKind, paths: Seq<Seq<char>>) -> Seq<RemovalView> {
    paths.map_values(|path: Seq<char>| RemovalView { kind, path })
}

/// Everything that a plan removes, in order.
pub open spec fn planned_removals(plan: PlanView, hard: Option<HardPlanView>) -> Seq<RemovalView> {
    let normal = removed_as(RemovalKind::Directory, plan.deleted_setup_directories) + removed_as(
        RemovalKind::File,
        plan.shared_setup_files,
    ) + removed_as(RemovalKind::Directory, plan.lean_service_directories);
    match hard {
        None => normal,
        Some(h) => normal + removed_as(RemovalKind::Worktree, h.unregistered_worktrees)
            + removed_as(RemovalKind::File, h.lake_artifacts) + removed_as(
            RemovalKind::Directory,
            h.worktree_targets,
        ) + removed_as(
            RemovalKind::Directory,
            match h.validation_build {
                Some(path) => seq![path],
                None => Seq::empty(),
            },
        ),
    }
}

fn append_removals(out: &mut Vec<Removal>, kind: RemovalKind, paths: &Vec<String>)
    ensures
        removal_views(final(out)@) == removal_views(old(out)@) + removed_as(kind, strings(paths@)),
{
    let ghost before = removal_views(out@);
    let ghost wanted = removed_as(kind, strings(paths@));
    assert(before + wanted.take(0) =~= before);
    for i in 0..paths.len()
        invariant
            wanted == removed_as(kind, strings(paths@)),
            removal_views(out@) == before + wanted.take(i as int),
    {
        proof {
            prefix_step(wanted, i as int);
        }
        let removal = Removal { kind, path: paths[i].clone() };
        let ghost last = removal_views(out@);
        out.push(removal);
        assert(removal_views(out@) =~= last.push(removal@));
        assert(removal_views(out@) =~= before + wanted.take(i + 1));
    }
    proof {
        prefix_all(wanted);
    }
}

/// What a collection removes and prunes: nothing in a dry run, and otherwise everything
/// that was planned.
pub fn removals(dry_run: bool, plan: &CleanupPlan, hard: Option<&HardCleanupPlan>) -> (r: Removals)
    ensures
        dry_run ==> r.paths@.len() == 0 && !r.prune_history,
        !dry_run ==> r.prune_history && removal_views(r.paths@) == planned_removals(
            plan@,
            opt_plan(hard),
        ),
{
    let mut paths: Vec<Removal> = Vec::new();
    if dry_run {
        return Removals { paths, prune_history: false };
    }
    assert(removal_views(paths@) =~= Seq::empty());
    append_removals(&mut paths, RemovalKind::Directory, &plan.deleted_setup_directories);
    append_removals(&mut paths, RemovalKind::File, &plan.shared_setup_files);
    append_removals(&mut paths, RemovalKind::Directory, &plan.lean_service_directories);
    assert(removal_views(paths@) =~= planned_removals(plan@, None));
    if let Some(h) = hard {
        append_removals(&mut paths, RemovalKind::Worktree, &h.unregistered_worktrees);
        append_removals(&mut paths, RemovalKind::File, &h.lake_artifacts);
        append_removals(&mut paths, RemovalKind::Directory, &h.worktree_targets);
        let mut build: Vec<String> = Vec::new();
        if let Some(path) = &h.validation_build {
            build.push(path.clone());
            assert(strings(build@) =~= seq![path@]);
        } else {
            assert(strings(build@) =~= Seq::empty());
        }
        append_removals(&mut paths, RemovalKind::Directory, &build);
    }
    Removals { paths, prune_history: true }
}

/// What a request for a collection, with whether it is a dry run, whether it is hard and
/// whether that was confirmed, removes and prunes, see [`removals`]: nothing where the
/// request is refused, and what a hard collection removes only where it is hard.
pub fn requested_removals(
    request: (bool, bool, bool),
    plan: &CleanupPlan,
    hard: Option<&HardCleanupPlan>,
) -> (r: Result<Removals, Failure>)
    ensures
        ({
            let (dry_run, asks_hard, confirm) = request;
            &&& r is Err <==> request_fault(dry_run, asks_hard, confirm) is Err
            &&& r matches Err(e) ==> request_fault(dry_run, asks_hard, confirm) == Err::<
                (),
                Seq<char>,
            >(e@)
            &&& r matches Ok(done) ==> {
                &&& dry_run ==> done.paths@.len() == 0 && !done.prune_history
                &&& !dry_run ==> done.prune_history && removal_views(done.paths@)
                    == planned_removals(
                    plan@,
                    if asks_hard {
                        opt_plan(hard)
                    } else {
                        None
                    },
                )
            }
        }),
{
    match check_gc_request(request.0, request.1, request.2) {
        Ok(_) => {
            let besides: Option<&HardCleanupPlan> = if request.1 {
                hard
            } else {
                None
            };
            Ok(removals(request.0, plan, besides))
        },
        Err(e) => Err(e),
    }
}

proof fn found_in_front(a: Seq<char>, b: Seq<char>, needle: Seq<char>)
    requires
        has_text(a, needle),
    ensures
        has_text(a + b, needle),
{
    let i = choose|i: int| occurs_at(a, needle, i);
    assert((a + b).subrange(i, i + needle.len()) =~= a.subrange(i, i + needle.len()));
    assert(occurs_at(a + b, needle, i));
}

proof fn found_behind(a: Seq<char>, b: Seq<char>, needle: Seq<char>)
    requires
        has_text(b, needle),
    ensures
        has_text(a + b, needle),
{
    let i = choose|i: int| occurs_at(b, needle, i);
    let k = a.len() + i;
    assert((a + b).subrange(k, k + needle.len()) =~= b.subrange(i, i + needle.len()));
    assert(occurs_at(a + b, needle, k));
}

proof fn found_itself(text: Seq<char>)
    ensures
        has_text(text, text),
{
    assert(text.subrange(0, text.len() as int) =~= text);
    assert(occurs_at(text, text, 0));
}

/// The report on a dry run says that it would reclaim, and that the history is unchanged.
pub proof fn dry_runs_say_so(
    o: OutcomeView,
    plan: PlanView,
    hard: Option<HardPlanView>,
    worktrees: Seq<WorktreeView>,
)
    requires
        o.dry_run,
    ensures
        has_text(gc_text(o, plan, hard, worktrees), "would reclaim"@),
        has_text(gc_text(o, plan, hard, worktrees), "history: unchanged by dry run"@),
{
    let first = if hard is Some {
        "MathMux hard GC "@
    } else {
        "MathMux normal GC "@
    };
    let said = "would reclaim"@;
    found_itself(said);
    found_behind(first, said, said);
    let a = first + said;
    found_in_front(a, " "@, said);
    let b = a + " "@;
    found_in_front(b, size_text(o.reclaimable), said);
    let c = b + size_text(o.reclaimable);
    found_in_front(c, "\ndeleted setup workspaces: "@, said);
    let d = c + "\ndeleted setup workspaces: "@;
    found_in_front(d, decimal(plan.deleted_setup_directories.len()), said);
    let e = d + decimal(plan.deleted_setup_directories.len());
    found_in_front(e, "\nshared setup files: "@, said);
    let f = e + "\nshared setup files: "@;
    found_in_front(f, decimal(plan.shared_setup_files.len()), said);
    let g = f + decimal(plan.shared_setup_files.len());
    found_in_front(g, "\nobsolete Lean-service generations: "@, said);
    let h = g + "\nobsolete Lean-service generations: "@;
    found_in_front(h, decimal(plan.lean_service_directories.len()), said);
    let head = gc_head(o, plan, hard is Some);
    assert(head == h + decimal(plan.lean_service_directories.len()));
    let besides = match hard {
        Some(p) => hard_text(o, p),
        None => ""@,
    };
    found_in_front(head, besides, said);
    found_in_front(head + besides, history_text(o), said);
    let kept = "history: unchanged by dry run"@;
    reveal_strlit("history: unchanged by dry run");
    reveal_strlit("\nhistory: unchanged by dry run");
    assert("\nhistory: unchanged by dry run"@ =~= seq!['\n'] + kept);
    found_itself(kept);
    found_behind(seq!['\n'], kept, kept);
    found_behind(head + besides, history_text(o), kept);
    found_in_front(head + besides + history_text(o), worktrees_text(worktrees), said);
    found_in_front(head + besides + history_text(o), worktrees_text(worktrees), kept);
}

/// Every path that a collection removes is one that it counts as reclaimable.
pub proof fn removals_are_counted(plan: PlanView, hard: Option<HardPlanView>, removal: RemovalView)
    requires
        planned_removals(plan, hard).contains(removal),
    ensures
        plan_paths(plan).contains(removal.path) || (hard is Some && hard_plan_paths(
            hard->0,
        ).contains(removal.path)),
{
    let all = planned_removals(plan, hard);
    let i = all.index_of(removal);
    let a = plan.deleted_setup_directories.len() as int;
    let b = a + plan.shared_setup_files.len();
    let c = b + plan.lean_service_directories.len();
    if i < c {
        assert(plan_paths(plan)[i] == removal.path);
    } else {
        let h = hard->0;
        let w = h.unregistered_worktrees.len() as int;
        let l = h.lake_artifacts.len() as int;
        let t = h.worktree_targets.len() as int;
        let v: int = if h.validation_build is Some {
            1
        } else {
            0
        };
        let k = i - c;
        let paths = hard_plan_paths(h);
        if k < w {
            assert(paths[l + v + t + k] == removal.path);
        } else if k < w + l {
            assert(paths[k - w] == removal.path);
        } else if k < w + l + t {
            assert(paths[l + v + (k - w - l)] == removal.path);
        } else {
            assert(paths[l] == removal.path);
        }
    }
}

/// Computes [`gc_text`].
pub fn run_gc(
    outcome: &GcOutcome,
    plan: &CleanupPlan,
    hard: Option<&HardCleanupPlan>,
    worktrees: &Vec<UnregisteredWorktree>,
) -> (r: String)
    ensures
        r@ == gc_text(outcome@, plan@, opt_plan(hard), worktree_views(worktrees@)),
{
    let mut out = show_head(outcome, plan, hard.is_some());
    match hard {
        Some(h) => push_str(&mut out, show_hard(outcome, h).as_str()),
        None => push_str(&mut out, ""),
    }
    if outcome.dry_run {
        push_str(&mut out, "\nhistory: unchanged by dry run");
    } else {
        let mut part = own("\nsearch history rows pruned: ");
        push_str(&mut part, show(outcome.search_rows).as_str());
        push_str(&mut part, "\ntelemetry rows pruned: ");
        push_str(&mut part, show(outcome.telemetry_rows).as_str());
        push_str(&mut part, "\nSQLite: passive checkpoint complete");
        push_str(&mut out, part.as_str());
    }
    match hard {
        Some(h) => {
            if outcome.dry_run {
                append_unregistered_worktrees(&mut out, worktrees);
            } else {
                let left = keep_remaining(worktrees, &h.unregistered_worktrees);
                append_unregistered_worktrees(&mut out, &left);
            }
        },
        None => append_unregistered_worktrees(&mut out, worktrees),
    }
    out
}

} // verus!

//! What a collection removes, and how storage is told.
use mathmux::storage::plan::{
    check_gc_request, check_hard_gc, cleanup_paths, cleanup_plan, database_paths,
    git_directory_of, hard_cleanup_paths, hard_cleanup_plan, in_use_lean_service_generations,
    setup_companions, unregistered_worktrees, Artifact, CleanupPlan, DirectoryEntry,
    HardCleanupPlan, SharedSetup, UnregisteredWorktree, WorktreeUse,
};
use mathmux::storage::report::{
    append_unregistered_worktrees, removals, requested_removals, run_gc, GcOutcome, HardSizes,
    RemovalKind,
};
use mathmux::storage::size::{format_bytes, fully_reclaimed_size, size_many, FileRecord};

fn file(inode: u64, links: u64) -> FileRecord {
    FileRecord { device: 1, inode, links, blocks: 8 }
}

fn outcome(dry_run: bool) -> GcOutcome {
    GcOutcome {
        dry_run,
        reclaimable: 8192,
        search_rows: 0,
        telemetry_rows: 0,
        artifact_root: "/cache/artifacts".into(),
        sizes: HardSizes {
            lake_artifacts: 4096,
            validation_build: 4096,
            worktree_targets: 0,
            unregistered_worktrees: 0,
        },
    }
}

#[test]
fn reports_unregistered_worktrees_without_removing_them() {
    let listing = "worktree /repo/root\nHEAD 1\nbranch refs/heads/main\n\nworktree /repo/external\nHEAD 1\nbranch refs/heads/external\n";
    let known = vec!["/repo/root".to_owned()];
    let found = unregistered_worktrees(listing, &known);
    assert_eq!(found, ["/repo/external"]);
    let report = vec![UnregisteredWorktree {
        path: found[0].clone(),
        exists: true,
        dirty_paths: Some(1),
    }];
    let mut summary = String::new();
    append_unregistered_worktrees(&mut summary, &report);
    assert!(summary.contains("git worktrees outside MathMux registry: 1"), "{summary}");
    assert!(summary.contains("external: dirty (1 path)"), "{summary}");
    assert!(summary.contains("GC leaves these git worktrees untouched"), "{summary}");
    let known = vec!["/repo/root".to_owned(), "/repo/external".to_owned()];
    assert!(unregistered_worktrees(listing, &known).is_empty());
}

#[test]
fn hard_gc_selects_only_clean_main_tree_worktrees() {
    let orphan = |dirty: usize| {
        vec![UnregisteredWorktree {
            path: "/parent/orphan".into(),
            exists: true,
            dirty_paths: Some(dirty),
        }]
    };
    let uses = |same_tree: bool, locked: bool, active: bool| {
        vec![WorktreeUse { locked, active, same_tree, has_manifest: true, has_target: true }]
    };
    let none: Vec<Artifact> = Vec::new();
    let plan = hard_cleanup_plan(&none, None, &orphan(0), &uses(true, false, false), "/parent");
    assert_eq!(plan.unregistered_worktrees, ["/parent/orphan"]);
    assert!(plan.worktree_targets.is_empty());

    let plan = hard_cleanup_plan(&none, None, &orphan(0), &uses(false, false, false), "/parent");
    assert!(plan.unregistered_worktrees.is_empty());
    assert_eq!(plan.worktree_targets, ["/parent/orphan/target"]);

    let plan = hard_cleanup_plan(&none, None, &orphan(1), &uses(false, false, false), "/parent");
    assert!(plan.worktree_targets.is_empty());
    assert!(plan.unregistered_worktrees.is_empty());

    for (locked, active) in [(true, false), (false, true)] {
        let plan =
            hard_cleanup_plan(&none, None, &orphan(0), &uses(true, locked, active), "/parent");
        assert!(plan.unregistered_worktrees.is_empty());
    }
    let plan = hard_cleanup_plan(&none, None, &orphan(0), &uses(true, false, false), "/other");
    assert!(plan.unregistered_worktrees.is_empty());
}

#[test]
fn gc_removes_only_deleted_and_unreferenced_setups() {
    let entry = |path: &str| DirectoryEntry { path: path.into(), is_dir: true };
    let setups = vec![entry("/state/setups/w1"), entry("/state/setups/w2")];
    let shared = vec![
        SharedSetup {
            path: "/state/setups/shared/active.json".into(),
            record: file(1, 2),
            companions: Vec::new(),
        },
        SharedSetup {
            path: "/state/setups/shared/deleted.json".into(),
            record: file(2, 2),
            companions: vec!["/state/setups/shared/deleted.fingerprint".into()],
        },
    ];
    let none: Vec<DirectoryEntry> = Vec::new();
    let plan = cleanup_plan(
        &setups,
        &vec!["w2".to_owned()],
        &shared,
        &vec![file(1, 2)],
        &none,
        &Vec::new(),
    );
    assert_eq!(plan.deleted_setup_directories, ["/state/setups/w2"]);
    let paths = cleanup_paths(&plan);
    assert!(paths.contains(&"/state/setups/shared/deleted.json".to_owned()));
    assert!(paths.contains(&"/state/setups/shared/deleted.fingerprint".to_owned()));
    assert!(!paths.contains(&"/state/setups/shared/active.json".to_owned()));
    assert!(!paths.contains(&"/state/setups/w1".to_owned()));
    let dry_run = run_gc(&outcome(true), &plan, None, &Vec::new());
    assert!(dry_run.contains("deleted setup workspaces: 1"), "{dry_run}");
    let nothing = removals(true, &plan, None);
    assert!(nothing.paths.is_empty());
    assert!(!nothing.prune_history);
    let removed = removals(false, &plan, None);
    assert!(removed.prune_history);
    let removes = |path: &str| removed.paths.iter().any(|removal| removal.path == path);
    assert!(!removes("/state/setups/w1"));
    assert!(!removes("/state/setups/shared/active.json"));
    assert!(removes("/state/setups/w2"));
    assert!(removes("/state/setups/shared/deleted.json"));
    assert!(removes("/state/setups/shared/deleted.fingerprint"));
    assert_eq!(removed.paths[0].kind, RemovalKind::Directory);
    assert_eq!(removed.paths[1].kind, RemovalKind::File);
}

#[test]
fn hard_gc_prunes_single_link_artifacts_and_validation_build() {
    let artifacts = vec![
        Artifact { path: "/cache/artifacts/orphan.olean".into(), links: 1 },
        Artifact { path: "/cache/artifacts/live.olean".into(), links: 2 },
    ];
    let none: Vec<DirectoryEntry> = Vec::new();
    let plan =
        cleanup_plan(&none, &Vec::new(), &Vec::new(), &Vec::new(), &none, &Vec::new());
    let hard = hard_cleanup_plan(
        &artifacts,
        Some("/state/validation-worktree/.lake/build"),
        &Vec::new(),
        &Vec::new(),
        "/parent",
    );
    assert_eq!(hard.lake_artifacts, ["/cache/artifacts/orphan.olean"]);
    let paths = hard_cleanup_paths(&hard);
    assert!(paths.contains(&"/state/validation-worktree/.lake/build".to_owned()));
    assert!(!paths.contains(&"/cache/artifacts/live.olean".to_owned()));
    let dry_run = run_gc(&outcome(true), &plan, Some(&hard), &Vec::new());
    assert!(dry_run.contains("hard Lake artifacts: 1"), "{dry_run}");
    assert!(dry_run.contains("validation build:"), "{dry_run}");
    assert!(removals(true, &plan, Some(&hard)).paths.is_empty());
    let removed = removals(false, &plan, Some(&hard));
    let removes = |path: &str| removed.paths.iter().any(|removal| removal.path == path);
    assert!(removes("/cache/artifacts/orphan.olean"));
    assert!(!removes("/cache/artifacts/live.olean"));
    assert!(removes("/state/validation-worktree/.lake/build"));
    let summary = run_gc(&outcome(false), &plan, Some(&hard), &Vec::new());
    assert!(summary.contains("MathMux hard GC reclaimed"), "{summary}");
}

#[test]
fn refused_collections_remove_nothing() {
    let none: Vec<String> = Vec::new();
    let plan = CleanupPlan {
        deleted_setup_directories: vec!["/state/setups/w2".to_owned()],
        shared_setup_files: none.clone(),
        lean_service_directories: none.clone(),
    };
    let hard = HardCleanupPlan {
        lake_artifacts: vec!["/cache/artifacts/orphan.olean".to_owned()],
        validation_build: None,
        worktree_targets: none.clone(),
        unregistered_worktrees: none,
    };
    let failed = |request| match requested_removals(request, &plan, Some(&hard)) {
        Ok(_) => panic!("accepted"),
        Err(failure) => failure.message,
    };
    assert_eq!(failed((false, false, true)), "--confirm is only valid with --hard");
    assert_eq!(
        failed((false, true, false)),
        "hard GC requires --confirm; run --hard --dry-run first"
    );
    let paths = |request| {
        let done = requested_removals(request, &plan, Some(&hard)).unwrap();
        done.paths.into_iter().map(|removal| removal.path).collect::<Vec<String>>()
    };
    assert!(paths((true, true, false)).is_empty());
    assert_eq!(paths((false, false, false)), ["/state/setups/w2"]);
    assert_eq!(
        paths((false, true, true)),
        ["/state/setups/w2", "/cache/artifacts/orphan.olean"]
    );
    let dry_run = run_gc(&outcome(true), &plan, Some(&hard), &Vec::new());
    assert!(dry_run.contains("would reclaim"), "{dry_run}");
    assert!(dry_run.contains("history: unchanged by dry run"), "{dry_run}");
}

#[test]
fn byte_format_is_compact() {
    assert_eq!(format_bytes(0), "0 B");
    assert_eq!(format_bytes(1024), "1.0 KiB");
    assert_eq!(format_bytes(1024 * 1024 * 1024), "1.0 GiB");
}

#[test]
fn byte_format_rounds_to_one_digit() {
    assert_eq!(format_bytes(1023), "1023 B");
    assert_eq!(format_bytes(1536), "1.5 KiB");
    assert_eq!(format_bytes(1088), "1.1 KiB");
    for bytes in [1025u64, 1100, 1587, 10_752, 1_048_575, 1_048_576, 5_000_000_000, u64::MAX] {
        let mut value = bytes as f64;
        let mut unit = 0;
        let units = ["B", "KiB", "MiB", "GiB"];
        while value >= 1024.0 && unit < 3 {
            value /= 1024.0;
            unit += 1;
        }
        assert_eq!(format_bytes(bytes), format!("{value:.1} {}", units[unit]));
    }
}

#[test]
fn size_many_ignores_missing_optional_database_sidecars() {
    let paths = database_paths(&vec!["/state/state.sqlite3".to_owned()]);
    assert_eq!(
        paths,
        ["/state/state.sqlite3", "/state/state.sqlite3-wal", "/state/state.sqlite3-shm"]
    );
    assert_eq!(size_many(&vec![file(1, 1)]), 8 * 512);
    assert_eq!(size_many(&Vec::new()), 0);
    assert_eq!(size_many(&vec![file(1, 2), file(1, 2), file(2, 1)]), 2 * 8 * 512);
}

#[test]
fn only_files_whose_every_path_goes_are_reclaimed() {
    assert_eq!(fully_reclaimed_size(&vec![file(1, 2)]), 0);
    assert_eq!(fully_reclaimed_size(&vec![file(1, 2), file(1, 2)]), 8 * 512);
    assert_eq!(fully_reclaimed_size(&vec![file(1, 2), file(2, 1)]), 8 * 512);
}

#[test]
fn hard_collections_need_their_confirmation() {
    assert!(check_gc_request(false, false, false).is_ok());
    assert!(check_gc_request(true, true, false).is_ok());
    assert!(check_gc_request(false, true, true).is_ok());
    assert!(check_gc_request(false, true, false).is_err());
    assert!(check_hard_gc(&Vec::new(), false).is_ok());
    assert!(check_hard_gc(&vec!["c1".into()], false).is_err());
    assert!(check_hard_gc(&Vec::new(), true).is_err());
}

#[test]
fn companions_and_directories_are_named() {
    assert!(setup_companions("/s/deleted.json").contains(&"/s/deleted.fingerprint".to_owned()));
    assert_eq!(
        git_directory_of("gitdir: /repo/.git/worktrees/a\n", "/parent/a").as_deref(),
        Some("/repo/.git/worktrees/a")
    );
    assert_eq!(
        git_directory_of("gitdir: ../.git/worktrees/a\n", "/parent/a").as_deref(),
        Some("/parent/a/../.git/worktrees/a")
    );
    assert!(git_directory_of("something else", "/parent/a").is_none());
    assert_eq!(
        in_use_lean_service_generations(
            "/usr/bin/env\0/state/services/gen1/bin/server\0--flag",
            "/state/services"
        ),
        ["gen1"]
    );
}

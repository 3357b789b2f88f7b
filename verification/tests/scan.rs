use synctui_resolver::model::FileStat;
use synctui_resolver::scan::{build_groups, collect_conflicts, is_conflict_name, rel_path, GroupPaths};

fn stat(exists: bool, size: u64, millis: u64) -> FileStat {
    if exists {
        FileStat { exists, size: Some(size), modified: Some(millis) }
    } else {
        FileStat { exists: false, size: None, modified: None }
    }
}

fn groups_equal(a: &[GroupPaths], b: &[GroupPaths]) -> bool {
    a.len() == b.len()
        && a.iter().zip(b.iter()).all(|(x, y)| x.base == y.base && x.conflicts == y.conflicts)
}

#[test]
fn rel_path_strips_prefix() {
    let root = "/a/b";
    let p = "/a/b/c/d.txt";
    assert_eq!(rel_path(root, p), "c/d.txt");
}

#[test]
fn rel_path_of_root_itself_is_empty() {
    assert_eq!(rel_path("/a/b", "/a/b"), "");
}

#[test]
fn rel_path_outside_root_is_unchanged() {
    assert_eq!(rel_path("/a/b", "/x/y.txt"), "/x/y.txt");
}

#[test]
fn is_conflict_name_splits_at_marker() {
    assert_eq!(
        is_conflict_name("notes.txt.sync-conflict-20240101-010101-DEV"),
        Some("notes.txt")
    );
    assert_eq!(is_conflict_name("plain.txt"), None);
}

#[test]
fn collect_groups_conflicts_by_base_path() {
    let paths = vec![
        "/r/notes.txt".to_string(),
        "/r/notes.txt.sync-conflict-20240102-020202-DEV".to_string(),
        "/r/notes.txt.sync-conflict-20240101-010101-DEV".to_string(),
        "/r/sub/other.md.sync-conflict-20240103-030303-DEV".to_string(),
    ];
    let gs = collect_conflicts(&paths, true);
    assert_eq!(gs.len(), 2);
    assert_eq!(gs[0].base, "/r/notes.txt");
    assert_eq!(
        gs[0].conflicts,
        vec![
            "/r/notes.txt.sync-conflict-20240101-010101-DEV".to_string(),
            "/r/notes.txt.sync-conflict-20240102-020202-DEV".to_string(),
        ]
    );
    assert_eq!(gs[1].base, "/r/sub/other.md");
    assert_eq!(gs[1].conflicts.len(), 1);
}

#[test]
fn collect_is_independent_of_enumeration_order() {
    let forward = vec![
        "/r/a.txt.sync-conflict-20240101-010101-DEV".to_string(),
        "/r/a.txt.sync-conflict-20240102-020202-DEV".to_string(),
        "/r/b.txt.sync-conflict-20240101-010101-DEV".to_string(),
        "/r/plain.txt".to_string(),
    ];
    let mut backward = forward.clone();
    backward.reverse();
    let g1 = collect_conflicts(&forward, false);
    let g2 = collect_conflicts(&backward, false);
    assert!(groups_equal(&g1, &g2));
}

#[test]
fn collect_twice_yields_identical_groups() {
    let paths = vec![
        "/r/x.txt.sync-conflict-20240101-010101-DEV".to_string(),
        "/r/x.txt.sync-conflict-20240102-020202-DEV".to_string(),
    ];
    let g1 = collect_conflicts(&paths, false);
    let g2 = collect_conflicts(&paths, false);
    assert!(groups_equal(&g1, &g2));
}

#[test]
fn hidden_paths_are_excluded_unless_asked_for() {
    let paths = vec![
        "/r/.hidden/file.txt".to_string(),
        "/r/.hidden/file.txt.sync-conflict-20240101-010101-DEV".to_string(),
    ];
    let excluded = collect_conflicts(&paths, false);
    assert_eq!(excluded.len(), 0);
    let included = collect_conflicts(&paths, true);
    assert_eq!(included.len(), 1);
    assert_eq!(included[0].base, "/r/.hidden/file.txt");
}

#[test]
fn build_groups_sets_original_first_and_ranked_labels() {
    let paths = vec![
        "/r/notes.txt.sync-conflict-20240102-020202-DEV".to_string(),
        "/r/notes.txt.sync-conflict-20240101-010101-DEV".to_string(),
    ];
    let parts = collect_conflicts(&paths, true);
    assert_eq!(parts.len(), 1);
    let orig_stats = vec![stat(true, 4, 50)];
    let conflict_stats = vec![vec![stat(true, 2, 100), stat(true, 2, 200)]];
    let groups = build_groups(&parts, &orig_stats, &conflict_stats);
    assert_eq!(groups.len(), 1);
    let g = &groups[0];
    assert_eq!(g.base_path, "/r/notes.txt");
    assert_eq!(g.chosen, None);
    assert_eq!(g.candidates.len(), 3);
    assert!(g.candidates[0].is_original);
    assert_eq!(g.candidates[0].path, g.base_path);
    assert_eq!(g.candidates[0].label, "Original");
    assert_eq!(g.candidates[1].label, "Conflict 1");
    assert_eq!(g.candidates[1].path, "/r/notes.txt.sync-conflict-20240101-010101-DEV");
    assert_eq!(g.candidates[2].label, "Conflict 2");
    // conflicts stay sorted by path whatever order the walk produced
    assert!(g.candidates[1].path < g.candidates[2].path);
}

#[test]
fn build_groups_keeps_absent_original() {
    let paths = vec!["/r/gone.txt.sync-conflict-20240101-010101-DEV".to_string()];
    let parts = collect_conflicts(&paths, true);
    let groups = build_groups(&parts, &vec![stat(false, 0, 0)], &vec![vec![stat(true, 1, 10)]]);
    assert_eq!(groups.len(), 1);
    assert!(!groups[0].candidates[0].exists);
    assert!(groups[0].candidates[0].is_original);
    assert_eq!(groups[0].candidates[0].size, None);
}

#[test]
fn empty_walk_yields_no_groups() {
    let paths: Vec<String> = vec![];
    assert_eq!(collect_conflicts(&paths, true).len(), 0);
}

#[test]
fn scan_finds_groups_and_original_candidate() {
    let base = "/root/notes.txt";
    let c1 = "/root/notes.txt.sync-conflict-20240101-010101-DEV";
    let c2 = "/root/notes.txt.sync-conflict-20240102-020202-DEV";
    // all three files are on disk; the walk hands their paths over
    let paths = vec![base.to_string(), c1.to_string(), c2.to_string()];
    let parts = collect_conflicts(&paths, true);
    let orig_stats: Vec<FileStat> = parts.iter().map(|_| stat(true, 4, 1)).collect();
    let conflict_stats: Vec<Vec<FileStat>> =
        parts.iter().map(|g| g.conflicts.iter().map(|_| stat(true, 2, 2)).collect()).collect();
    let groups = build_groups(&parts, &orig_stats, &conflict_stats);
    assert_eq!(groups.len(), 1);
    let g = &groups[0];
    assert_eq!(g.base_path, base);
    assert!(g.candidates.len() >= 3);
    assert!(g.candidates[0].is_original);
    assert_eq!(g.candidates[0].path, g.base_path);
}

#[test]
fn scan_ignores_hidden_dirs_by_default() {
    let base = "/root/.hidden/file.txt";
    let c1 = "/root/.hidden/file.txt.sync-conflict-20240101-010101-DEV";
    let paths = vec![c1.to_string(), base.to_string()];

    let groups = collect_conflicts(&paths, false);
    assert_eq!(groups.len(), 0);

    let groups = collect_conflicts(&paths, true);
    assert_eq!(groups.len(), 1);
}

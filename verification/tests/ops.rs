use synctui_resolver::model::{Candidate, ConflictGroup};
use synctui_resolver::ops::{archive_dir_for, plan_group_moves, unique_name, unique_name_with, PlanError};

fn variant(path: &str, exists: bool) -> Candidate {
    Candidate {
        path: path.to_string(),
        exists,
        is_original: false,
        size: None,
        modified: None,
        label: String::new(),
    }
}

#[test]
fn unique_name_prefix() {
    let n = unique_name("file.txt");
    assert!(n.starts_with("file.txt."));
}

#[test]
fn unique_name_with_renders_millis_in_decimal() {
    assert_eq!(unique_name_with("a.txt", 12345), "a.txt.12345");
    assert_eq!(unique_name_with("a.txt", 0), "a.txt.0");
}

#[test]
fn archive_dir_for_places_in_parent() {
    let a = archive_dir_for("/t/x/file.txt").unwrap();
    assert_eq!(a, "/t/x/.stconflict-archive");
}

#[test]
fn archive_dir_for_without_parent_is_an_error() {
    assert_eq!(archive_dir_for("file.txt"), Err(PlanError::NoParent));
}

#[test]
fn plan_group_moves_archives_then_moves_keeper() {
    let base = "/r/notes.txt";
    let c1 = "/r/notes.txt.sync-conflict-20240101-010101-DEV";
    let c2 = "/r/notes.txt.sync-conflict-20240102-020202-DEV";
    let mut orig = variant(base, false);
    orig.is_original = true;
    let g = ConflictGroup {
        base_path: base.to_string(),
        candidates: vec![orig, variant(c1, true), variant(c2, true)],
        chosen: Some(2),
    };
    let plan = plan_group_moves(&g, 2, 77).unwrap();
    assert_eq!(plan.archive_dir, "/r/.stconflict-archive");
    // the absent original is skipped; c1 is archived; the keeper lands on the base
    assert_eq!(plan.moves.len(), 2);
    assert_eq!(plan.moves[0].from, c1);
    assert_eq!(
        plan.moves[0].to,
        "/r/.stconflict-archive/notes.txt.sync-conflict-20240101-010101-DEV.77"
    );
    assert_eq!(plan.moves[1].from, c2);
    assert_eq!(plan.moves[1].to, base);
}

#[test]
fn plan_group_moves_keeper_at_base_needs_no_final_move() {
    let base = "/r/notes.txt";
    let c1 = "/r/notes.txt.sync-conflict-20240101-010101-DEV";
    let mut orig = variant(base, true);
    orig.is_original = true;
    let g = ConflictGroup {
        base_path: base.to_string(),
        candidates: vec![orig, variant(c1, true)],
        chosen: Some(0),
    };
    let plan = plan_group_moves(&g, 0, 5).unwrap();
    assert_eq!(plan.moves.len(), 1);
    assert_eq!(plan.moves[0].from, c1);
    assert_eq!(
        plan.moves[0].to,
        "/r/.stconflict-archive/notes.txt.sync-conflict-20240101-010101-DEV.5"
    );
}

#[test]
fn plan_group_moves_without_parent_is_an_error() {
    let g = ConflictGroup {
        base_path: "nofolder".to_string(),
        candidates: vec![variant("nofolder", true)],
        chosen: Some(0),
    };
    assert_eq!(plan_group_moves(&g, 0, 1).unwrap_err(), PlanError::NoParent);
}

#[test]
fn plan_group_moves_empty_file_name_is_an_error() {
    // a candidate path that ends in the separator has no file name to
    // build an archive name from
    let g = ConflictGroup {
        base_path: "/r/n.txt".to_string(),
        candidates: vec![variant("/r/", true), variant("/r/keep.txt", true)],
        chosen: Some(1),
    };
    assert_eq!(plan_group_moves(&g, 1, 1).unwrap_err(), PlanError::BadName);
}

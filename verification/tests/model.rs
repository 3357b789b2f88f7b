use synctui_resolver::model::{Candidate, ConflictGroup};

fn cand(label: &str, millis: u64) -> Candidate {
    Candidate {
        path: label.to_string(),
        exists: true,
        is_original: false,
        size: None,
        modified: Some(millis),
        label: label.to_string(),
    }
}

fn cand_no_mtime(label: &str) -> Candidate {
    Candidate {
        path: label.to_string(),
        exists: true,
        is_original: false,
        size: None,
        modified: None,
        label: label.to_string(),
    }
}

#[test]
fn newest_and_oldest_idx_pick_by_modified_time() {
    let g = ConflictGroup {
        base_path: "base".to_string(),
        candidates: vec![cand("a", 10), cand("b", 5), cand("c", 99)],
        chosen: None,
    };
    assert_eq!(g.oldest_idx(), Some(1));
    assert_eq!(g.newest_idx(), Some(2));
}

#[test]
fn newest_and_oldest_none_without_timestamps() {
    let g = ConflictGroup {
        base_path: "base".to_string(),
        candidates: vec![cand_no_mtime("a"), cand_no_mtime("b")],
        chosen: None,
    };
    assert_eq!(g.newest_idx(), None);
    assert_eq!(g.oldest_idx(), None);
}

#[test]
fn newest_and_oldest_first_occurrence_wins_on_ties() {
    let g = ConflictGroup {
        base_path: "base".to_string(),
        candidates: vec![cand("a", 7), cand("b", 7), cand("c", 7)],
        chosen: None,
    };
    assert_eq!(g.newest_idx(), Some(0));
    assert_eq!(g.oldest_idx(), Some(0));
}

#[test]
fn newest_skips_candidates_without_timestamps() {
    let g = ConflictGroup {
        base_path: "base".to_string(),
        candidates: vec![cand_no_mtime("a"), cand("b", 3), cand_no_mtime("c"), cand("d", 8)],
        chosen: None,
    };
    assert_eq!(g.newest_idx(), Some(3));
    assert_eq!(g.oldest_idx(), Some(1));
}

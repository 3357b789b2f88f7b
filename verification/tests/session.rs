use synctui_resolver::model::{Candidate, ConflictGroup, FileStat};
use synctui_resolver::ops::GroupPlan;
use synctui_resolver::scan::{build_groups, collect_conflicts};
use synctui_resolver::session::{
    list_down, list_up, Action, ApplyOutcome, Event, GroupApplyResult, GroupPlanResult, Mode,
    PickKind, Session, SessionError,
};

fn empty_session(groups: Vec<ConflictGroup>) -> Session {
    Session {
        root: "/".to_string(),
        apply: false,
        include_hidden: false,
        mode: Mode::List,
        groups,
        list_cursor: None,
        pick_cursor: None,
        selected_groups: vec![],
        message: String::new(),
        planned_ops: vec![],
        planned_targets: vec![],
    }
}

fn bare_group(base: &str) -> ConflictGroup {
    ConflictGroup { base_path: base.to_string(), candidates: vec![], chosen: None }
}

/// A tiny in-memory file tree: path to content.
struct MiniFs {
    files: Vec<(String, String)>,
}

impl MiniFs {
    fn new(files: &[(&str, &str)]) -> MiniFs {
        MiniFs {
            files: files.iter().map(|(p, c)| (p.to_string(), c.to_string())).collect(),
        }
    }

    fn get(&self, path: &str) -> Option<&str> {
        self.files.iter().find(|(p, _)| p == path).map(|(_, c)| c.as_str())
    }

    fn mv(&mut self, from: &str, to: &str) -> Result<(), String> {
        let pos = match self.files.iter().position(|(p, _)| p == from) {
            Some(pos) => pos,
            None => return Err(format!("missing {}", from)),
        };
        self.files[pos].0 = to.to_string();
        Ok(())
    }

    fn run_plan(&mut self, plan: &GroupPlan) -> Result<(), String> {
        for m in plan.moves.iter() {
            self.mv(&m.from, &m.to)?;
        }
        Ok(())
    }

    fn some_path_starts_with(&self, prefix: &str) -> bool {
        self.files.iter().any(|(p, _)| p.starts_with(prefix))
    }
}

/// Scan the in-memory tree the way the application would: walk, group,
/// stat, build.
fn scan_mini(fs: &MiniFs, include_hidden: bool, mtimes: &[(&str, u64)]) -> Vec<ConflictGroup> {
    let paths: Vec<String> = fs.files.iter().map(|(p, _)| p.clone()).collect();
    let parts = collect_conflicts(&paths, include_hidden);
    let stat_of = |p: &str| -> FileStat {
        match fs.get(p) {
            Some(c) => FileStat {
                exists: true,
                size: Some(c.len() as u64),
                modified: mtimes.iter().find(|(q, _)| *q == p).map(|(_, m)| *m),
            },
            None => FileStat { exists: false, size: None, modified: None },
        }
    };
    let orig_stats: Vec<FileStat> = parts.iter().map(|g| stat_of(&g.base)).collect();
    let conflict_stats: Vec<Vec<FileStat>> =
        parts.iter().map(|g| g.conflicts.iter().map(|p| stat_of(p)).collect()).collect();
    build_groups(&parts, &orig_stats, &conflict_stats)
}

/// Execute a confirmed apply the way the application would, and feed the
/// results back.
fn execute_apply(session: &mut Session, fs: &mut MiniFs, targets: Vec<usize>) -> bool {
    let mut results: Vec<GroupApplyResult> = vec![];
    for gi in targets {
        match session.make_group_plan(gi) {
            GroupPlanResult::Skip => {}
            GroupPlanResult::Ready(plan) => {
                let error = fs.run_plan(&plan).err();
                results.push(GroupApplyResult { index: gi, error });
            }
            GroupPlanResult::Failed(e) => {
                results.push(GroupApplyResult { index: gi, error: Some(e) });
            }
        }
    }
    session.finish_apply(&results)
}

#[test]
fn current_group_len_empty_when_none_selected() {
    let mut app = empty_session(vec![]);
    app.list_cursor = None;
    assert_eq!(app.current_group_len(), 0);
}

#[test]
fn list_nav_bounds() {
    let mut state: Option<usize> = None;
    list_down(&mut state, 0);
    assert_eq!(state, None);

    list_down(&mut state, 3);
    assert_eq!(state, Some(0));
    list_down(&mut state, 3);
    assert_eq!(state, Some(1));
    list_down(&mut state, 3);
    assert_eq!(state, Some(2));
    list_down(&mut state, 3);
    assert_eq!(state, Some(2));

    list_up(&mut state, 3);
    assert_eq!(state, Some(1));
    list_up(&mut state, 3);
    assert_eq!(state, Some(0));
    list_up(&mut state, 3);
    assert_eq!(state, Some(0));
}

#[test]
fn list_quick_pick_also_selects_group() {
    let g0 = bare_group("a");
    let g1 = bare_group("b");
    let mut app = empty_session(vec![g0, g1]);
    app.list_cursor = Some(1);

    app.pick_kind_for_targets(PickKind::Newest, false).unwrap();
    assert!(app.selected_groups.contains(&1));
}

#[test]
fn quick_pick_for_all_selected_picks_every_group() {
    let c = |p: &str, m: u64| Candidate {
        path: p.to_string(),
        exists: true,
        is_original: false,
        size: None,
        modified: Some(m),
        label: String::new(),
    };
    let g0 = ConflictGroup {
        base_path: "a".to_string(),
        candidates: vec![c("a", 1), c("a1", 9)],
        chosen: None,
    };
    let g1 = ConflictGroup {
        base_path: "b".to_string(),
        candidates: vec![c("b", 5), c("b1", 2)],
        chosen: None,
    };
    let mut app = empty_session(vec![g0, g1]);
    app.selected_groups = vec![0, 1];
    app.pick_kind_for_targets(PickKind::Newest, true).unwrap();
    assert_eq!(app.groups[0].chosen, Some(1));
    assert_eq!(app.groups[1].chosen, Some(0));
    assert_eq!(app.message, "Picked newest for selected");
}

#[test]
fn enter_pick_defaults_to_newest_then_original() {
    let fs = MiniFs::new(&[
        ("/r/n.txt", "o"),
        ("/r/n.txt.sync-conflict-20240101-010101-DEV", "a"),
        ("/r/n.txt.sync-conflict-20240102-020202-DEV", "b"),
    ]);
    let groups = scan_mini(
        &fs,
        false,
        &[
            ("/r/n.txt", 50),
            ("/r/n.txt.sync-conflict-20240101-010101-DEV", 200),
            ("/r/n.txt.sync-conflict-20240102-020202-DEV", 100),
        ],
    );
    let mut s = Session::new("/r".to_string(), false, false, groups);
    s.enter_pick().unwrap();
    assert_eq!(s.mode, Mode::Pick);
    assert_eq!(s.pick_cursor, Some(1));

    // without any timestamps the cursor falls back to the original
    let groups2 = scan_mini(&fs, false, &[]);
    let mut s2 = Session::new("/r".to_string(), false, false, groups2);
    s2.enter_pick().unwrap();
    assert_eq!(s2.pick_cursor, Some(0));
}

#[test]
fn pick_newest_without_mtimes_reports_and_stays() {
    let fs = MiniFs::new(&[("/r/n.txt.sync-conflict-20240101-010101-DEV", "a")]);
    let groups = scan_mini(&fs, false, &[]);
    let mut s = Session::new("/r".to_string(), false, false, groups);
    s.enter_pick().unwrap();
    s.pick_newest().unwrap();
    assert_eq!(s.mode, Mode::Pick);
    assert_eq!(s.message, "no mtime");
    assert_eq!(s.groups[0].chosen, None);
}

#[test]
fn planning_unresolved_group_reports_pick_first_and_clears_plan() {
    let fs = MiniFs::new(&[("/r/n.txt.sync-conflict-20240101-010101-DEV", "a")]);
    let groups = scan_mini(&fs, false, &[]);
    let mut s = Session::new("/r".to_string(), false, false, groups);
    s.planned_ops = vec!["stale line".to_string()];
    s.planned_targets = vec![0];
    s.plan_and_confirm(false).unwrap();
    assert_eq!(s.message, "Pick a version first (Enter)");
    assert!(s.planned_ops.is_empty());
    assert!(s.planned_targets.is_empty());
    assert_eq!(s.mode, Mode::List);
}

#[test]
fn planning_lists_group_keeper_and_archive() {
    let fs = MiniFs::new(&[
        ("/r/n.txt", "o"),
        ("/r/n.txt.sync-conflict-20240101-010101-DEV", "a"),
    ]);
    let groups = scan_mini(&fs, false, &[("/r/n.txt.sync-conflict-20240101-010101-DEV", 9)]);
    let mut s = Session::new("/r".to_string(), false, false, groups);
    s.pick_newest().unwrap();
    s.plan_and_confirm(false).unwrap();
    assert_eq!(s.mode, Mode::Confirm);
    assert_eq!(
        s.planned_ops,
        vec![
            "Group: n.txt".to_string(),
            "  keep -> n.txt.sync-conflict-20240101-010101-DEV".to_string(),
            "  archive -> .stconflict-archive".to_string(),
        ]
    );
    assert_eq!(s.planned_targets, vec![0]);
}

#[test]
fn dry_run_apply_never_touches_the_tree() {
    let mut fs = MiniFs::new(&[
        ("/r/n.txt", "o"),
        ("/r/n.txt.sync-conflict-20240101-010101-DEV", "a"),
    ]);
    let groups = scan_mini(&fs, false, &[("/r/n.txt.sync-conflict-20240101-010101-DEV", 9)]);
    let mut s = Session::new("/r".to_string(), false, false, groups);
    s.pick_newest().unwrap();
    s.plan_and_confirm(false).unwrap();
    let before = fs.files.clone();
    match s.apply_plan() {
        ApplyOutcome::DryRun => {}
        _ => panic!("expected a dry run"),
    }
    // nothing was handed out for execution, so the tree is untouched and
    // no archive directory path ever appears
    assert_eq!(fs.files, before);
    assert!(!fs.some_path_starts_with("/r/.stconflict-archive"));
    assert_eq!(s.mode, Mode::Confirm);
    assert_eq!(s.message, "Dry-run complete. Toggle apply with 't', then press 'y' to apply.");
    assert_eq!(s.planned_targets, vec![0]);
}

#[test]
fn apply_places_newest_at_base_and_archives_the_rest() {
    // group with an absent original and two conflicts, timestamps 100 < 200
    let mut fs = MiniFs::new(&[
        ("/r/notes.txt.sync-conflict-20240101-010101-DEV", "one"),
        ("/r/notes.txt.sync-conflict-20240102-020202-DEV", "two"),
    ]);
    let groups = scan_mini(
        &fs,
        false,
        &[
            ("/r/notes.txt.sync-conflict-20240101-010101-DEV", 100),
            ("/r/notes.txt.sync-conflict-20240102-020202-DEV", 200),
        ],
    );
    let mut s = Session::new("/r".to_string(), true, false, groups);
    s.pick_newest().unwrap();
    assert_eq!(s.groups[0].chosen, Some(2));
    s.plan_and_confirm(false).unwrap();
    let targets = match s.apply_plan() {
        ApplyOutcome::Execute(v) => v,
        _ => panic!("expected execution"),
    };
    let rescan = execute_apply(&mut s, &mut fs, targets);
    assert!(rescan);
    assert_eq!(s.message, "Applied");
    // the newest content now sits at the base path
    assert_eq!(fs.get("/r/notes.txt"), Some("two"));
    // the older conflict went into the archive directory under its own name
    assert!(fs.some_path_starts_with(
        "/r/.stconflict-archive/notes.txt.sync-conflict-20240101-010101-DEV."
    ));
    // the conflict paths themselves are gone
    assert_eq!(fs.get("/r/notes.txt.sync-conflict-20240101-010101-DEV"), None);
    assert_eq!(fs.get("/r/notes.txt.sync-conflict-20240102-020202-DEV"), None);
}

#[test]
fn apply_with_one_vanished_group_still_applies_the_rest() {
    let mut fs = MiniFs::new(&[
        ("/r/a.txt.sync-conflict-20240101-010101-DEV", "aa"),
        ("/r/b.txt.sync-conflict-20240101-010101-DEV", "bb"),
    ]);
    let groups = scan_mini(
        &fs,
        false,
        &[
            ("/r/a.txt.sync-conflict-20240101-010101-DEV", 10),
            ("/r/b.txt.sync-conflict-20240101-010101-DEV", 10),
        ],
    );
    let mut s = Session::new("/r".to_string(), true, false, groups);
    s.pick_kind_for_targets(PickKind::Newest, false).unwrap();
    s.list_cursor = Some(1);
    s.pick_kind_for_targets(PickKind::Newest, false).unwrap();
    s.plan_and_confirm(true).unwrap();
    let targets = match s.apply_plan() {
        ApplyOutcome::Execute(v) => v,
        _ => panic!("expected execution"),
    };
    // group a's chosen file vanishes from disk between scan and apply
    fs.files.retain(|(p, _)| !p.starts_with("/r/a.txt"));
    let rescan = execute_apply(&mut s, &mut fs, targets);
    assert!(!rescan);
    // exactly one failure is reported, and the other group was applied
    assert_eq!(s.message, "Some groups failed (1). See details in the log panel.");
    assert_eq!(s.planned_ops.len(), 1);
    assert!(s.planned_ops[0].starts_with("a.txt: "));
    assert_eq!(s.mode, Mode::Confirm);
    assert_eq!(fs.get("/r/b.txt"), Some("bb"));
}

#[test]
fn handle_event_interrupt_exits_from_any_mode() {
    let mut s = empty_session(vec![]);
    s.mode = Mode::Confirm;
    match s.handle_event(Event::Interrupt).unwrap() {
        Action::Exit => {}
        _ => panic!("expected exit"),
    }
}

#[test]
fn handle_event_toggle_apply_flips_and_reports() {
    let mut s = empty_session(vec![]);
    match s.handle_event(Event::ToggleApply).unwrap() {
        Action::Continue => {}
        _ => panic!("expected to continue"),
    }
    assert!(s.apply);
    assert_eq!(s.message, "Mode: APPLY (will move files)");
    s.handle_event(Event::ToggleApply).unwrap();
    assert!(!s.apply);
    assert_eq!(s.message, "Mode: DRY-RUN (no filesystem changes)");
}

#[test]
fn handle_event_back_discards_the_confirmation() {
    let mut s = empty_session(vec![bare_group("a")]);
    s.mode = Mode::Confirm;
    s.planned_ops = vec!["x".to_string()];
    s.planned_targets = vec![0];
    s.message = "y".to_string();
    s.handle_event(Event::Back).unwrap();
    assert_eq!(s.mode, Mode::List);
    assert!(s.planned_ops.is_empty());
    assert!(s.planned_targets.is_empty());
    assert_eq!(s.message, "");
}

#[test]
fn handle_event_decline_cancels() {
    let mut s = empty_session(vec![bare_group("a")]);
    s.mode = Mode::Confirm;
    s.planned_targets = vec![0];
    s.handle_event(Event::Decline).unwrap();
    assert_eq!(s.mode, Mode::List);
    assert!(s.planned_targets.is_empty());
    assert_eq!(s.message, "Cancelled");
}

#[test]
fn handle_event_confirm_with_nothing_planned_reports() {
    let mut s = empty_session(vec![]);
    s.mode = Mode::Confirm;
    match s.handle_event(Event::ConfirmYes).unwrap() {
        Action::Continue => {}
        _ => panic!("expected to continue"),
    }
    assert_eq!(s.message, "Nothing planned");
    assert_eq!(s.mode, Mode::List);
}

#[test]
fn install_groups_resets_selection_and_cursors() {
    let mut s = empty_session(vec![]);
    s.selected_groups = vec![];
    s.install_groups(vec![bare_group("a"), bare_group("b")]);
    assert_eq!(s.list_cursor, Some(0));
    assert_eq!(s.pick_cursor, None);
    assert!(s.selected_groups.is_empty());
    assert_eq!(s.groups.len(), 2);

    s.install_groups(vec![]);
    assert_eq!(s.list_cursor, None);
}

#[test]
fn toggle_selected_adds_and_removes() {
    let mut s = empty_session(vec![bare_group("a"), bare_group("b")]);
    s.list_cursor = Some(0);
    s.toggle_selected();
    assert!(s.selected_groups.contains(&0));
    s.toggle_selected();
    assert!(!s.selected_groups.contains(&0));
}

#[test]
fn pick_transitions_report_missing_cursors() {
    let mut s = empty_session(vec![bare_group("a")]);
    s.list_cursor = None;
    assert_eq!(s.enter_pick(), Err(SessionError::NoSelection));

    s.list_cursor = Some(5);
    assert_eq!(s.enter_pick(), Err(SessionError::BadIndex));

    s.list_cursor = Some(0);
    s.pick_cursor = None;
    assert_eq!(s.pick_current(), Err(SessionError::NoCandidate));
}

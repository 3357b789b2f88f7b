//! Interaction controller: the session state machine.
//!
//! The session owns the mutable in-memory model — the scanned groups, the
//! cursors, the multi-select set, the pending plan and the apply/dry-run
//! flag — and every operator input is a pure transition on it.  Filesystem
//! work never happens here: confirming a plan hands the surrounding
//! application a list of group indices to execute, and the application
//! reports the per-group outcomes back.

use vstd::prelude::*;

use crate::model::has_mtime;
use crate::model::is_newest_at;
use crate::model::is_oldest_at;
use crate::model::ConflictGroup;
use crate::ops::archive_dir_for;
use crate::ops::group_moves_spec;
use crate::ops::moves_view;
use crate::ops::plan_group_moves;
use crate::ops::some_bad_name;
use crate::ops::unique_suffix_millis;
use crate::ops::GroupPlan;
use crate::ops::PlanError;
use crate::paths::archive_dir_spec;
use crate::paths::has_parent;
use crate::scan::rel_path;
use crate::scan::rel_path_spec;
use crate::strutil::dec_spec;
use crate::strutil::seq_views;
use crate::strutil::str_concat;
use crate::strutil::u128_to_dec;

verus! {

/// The four states of the interactive session.
#[derive(Clone, Copy, Debug, PartialEq, Eq, Structural)]
pub enum Mode {
    List,
    Pick,
    Confirm,
    Done,
}

/// A quick-pick rule: keep the original, the newest, or the oldest.
#[derive(Clone, Copy, Debug, PartialEq, Eq, Structural)]
pub enum PickKind {
    Current,
    Newest,
    Oldest,
}

/// Why a transition could not run; surfacing one of these ends the session.
#[derive(Clone, Copy, Debug, PartialEq, Eq, Structural)]
pub enum SessionError {
    /// No group is under the cursor.
    NoSelection,
    /// The cursor points past the end of the group list.
    BadIndex,
    /// No candidate is under the cursor.
    NoCandidate,
}

/// The invocation parameters of one session: the root directory to scan,
/// the apply/dry-run flag, and whether hidden entries take part.
#[derive(Clone, Debug)]
pub struct Args {
    pub path: String,
    pub apply: bool,
    pub include_hidden: bool,
}

/// The whole mutable state of one interactive session.
pub struct Session {
    pub root: String,
    pub apply: bool,
    pub include_hidden: bool,
    pub mode: Mode,
    pub groups: Vec<ConflictGroup>,
    pub list_cursor: Option<usize>,
    pub pick_cursor: Option<usize>,
    pub selected_groups: Vec<usize>,
    pub message: String,
    pub planned_ops: Vec<String>,
    pub planned_targets: Vec<usize>,
}

/// The multi-select set is held as a strictly ascending index list.
pub open spec fn strictly_sorted(v: Seq<usize>) -> bool {
    forall|i: int, j: int| 0 <= i < j < v.len() ==> v[i] < v[j]
}

/// Everything except the groups, cursors, selection, message and plan is
/// unchanged.
pub open spec fn same_config(a: Session, b: Session) -> bool {
    &&& a.root == b.root
    &&& a.apply == b.apply
    &&& a.include_hidden == b.include_hidden
}

impl Args {
    /// Start a session over freshly scanned groups with these parameters.
    pub fn start(self, groups: Vec<ConflictGroup>) -> (s: Session)
        ensures
            s.root == self.path,
            s.apply == self.apply,
            s.include_hidden == self.include_hidden,
            s.mode == Mode::List,
            s.groups == groups,
            s.list_cursor == (if groups@.len() > 0 {
                Some(0usize)
            } else {
                None::<usize>
            }),
            s.pick_cursor is None,
            s.selected_groups@ == Seq::<usize>::empty(),
            s.message@ == Seq::<char>::empty(),
            s.planned_ops@ == Seq::<String>::empty(),
            s.planned_targets@ == Seq::<usize>::empty(),
    {
        Session::new(self.path, self.apply, self.include_hidden, groups)
    }
}

impl Session {
    /// Start a session over freshly scanned groups: list mode, cursor on
    /// the first group when there is one, nothing selected or planned.
    pub fn new(root: String, apply: bool, include_hidden: bool, groups: Vec<ConflictGroup>) -> (s:
        Session)
        ensures
            s.root == root,
            s.apply == apply,
            s.include_hidden == include_hidden,
            s.mode == Mode::List,
            s.groups == groups,
            s.list_cursor == (if groups@.len() > 0 {
                Some(0usize)
            } else {
                None::<usize>
            }),
            s.pick_cursor is None,
            s.selected_groups@ == Seq::<usize>::empty(),
            s.message@ == Seq::<char>::empty(),
            s.planned_ops@ == Seq::<String>::empty(),
            s.planned_targets@ == Seq::<usize>::empty(),
    {
        let list_cursor = if groups.len() > 0 {
            Some(0usize)
        } else {
            None
        };
        Session {
            root,
            apply,
            include_hidden,
            mode: Mode::List,
            groups,
            list_cursor,
            pick_cursor: None,
            selected_groups: Vec::new(),
            message: String::new(),
            planned_ops: Vec::new(),
            planned_targets: Vec::new(),
        }
    }

    /// Flip the session-wide apply/dry-run flag and report the new mode.
    pub fn toggle_apply(&mut self)
        ensures
            final(self).apply == !old(self).apply,
            final(self).message@ == (if final(self).apply {
                "Mode: APPLY (will move files)"@
            } else {
                "Mode: DRY-RUN (no filesystem changes)"@
            }),
            final(self).root == old(self).root,
            final(self).include_hidden == old(self).include_hidden,
            final(self).mode == old(self).mode,
            final(self).groups == old(self).groups,
            final(self).list_cursor == old(self).list_cursor,
            final(self).pick_cursor == old(self).pick_cursor,
            final(self).selected_groups == old(self).selected_groups,
            final(self).planned_ops == old(self).planned_ops,
            final(self).planned_targets == old(self).planned_targets,
    {
        self.apply = !self.apply;
        self.message = if self.apply {
            "Mode: APPLY (will move files)".to_owned()
        } else {
            "Mode: DRY-RUN (no filesystem changes)".to_owned()
        };
    }

    /// Number of candidates in the group under the cursor, `0` when no
    /// group is under it.
    pub fn current_group_len(&self) -> (r: usize)
        ensures
            r == (match self.list_cursor {
                Some(i) => if i < self.groups@.len() {
                    self.groups@[i as int].candidates@.len()
                } else {
                    0
                },
                None => 0,
            }),
    {
        match self.list_cursor {
            Some(i) => {
                if i < self.groups.len() {
                    self.groups[i].candidates.len()
                } else {
                    0
                }
            },
            None => 0,
        }
    }
}

/// Move a cursor one step down a list of `len` entries, clamping at the
/// end; an unset cursor lands on the first entry.
pub fn list_down(state: &mut Option<usize>, len: usize)
    ensures
        len == 0 ==> *final(state) is None,
        len > 0 ==> *final(state) == Some(
            match *old(state) {
                None => 0usize,
                Some(i) => if i + 1 < len {
                    (i + 1) as usize
                } else {
                    (len - 1) as usize
                },
            },
        ),
{
    if len == 0 {
        *state = None;
        return ;
    }
    let next: usize = match *state {
        None => 0,
        Some(i) => {
            if i < len - 1 {
                i + 1
            } else {
                len - 1
            }
        },
    };
    *state = Some(next);
}

/// Move a cursor one step up, clamping at the first entry; an unset cursor
/// lands on the first entry.
pub fn list_up(state: &mut Option<usize>, len: usize)
    ensures
        len == 0 ==> *final(state) is None,
        len > 0 ==> *final(state) == Some(
            match *old(state) {
                None => 0usize,
                Some(i) => if i > 0 {
                    (i - 1) as usize
                } else {
                    0usize
                },
            },
        ),
{
    if len == 0 {
        *state = None;
        return ;
    }
    let next: usize = match *state {
        None => 0,
        Some(i) => {
            if i > 0 {
                i - 1
            } else {
                0
            }
        },
    };
    *state = Some(next);
}

/// `g` with its resolution decision replaced.
pub open spec fn with_chosen(g: ConflictGroup, c: Option<usize>) -> ConflictGroup {
    ConflictGroup { base_path: g.base_path, candidates: g.candidates, chosen: c }
}

/// `news` holds exactly the members of `olds` with `i` toggled.
pub open spec fn toggled_selection(olds: Seq<usize>, news: Seq<usize>, i: usize) -> bool {
    forall|y: usize|
        news.contains(y) <==> (if y == i {
            !olds.contains(y)
        } else {
            olds.contains(y)
        })
}

/// Insert `x` into the strictly ascending index list, if not yet there.
fn selected_insert(v: &mut Vec<usize>, x: usize)
    requires
        strictly_sorted(old(v)@),
    ensures
        strictly_sorted(final(v)@),
        forall|y: usize| final(v)@.contains(y) <==> old(v)@.contains(y) || y == x,
{
    let n = v.len();
    let mut i: usize = 0;
    while i < n && v[i] < x
        invariant
            i <= n,
            n == v@.len(),
            forall|j: int| 0 <= j < i ==> v@[j] < x,
        decreases n - i,
    {
        i = i + 1;
    }
    if i < n && v[i] == x {
        proof {
            assert(v@.contains(x)) by {
                assert(v@[i as int] == x);
            }
            assert forall|y: usize| v@.contains(y) <==> v@.contains(y) || y == x by {
                if y == x {
                    assert(v@[i as int] == y);
                }
            }
        }
        return ;
    }
    let ghost ov = v@;
    v.insert(i, x);
    proof {
        ov.insert_ensures(i as int, x);
        let nv = v@;
        assert forall|a: int, b: int| 0 <= a < b < nv.len() implies nv[a] < nv[b] by {
            if b < i {
            } else if a < i && b == i {
                assert(nv[a] == ov[a]);
            } else if a < i && b > i {
                assert(nv[a] == ov[a] && nv[b] == ov[b - 1]);
                if a < b - 1 {
                } else {
                    assert(ov[a] < x);
                }
            } else if a == i {
                assert(nv[b] == ov[b - 1]);
                assert(b - 1 >= i);
                if i < ov.len() {
                    assert(!(ov[i as int] < x) && ov[i as int] != x);
                    if b - 1 > i {
                        assert(ov[i as int] < ov[b - 1]);
                    }
                }
            } else {
                assert(nv[a] == ov[a - 1] && nv[b] == ov[b - 1]);
            }
        }
        assert forall|y: usize| nv.contains(y) implies (ov.contains(y) || y == x) by {
            let k = choose|k: int| 0 <= k < nv.len() && nv[k] == y;
            if k < i {
                assert(ov[k] == y);
            } else if k > i {
                assert(ov[k - 1] == y);
            }
        }
        assert forall|y: usize| ov.contains(y) || y == x implies nv.contains(y) by {
            if y == x {
                assert(nv[i as int] == y);
            } else {
                let k = choose|k: int| 0 <= k < ov.len() && ov[k] == y;
                if k < i {
                    assert(nv[k] == y);
                } else {
                    assert(nv[k + 1] == y);
                }
            }
        }
    }
}

/// Remove `x` from the strictly ascending index list, if it is there.
fn selected_remove(v: &mut Vec<usize>, x: usize)
    requires
        strictly_sorted(old(v)@),
    ensures
        strictly_sorted(final(v)@),
        forall|y: usize| final(v)@.contains(y) <==> old(v)@.contains(y) && y != x,
{
    let n = v.len();
    let mut i: usize = 0;
    while i < n
        invariant
            i <= n,
            n == v@.len(),
            v@ == old(v)@,
            strictly_sorted(v@),
            forall|j: int| 0 <= j < i ==> v@[j] != x,
        decreases n - i,
    {
        if v[i] == x {
            let ghost ov = v@;
            v.remove(i);
            proof {
                ov.remove_ensures(i as int);
                let nv = v@;
                assert forall|a: int, b: int| 0 <= a < b < nv.len() implies nv[a] < nv[b] by {
                    if b < i {
                    } else if a < i {
                        assert(nv[a] == ov[a] && nv[b] == ov[b + 1]);
                    } else {
                        assert(nv[a] == ov[a + 1] && nv[b] == ov[b + 1]);
                    }
                }
                assert forall|y: usize| nv.contains(y) implies (ov.contains(y) && y != x) by {
                    let k = choose|k: int| 0 <= k < nv.len() && nv[k] == y;
                    if k < i {
                        assert(ov[k] == y);
                        assert(y != x);
                    } else {
                        assert(ov[k + 1] == y);
                        assert(ov[i as int] < ov[k + 1]);
                        assert(y != x);
                    }
                }
                assert forall|y: usize| ov.contains(y) && y != x implies nv.contains(y) by {
                    let k = choose|k: int| 0 <= k < ov.len() && ov[k] == y;
                    if k < i {
                        assert(nv[k] == y);
                    } else {
                        assert(k != i);
                        assert(nv[k - 1] == y);
                    }
                }
            }
            return ;
        }
        i = i + 1;
    }
    proof {
        assert forall|y: usize| v@.contains(y) implies (v@.contains(y) && y != x) by {
            let k = choose|k: int| 0 <= k < v@.len() && v@[k] == y;
            assert(v@[k] != x);
        }
    }
}

impl Session {
    /// Toggle the cursor group's membership in the multi-select set; with
    /// no cursor, do nothing.
    pub fn toggle_selected(&mut self)
        requires
            strictly_sorted(old(self).selected_groups@),
        ensures
            strictly_sorted(final(self).selected_groups@),
            match old(self).list_cursor {
                None => *final(self) == *old(self),
                Some(i) => {
                    &&& toggled_selection(
                        old(self).selected_groups@,
                        final(self).selected_groups@,
                        i,
                    )
                    &&& same_config(*old(self), *final(self))
                    &&& final(self).mode == old(self).mode
                    &&& final(self).groups == old(self).groups
                    &&& final(self).list_cursor == old(self).list_cursor
                    &&& final(self).pick_cursor == old(self).pick_cursor
                    &&& final(self).message == old(self).message
                    &&& final(self).planned_ops == old(self).planned_ops
                    &&& final(self).planned_targets == old(self).planned_targets
                },
            },
    {
        let i = match self.list_cursor {
            Some(i) => i,
            None => {
                return ;
            },
        };
        let mut found = false;
        let n = self.selected_groups.len();
        let mut k: usize = 0;
        while k < n
            invariant
                k <= n,
                n == self.selected_groups@.len(),
                found <==> exists|j: int|
                    0 <= j < k && #[trigger] self.selected_groups@[j] == i,
            decreases n - k,
        {
            if self.selected_groups[k] == i {
                found = true;
            }
            k = k + 1;
        }
        proof {
            if found {
                assert(self.selected_groups@.contains(i));
            } else {
                assert forall|j: int|
                    0 <= j < self.selected_groups@.len() implies #[trigger] self.selected_groups@[j]
                    != i by {}
                assert(!self.selected_groups@.contains(i));
            }
        }
        if found {
            selected_remove(&mut self.selected_groups, i);
        } else {
            selected_insert(&mut self.selected_groups, i);
        }
    }

    /// Replace one group's resolution decision.
    fn set_chosen(&mut self, gi: usize, c: Option<usize>)
        requires
            gi < old(self).groups@.len(),
        ensures
            final(self).groups@ == old(self).groups@.update(
                gi as int,
                with_chosen(old(self).groups@[gi as int], c),
            ),
            same_config(*old(self), *final(self)),
            final(self).mode == old(self).mode,
            final(self).list_cursor == old(self).list_cursor,
            final(self).pick_cursor == old(self).pick_cursor,
            final(self).selected_groups == old(self).selected_groups,
            final(self).message == old(self).message,
            final(self).planned_ops == old(self).planned_ops,
            final(self).planned_targets == old(self).planned_targets,
    {
        let ghost og = self.groups@;
        let mut g = self.groups.remove(gi);
        g.chosen = c;
        self.groups.insert(gi, g);
        proof {
            og.remove_ensures(gi as int);
            og.remove(gi as int).insert_ensures(gi as int, g);
            assert(self.groups@ =~= og.update(gi as int, with_chosen(og[gi as int], c)));
        }
    }

    /// Enter pick mode for the cursor group, defaulting the candidate
    /// cursor to the newest candidate, or to the original when no
    /// candidate has a modification time.
    pub fn enter_pick(&mut self) -> (r: Result<(), SessionError>)
        ensures
            match old(self).list_cursor {
                None => r == Err::<(), SessionError>(SessionError::NoSelection) && *final(self)
                    == *old(self),
                Some(gi) => if gi >= old(self).groups@.len() {
                    r == Err::<(), SessionError>(SessionError::BadIndex) && *final(self) == *old(self)
                } else {
                    &&& r is Ok
                    &&& final(self).mode == Mode::Pick
                    &&& (match final(self).pick_cursor {
                        Some(d) => if has_mtime(old(self).groups@[gi as int].candidates@) {
                            is_newest_at(old(self).groups@[gi as int].candidates@, d as int)
                        } else {
                            d == 0
                        },
                        None => false,
                    })
                    &&& same_config(*old(self), *final(self))
                    &&& final(self).groups == old(self).groups
                    &&& final(self).list_cursor == old(self).list_cursor
                    &&& final(self).selected_groups == old(self).selected_groups
                    &&& final(self).message == old(self).message
                    &&& final(self).planned_ops == old(self).planned_ops
                    &&& final(self).planned_targets == old(self).planned_targets
                },
            },
    {
        let gi = match self.list_cursor {
            Some(gi) => gi,
            None => {
                return Err(SessionError::NoSelection);
            },
        };
        if gi >= self.groups.len() {
            return Err(SessionError::BadIndex);
        }
        let default_idx = match self.groups[gi].newest_idx() {
            Some(d) => d,
            None => 0,
        };
        self.mode = Mode::Pick;
        self.pick_cursor = Some(default_idx);
        Ok(())
    }

    /// Commit the candidate under the pick cursor as the cursor group's
    /// resolution and return to the list.
    pub fn pick_current(&mut self) -> (r: Result<(), SessionError>)
        ensures
            match old(self).list_cursor {
                None => r == Err::<(), SessionError>(SessionError::NoSelection) && *final(self)
                    == *old(self),
                Some(gi) => match old(self).pick_cursor {
                    None => r == Err::<(), SessionError>(SessionError::NoCandidate) && *final(self)
                        == *old(self),
                    Some(ci) => if gi >= old(self).groups@.len() {
                        r == Err::<(), SessionError>(SessionError::BadIndex) && *final(self)
                            == *old(self)
                    } else {
                        &&& r is Ok
                        &&& final(self).groups@ == old(self).groups@.update(
                            gi as int,
                            with_chosen(old(self).groups@[gi as int], Some(ci)),
                        )
                        &&& final(self).mode == Mode::List
                        &&& final(self).message@ == "Picked"@
                        &&& same_config(*old(self), *final(self))
                        &&& final(self).list_cursor == old(self).list_cursor
                        &&& final(self).pick_cursor == old(self).pick_cursor
                        &&& final(self).selected_groups == old(self).selected_groups
                        &&& final(self).planned_ops == old(self).planned_ops
                        &&& final(self).planned_targets == old(self).planned_targets
                    },
                },
            },
    {
        let gi = match self.list_cursor {
            Some(gi) => gi,
            None => {
                return Err(SessionError::NoSelection);
            },
        };
        let ci = match self.pick_cursor {
            Some(ci) => ci,
            None => {
                return Err(SessionError::NoCandidate);
            },
        };
        if gi >= self.groups.len() {
            return Err(SessionError::BadIndex);
        }
        self.set_chosen(gi, Some(ci));
        self.mode = Mode::List;
        self.message = "Picked".to_owned();
        Ok(())
    }

    /// Commit the original (index `0`) as the cursor group's resolution
    /// and return to the list.
    pub fn pick_original(&mut self) -> (r: Result<(), SessionError>)
        ensures
            match old(self).list_cursor {
                None => r == Err::<(), SessionError>(SessionError::NoSelection) && *final(self)
                    == *old(self),
                Some(gi) => if gi >= old(self).groups@.len() {
                    r == Err::<(), SessionError>(SessionError::BadIndex) && *final(self) == *old(self)
                } else {
                    &&& r is Ok
                    &&& final(self).groups@ == old(self).groups@.update(
                        gi as int,
                        with_chosen(old(self).groups@[gi as int], Some(0usize)),
                    )
                    &&& final(self).mode == Mode::List
                    &&& final(self).message@ == "Picked original"@
                    &&& same_config(*old(self), *final(self))
                    &&& final(self).list_cursor == old(self).list_cursor
                    &&& final(self).pick_cursor == old(self).pick_cursor
                    &&& final(self).selected_groups == old(self).selected_groups
                    &&& final(self).planned_ops == old(self).planned_ops
                    &&& final(self).planned_targets == old(self).planned_targets
                },
            },
    {
        let gi = match self.list_cursor {
            Some(gi) => gi,
            None => {
                return Err(SessionError::NoSelection);
            },
        };
        if gi >= self.groups.len() {
            return Err(SessionError::BadIndex);
        }
        self.set_chosen(gi, Some(0));
        self.mode = Mode::List;
        self.message = "Picked original".to_owned();
        Ok(())
    }

    /// Commit the newest candidate as the cursor group's resolution and
    /// return to the list; when no candidate has a modification time,
    /// report so and stay in pick mode.
    pub fn pick_newest(&mut self) -> (r: Result<(), SessionError>)
        ensures
            match old(self).list_cursor {
                None => r == Err::<(), SessionError>(SessionError::NoSelection) && *final(self)
                    == *old(self),
                Some(gi) => if gi >= old(self).groups@.len() {
                    r == Err::<(), SessionError>(SessionError::BadIndex) && *final(self) == *old(self)
                } else if !has_mtime(old(self).groups@[gi as int].candidates@) {
                    &&& r is Ok
                    &&& final(self).message@ == "no mtime"@
                    &&& final(self).mode == old(self).mode
                    &&& final(self).groups == old(self).groups
                    &&& same_config(*old(self), *final(self))
                    &&& final(self).list_cursor == old(self).list_cursor
                    &&& final(self).pick_cursor == old(self).pick_cursor
                    &&& final(self).selected_groups == old(self).selected_groups
                    &&& final(self).planned_ops == old(self).planned_ops
                    &&& final(self).planned_targets == old(self).planned_targets
                } else {
                    &&& r is Ok
                    &&& (exists|idx: usize|
                        is_newest_at(old(self).groups@[gi as int].candidates@, idx as int)
                            && final(self).groups@ == old(self).groups@.update(
                            gi as int,
                            with_chosen(old(self).groups@[gi as int], Some(idx)),
                        ))
                    &&& final(self).mode == Mode::List
                    &&& final(self).message@ == "Picked newest"@
                    &&& same_config(*old(self), *final(self))
                    &&& final(self).list_cursor == old(self).list_cursor
                    &&& final(self).pick_cursor == old(self).pick_cursor
                    &&& final(self).selected_groups == old(self).selected_groups
                    &&& final(self).planned_ops == old(self).planned_ops
                    &&& final(self).planned_targets == old(self).planned_targets
                },
            },
    {
        let gi = match self.list_cursor {
            Some(gi) => gi,
            None => {
                return Err(SessionError::NoSelection);
            },
        };
        if gi >= self.groups.len() {
            return Err(SessionError::BadIndex);
        }
        match self.groups[gi].newest_idx() {
            None => {
                self.message = "no mtime".to_owned();
                Ok(())
            },
            Some(idx) => {
                self.set_chosen(gi, Some(idx));
                self.mode = Mode::List;
                self.message = "Picked newest".to_owned();
                Ok(())
            },
        }
    }

    /// Commit the oldest candidate as the cursor group's resolution and
    /// return to the list; when no candidate has a modification time,
    /// report so and stay in pick mode.
    pub fn pick_oldest(&mut self) -> (r: Result<(), SessionError>)
        ensures
            match old(self).list_cursor {
                None => r == Err::<(), SessionError>(SessionError::NoSelection) && *final(self)
                    == *old(self),
                Some(gi) => if gi >= old(self).groups@.len() {
                    r == Err::<(), SessionError>(SessionError::BadIndex) && *final(self) == *old(self)
                } else if !has_mtime(old(self).groups@[gi as int].candidates@) {
                    &&& r is Ok
                    &&& final(self).message@ == "no mtime"@
                    &&& final(self).mode == old(self).mode
                    &&& final(self).groups == old(self).groups
                    &&& same_config(*old(self), *final(self))
                    &&& final(self).list_cursor == old(self).list_cursor
                    &&& final(self).pick_cursor == old(self).pick_cursor
                    &&& final(self).selected_groups == old(self).selected_groups
                    &&& final(self).planned_ops == old(self).planned_ops
                    &&& final(self).planned_targets == old(self).planned_targets
                } else {
                    &&& r is Ok
                    &&& (exists|idx: usize|
                        is_oldest_at(old(self).groups@[gi as int].candidates@, idx as int)
                            && final(self).groups@ == old(self).groups@.update(
                            gi as int,
                            with_chosen(old(self).groups@[gi as int], Some(idx)),
                        ))
                    &&& final(self).mode == Mode::List
                    &&& final(self).message@ == "Picked oldest"@
                    &&& same_config(*old(self), *final(self))
                    &&& final(self).list_cursor == old(self).list_cursor
                    &&& final(self).pick_cursor == old(self).pick_cursor
                    &&& final(self).selected_groups == old(self).selected_groups
                    &&& final(self).planned_ops == old(self).planned_ops
                    &&& final(self).planned_targets == old(self).planned_targets
                },
            },
    {
        let gi = match self.list_cursor {
            Some(gi) => gi,
            None => {
                return Err(SessionError::NoSelection);
            },
        };
        if gi >= self.groups.len() {
            return Err(SessionError::BadIndex);
        }
        match self.groups[gi].oldest_idx() {
            None => {
                self.message = "no mtime".to_owned();
                Ok(())
            },
            Some(idx) => {
                self.set_chosen(gi, Some(idx));
                self.mode = Mode::List;
                self.message = "Picked oldest".to_owned();
                Ok(())
            },
        }
    }
}

/// Copy an index list.
fn copy_indices(v: &Vec<usize>) -> (r: Vec<usize>)
    ensures
        r@ == v@,
{
    let mut r: Vec<usize> = Vec::new();
    let n = v.len();
    let mut i: usize = 0;
    while i < n
        invariant
            i <= n,
            n == v@.len(),
            r@ == v@.take(i as int),
        decreases n - i,
    {
        r.push(v[i]);
        proof {
            assert(v@.take(i + 1) =~= v@.take(i as int).push(v@[i as int]));
        }
        i = i + 1;
    }
    proof {
        assert(v@.take(n as int) =~= v@);
    }
    r
}

/// The group indices a list-mode action works on: the whole multi-select
/// set, or just the cursor group.
pub open spec fn targets_of(s: Session, selected_only: bool) -> Seq<usize> {
    if selected_only {
        s.selected_groups@
    } else {
        match s.list_cursor {
            Some(i) => seq![i],
            None => Seq::empty(),
        }
    }
}

/// The group records an in-bounds resolution decision.
pub open spec fn chosen_valid(g: ConflictGroup) -> bool {
    match g.chosen {
        Some(ci) => (ci as int) < g.candidates@.len(),
        None => false,
    }
}

/// The target index denotes a group with a valid decision.
pub open spec fn target_ok(groups: Seq<ConflictGroup>, gi: usize) -> bool {
    gi < groups.len() && chosen_valid(groups[gi as int])
}

/// The effect of one quick pick on one group: only the decision changes,
/// set by the rule (falling back to the original when no candidate has a
/// modification time).
pub open spec fn quick_pick_applied(g_old: ConflictGroup, g_new: ConflictGroup, kind: PickKind) -> bool {
    &&& g_new.base_path == g_old.base_path
    &&& g_new.candidates == g_old.candidates
    &&& match kind {
        PickKind::Current => g_new.chosen == Some(0usize),
        PickKind::Newest => (match g_new.chosen {
            Some(i) => if has_mtime(g_old.candidates@) {
                is_newest_at(g_old.candidates@, i as int)
            } else {
                i == 0
            },
            None => false,
        }),
        PickKind::Oldest => (match g_new.chosen {
            Some(i) => if has_mtime(g_old.candidates@) {
                is_oldest_at(g_old.candidates@, i as int)
            } else {
                i == 0
            },
            None => false,
        }),
    }
}

/// The message a quick pick reports.
pub open spec fn quick_pick_message(kind: PickKind, selected_only: bool) -> Seq<char> {
    match (kind, selected_only) {
        (PickKind::Current, false) => "Picked current"@,
        (PickKind::Newest, false) => "Picked newest"@,
        (PickKind::Oldest, false) => "Picked oldest"@,
        (PickKind::Current, true) => "Picked current for selected"@,
        (PickKind::Newest, true) => "Picked newest for selected"@,
        (PickKind::Oldest, true) => "Picked oldest for selected"@,
    }
}

/// The three reviewable lines that describe one group's pending
/// resolution.
pub open spec fn plan_lines_for(root: Seq<char>, g: ConflictGroup, ci: int) -> Seq<Seq<char>> {
    seq![
        "Group: "@ + rel_path_spec(root, g.base_path@),
        "  keep -> "@ + rel_path_spec(root, g.candidates@[ci].path@),
        "  archive -> "@ + rel_path_spec(root, archive_dir_spec(g.base_path@)),
    ]
}

/// The reviewable plan for a list of target groups, in order.
pub open spec fn plan_lines(root: Seq<char>, groups: Seq<ConflictGroup>, targets: Seq<usize>) -> Seq<
    Seq<char>,
>
    decreases targets.len(),
{
    if targets.len() == 0 {
        Seq::empty()
    } else {
        plan_lines(root, groups, targets.drop_last()) + plan_lines_for(
            root,
            groups[targets.last() as int],
            groups[targets.last() as int].chosen->0 as int,
        )
    }
}

/// After a quick pick over targets `tg`: every in-bounds target group got
/// the rule applied, every other group is untouched.
pub open spec fn qp_groups_ok(
    g0: Seq<ConflictGroup>,
    gs: Seq<ConflictGroup>,
    tg: Seq<usize>,
    kind: PickKind,
) -> bool {
    &&& gs.len() == g0.len()
    &&& forall|x: usize|
        x < g0.len() ==> (if tg.contains(x) {
            quick_pick_applied(g0[x as int], #[trigger] gs[x as int], kind)
        } else {
            gs[x as int] == g0[x as int]
        })
}

/// After a quick pick over targets `tg`: the multi-select set grew by
/// exactly the in-bounds targets.
pub open spec fn qp_selection_ok(sel0: Seq<usize>, sel: Seq<usize>, tg: Seq<usize>, glen: nat) -> bool {
    forall|y: usize| sel.contains(y) <==> sel0.contains(y) || (tg.contains(y) && y < glen)
}

impl Session {
    /// Apply one quick-pick rule to the single group `gi`, when it is in
    /// bounds, and add it to the multi-select set.
    fn quick_pick_one(&mut self, gi: usize, kind: PickKind)
        requires
            strictly_sorted(old(self).selected_groups@),
        ensures
            strictly_sorted(final(self).selected_groups@),
            same_config(*old(self), *final(self)),
            final(self).mode == old(self).mode,
            final(self).list_cursor == old(self).list_cursor,
            final(self).pick_cursor == old(self).pick_cursor,
            final(self).message == old(self).message,
            final(self).planned_ops == old(self).planned_ops,
            final(self).planned_targets == old(self).planned_targets,
            final(self).groups@.len() == old(self).groups@.len(),
            gi < old(self).groups@.len() ==> {
                &&& quick_pick_applied(
                    old(self).groups@[gi as int],
                    final(self).groups@[gi as int],
                    kind,
                )
                &&& (forall|x: int|
                    0 <= x < old(self).groups@.len() && x != gi ==> final(self).groups@[x] == old(self).groups@[x])
                &&& (forall|y: usize|
                    final(self).selected_groups@.contains(y) <==> old(self).selected_groups@.contains(y) || y == gi)
            },
            gi >= old(self).groups@.len() ==> final(self).groups == old(self).groups && final(self).selected_groups == old(self).selected_groups,
    {
        if gi >= self.groups.len() {
            return ;
        }
        let idx: Option<usize> = match kind {
            PickKind::Current => Some(0),
            PickKind::Newest => match self.groups[gi].newest_idx() {
                Some(d) => Some(d),
                None => Some(0),
            },
            PickKind::Oldest => match self.groups[gi].oldest_idx() {
                Some(d) => Some(d),
                None => Some(0),
            },
        };
        self.set_chosen(gi, idx);
        selected_insert(&mut self.selected_groups, gi);
    }

    /// Apply a quick-pick rule to the cursor group or to every selected
    /// group, and add each affected group to the multi-select set.
    pub fn pick_kind_for_targets(&mut self, kind: PickKind, selected_only: bool) -> (r: Result<
        (),
        SessionError,
    >)
        requires
            strictly_sorted(old(self).selected_groups@),
        ensures
            r is Ok,
            strictly_sorted(final(self).selected_groups@),
            same_config(*old(self), *final(self)),
            final(self).mode == old(self).mode,
            final(self).list_cursor == old(self).list_cursor,
            final(self).pick_cursor == old(self).pick_cursor,
            final(self).planned_ops == old(self).planned_ops,
            final(self).planned_targets == old(self).planned_targets,
            ({
                let tgts = targets_of(*old(self), selected_only);
                if tgts.len() == 0 {
                    &&& final(self).message@ == "No groups selected"@
                    &&& final(self).groups == old(self).groups
                    &&& final(self).selected_groups == old(self).selected_groups
                } else {
                    &&& final(self).message@ == quick_pick_message(kind, selected_only)
                    &&& qp_groups_ok(old(self).groups@, final(self).groups@, tgts, kind)
                    &&& qp_selection_ok(
                        old(self).selected_groups@,
                        final(self).selected_groups@,
                        tgts,
                        old(self).groups@.len(),
                    )
                }
            }),
    {
        let targets: Vec<usize> = if selected_only {
            copy_indices(&self.selected_groups)
        } else {
            match self.list_cursor {
                Some(i) => {
                    let mut v: Vec<usize> = Vec::new();
                    v.push(i);
                    proof {
                        assert(v@ =~= seq![i]);
                    }
                    v
                },
                None => Vec::new(),
            }
        };
        let ghost tgts = targets@;
        proof {
            assert(tgts == targets_of(*self, selected_only));
        }
        if targets.len() == 0 {
            self.message = "No groups selected".to_owned();
            return Ok(());
        }
        let ghost g0 = self.groups@;
        let ghost sel0 = self.selected_groups@;
        let n = targets.len();
        let mut t: usize = 0;
        while t < n
            invariant
                t <= n,
                n == tgts.len(),
                tgts == targets@,
                strictly_sorted(self.selected_groups@),
                same_config(*self, *old(self)),
                self.mode == old(self).mode,
                self.list_cursor == old(self).list_cursor,
                self.pick_cursor == old(self).pick_cursor,
                self.message == old(self).message,
                self.planned_ops == old(self).planned_ops,
                self.planned_targets == old(self).planned_targets,
                g0 == old(self).groups@,
                sel0 == old(self).selected_groups@,
                qp_groups_ok(g0, self.groups@, tgts.take(t as int), kind),
                qp_selection_ok(sel0, self.selected_groups@, tgts.take(t as int), g0.len()),
            decreases n - t,
        {
            let gi = targets[t];
            let ghost pre = *self;
            proof {
                assert(qp_groups_ok(g0, pre.groups@, tgts.take(t as int), kind));
                assert(qp_selection_ok(sel0, pre.selected_groups@, tgts.take(t as int), g0.len()));
            }
            self.quick_pick_one(gi, kind);
            proof {
                assert(tgts.take(t + 1) =~= tgts.take(t as int).push(tgts[t as int]));
                assert(tgts.take(t + 1)[t as int] == gi);
                assert(tgts.take(t + 1).contains(gi));
                assert(self.groups@.len() == g0.len());
                assert forall|x: usize| x < g0.len() implies (if tgts.take(t + 1).contains(
                    x,
                ) {
                    quick_pick_applied(g0[x as int], #[trigger] self.groups@[x as int], kind)
                } else {
                    self.groups@[x as int] == g0[x as int]
                }) by {
                    if tgts.take(t + 1).contains(x) {
                        if x == gi {
                            if tgts.take(t as int).contains(gi) {
                                assert(quick_pick_applied(g0[x as int], pre.groups@[x as int], kind));
                                assert(pre.groups@[x as int].candidates == g0[x as int].candidates);
                            } else {
                                assert(pre.groups@[x as int] == g0[x as int]);
                            }
                            assert(quick_pick_applied(pre.groups@[x as int], self.groups@[x as int], kind));
                        } else {
                            assert(self.groups@[x as int] == pre.groups@[x as int]);
                            assert(tgts.take(t as int).contains(x)) by {
                                let k = choose|k: int|
                                    #![trigger tgts.take(t + 1)[k]]
                                    0 <= k < tgts.take(t + 1).len() && tgts.take(t + 1)[k] == x;
                                assert(k != t);
                                assert(tgts.take(t as int)[k] == x);
                            }
                        }
                    } else {
                        assert(!tgts.take(t as int).contains(x)) by {
                            if tgts.take(t as int).contains(x) {
                                let k = choose|k: int|
                                    #![trigger tgts.take(t as int)[k]]
                                    0 <= k < tgts.take(t as int).len() && tgts.take(t as int)[k]
                                        == x;
                                assert(tgts.take(t + 1)[k] == x);
                            }
                        }
                        assert(x != gi);
                        assert(self.groups@[x as int] == pre.groups@[x as int]);
                    }
                }
                assert forall|y: usize|
                    self.selected_groups@.contains(y) <==> sel0.contains(y) || (tgts.take(
                        t + 1,
                    ).contains(y) && y < g0.len()) by {
                    if tgts.take(t as int).contains(y) {
                        let k = choose|k: int|
                            #![trigger tgts.take(t as int)[k]]
                            0 <= k < tgts.take(t as int).len() && tgts.take(t as int)[k] == y;
                        assert(tgts.take(t + 1)[k] == y);
                        assert(tgts.take(t + 1).contains(y));
                    }
                    if tgts.take(t + 1).contains(y) && y != gi {
                        let k = choose|k: int|
                            #![trigger tgts.take(t + 1)[k]]
                            0 <= k < tgts.take(t + 1).len() && tgts.take(t + 1)[k] == y;
                        assert(k != t);
                        assert(tgts.take(t as int)[k] == y);
                        assert(tgts.take(t as int).contains(y));
                    }
                    assert(pre.selected_groups@.contains(y) <==> sel0.contains(y) || (tgts.take(
                        t as int,
                    ).contains(y) && y < g0.len()));
                    if gi < self.groups.len() {
                        assert(self.selected_groups@.contains(y) <==> pre.selected_groups@.contains(
                            y,
                        ) || y == gi);
                    } else {
                        assert(self.selected_groups == pre.selected_groups);
                    }
                }
                assert(qp_groups_ok(g0, self.groups@, tgts.take(t + 1), kind));
                assert(qp_selection_ok(sel0, self.selected_groups@, tgts.take(t + 1), g0.len()));
            }
            t = t + 1;
        }
        proof {
            assert(tgts.take(n as int) =~= tgts);
            assert(qp_groups_ok(g0, self.groups@, tgts, kind));
            assert(qp_selection_ok(sel0, self.selected_groups@, tgts, g0.len()));
        }
        self.message = match (kind, selected_only) {
            (PickKind::Current, false) => "Picked current".to_owned(),
            (PickKind::Newest, false) => "Picked newest".to_owned(),
            (PickKind::Oldest, false) => "Picked oldest".to_owned(),
            (PickKind::Current, true) => "Picked current for selected".to_owned(),
            (PickKind::Newest, true) => "Picked newest for selected".to_owned(),
            (PickKind::Oldest, true) => "Picked oldest for selected".to_owned(),
        };
        Ok(())
    }
}

/// Every target denotes a group with a valid decision.
pub open spec fn targets_ok(groups: Seq<ConflictGroup>, tg: Seq<usize>) -> bool {
    forall|k: int| 0 <= k < tg.len() ==> target_ok(groups, #[trigger] tg[k])
}

/// Every target group's base path has a parent directory.
pub open spec fn bases_ok(groups: Seq<ConflictGroup>, tg: Seq<usize>) -> bool {
    forall|k: int|
        0 <= k < tg.len() ==> has_parent(groups[#[trigger] tg[k] as int].base_path@)
}

/// What the operator asked the apply step to do.
pub enum ApplyOutcome {
    /// Nothing was planned; the session fell back to the list.
    Noop,
    /// Dry-run: nothing to execute, the confirmation stays open.
    DryRun,
    /// Apply mode: execute these group indices, then report back.
    Execute(Vec<usize>),
}

/// What the application reports after working one group.
pub struct GroupApplyResult {
    pub index: usize,
    pub error: Option<String>,
}

/// How one planned group turned out when its plan was computed.
pub enum GroupPlanResult {
    /// The group has no (valid) decision recorded; it is passed over.
    Skip,
    /// The operations to run for this group.
    Ready(GroupPlan),
    /// The group cannot be planned; the text says why.
    Failed(String),
}

/// The error report lines for the failed groups, in result order.
pub open spec fn error_lines(
    root: Seq<char>,
    groups: Seq<ConflictGroup>,
    rs: Seq<GroupApplyResult>,
) -> Seq<Seq<char>>
    decreases rs.len(),
{
    if rs.len() == 0 {
        Seq::empty()
    } else {
        error_lines(root, groups, rs.drop_last()) + (match rs.last().error {
            Some(e) => seq![
                rel_path_spec(root, groups[rs.last().index as int].base_path@) + ": "@ + e@,
            ],
            None => Seq::empty(),
        })
    }
}

impl Session {
    /// Clear any pending plan and report `msg`.
    fn clear_plan_with_message(&mut self, msg: String)
        ensures
            final(self).planned_ops@ == Seq::<String>::empty(),
            final(self).planned_targets@ == Seq::<usize>::empty(),
            final(self).message == msg,
            same_config(*old(self), *final(self)),
            final(self).mode == old(self).mode,
            final(self).groups == old(self).groups,
            final(self).list_cursor == old(self).list_cursor,
            final(self).pick_cursor == old(self).pick_cursor,
            final(self).selected_groups == old(self).selected_groups,
    {
        self.planned_ops = Vec::new();
        self.planned_targets = Vec::new();
        self.message = msg;
    }

    /// Materialize the reviewable plan for the cursor group or for every
    /// selected group.  Planning aborts entirely — clearing any previous
    /// plan and reporting why — when a target group has no valid decision
    /// or its base path has no parent; on success the session moves to the
    /// confirmation.
    pub fn plan_and_confirm(&mut self, all_selected: bool) -> (r: Result<(), SessionError>)
        requires
            strictly_sorted(old(self).selected_groups@),
        ensures
            r is Ok,
            same_config(*old(self), *final(self)),
            final(self).groups == old(self).groups,
            final(self).list_cursor == old(self).list_cursor,
            final(self).pick_cursor == old(self).pick_cursor,
            final(self).selected_groups == old(self).selected_groups,
            ({
                let tgts = targets_of(*old(self), all_selected);
                if tgts.len() == 0 {
                    &&& final(self).message@ == "No groups selected"@
                    &&& final(self).mode == old(self).mode
                    &&& final(self).planned_ops == old(self).planned_ops
                    &&& final(self).planned_targets == old(self).planned_targets
                } else if !targets_ok(old(self).groups@, tgts) {
                    &&& final(self).message@ == "Pick a version first (Enter)"@
                    &&& final(self).mode == old(self).mode
                    &&& final(self).planned_ops@ == Seq::<String>::empty()
                    &&& final(self).planned_targets@ == Seq::<usize>::empty()
                } else if !bases_ok(old(self).groups@, tgts) {
                    &&& final(self).message@ == "no parent"@
                    &&& final(self).mode == old(self).mode
                    &&& final(self).planned_ops@ == Seq::<String>::empty()
                    &&& final(self).planned_targets@ == Seq::<usize>::empty()
                } else {
                    &&& final(self).mode == Mode::Confirm
                    &&& final(self).message == old(self).message
                    &&& seq_views(final(self).planned_ops@) == plan_lines(
                        old(self).root@,
                        old(self).groups@,
                        tgts,
                    )
                    &&& final(self).planned_targets@ == tgts
                }
            }),
    {
        let targets: Vec<usize> = if all_selected {
            copy_indices(&self.selected_groups)
        } else {
            match self.list_cursor {
                Some(i) => {
                    let mut v: Vec<usize> = Vec::new();
                    v.push(i);
                    proof {
                        assert(v@ =~= seq![i]);
                    }
                    v
                },
                None => Vec::new(),
            }
        };
        let ghost tgts = targets@;
        proof {
            assert(tgts == targets_of(*self, all_selected));
        }
        if targets.len() == 0 {
            self.message = "No groups selected".to_owned();
            return Ok(());
        }
        // validate that every target group has a valid decision
        let n = targets.len();
        let mut t: usize = 0;
        while t < n
            invariant
                t <= n,
                n == tgts.len(),
                tgts == targets@,
                0 < n,
                tgts == targets_of(*old(self), all_selected),
                self == old(self),
                targets_ok(self.groups@, tgts.take(t as int)),
            decreases n - t,
        {
            let gi = targets[t];
            let mut ok = false;
            if gi < self.groups.len() {
                match self.groups[gi].chosen {
                    Some(ci) => {
                        if ci < self.groups[gi].candidates.len() {
                            ok = true;
                        }
                    },
                    None => {},
                }
            }
            if !ok {
                proof {
                    assert(!target_ok(self.groups@, tgts[t as int]));
                    assert(!targets_ok(self.groups@, tgts));
                }
                self.clear_plan_with_message("Pick a version first (Enter)".to_owned());
                return Ok(());
            }
            proof {
                assert(tgts.take(t + 1) =~= tgts.take(t as int).push(tgts[t as int]));
                assert(target_ok(self.groups@, tgts[t as int]));
                assert forall|k: int| 0 <= k < t + 1 implies target_ok(
                    self.groups@,
                    #[trigger] tgts.take(t + 1)[k],
                ) by {
                    if k < t {
                        assert(tgts.take(t + 1)[k] == tgts.take(t as int)[k]);
                    }
                }
            }
            t = t + 1;
        }
        proof {
            assert(tgts.take(n as int) =~= tgts);
        }
        // build the reviewable lines, aborting on a base without a parent
        let mut ops: Vec<String> = Vec::new();
        let mut t: usize = 0;
        while t < n
            invariant
                t <= n,
                n == tgts.len(),
                tgts == targets@,
                0 < n,
                tgts == targets_of(*old(self), all_selected),
                self == old(self),
                targets_ok(self.groups@, tgts),
                seq_views(ops@) == plan_lines(self.root@, self.groups@, tgts.take(t as int)),
                bases_ok(self.groups@, tgts.take(t as int)),
            decreases n - t,
        {
            let gi = targets[t];
            proof {
                assert(target_ok(self.groups@, tgts[t as int]));
            }
            let ci = match self.groups[gi].chosen {
                Some(ci) => ci,
                None => {
                    proof {
                        assert(false);
                    }
                    0
                },
            };
            let arch = match archive_dir_for(self.groups[gi].base_path.as_str()) {
                Ok(a) => a,
                Err(_) => {
                    proof {
                        assert(!has_parent(self.groups@[gi as int].base_path@));
                        assert(!bases_ok(self.groups@, tgts));
                    }
                    self.clear_plan_with_message("no parent".to_owned());
                    return Ok(());
                },
            };
            let l1 = str_concat(
                "Group: ",
                rel_path(self.root.as_str(), self.groups[gi].base_path.as_str()),
            );
            let l2 = str_concat(
                "  keep -> ",
                rel_path(self.root.as_str(), self.groups[gi].candidates[ci].path.as_str()),
            );
            let l3 = str_concat("  archive -> ", rel_path(self.root.as_str(), arch.as_str()));
            ops.push(l1);
            ops.push(l2);
            ops.push(l3);
            proof {
                assert(tgts.take(t + 1).drop_last() =~= tgts.take(t as int));
                assert(tgts.take(t + 1).last() == tgts[t as int]);
                assert(seq_views(ops@) =~= plan_lines(self.root@, self.groups@, tgts.take(t + 1)));
                assert forall|k: int| 0 <= k < t + 1 implies has_parent(
                    self.groups@[#[trigger] tgts.take(t + 1)[k] as int].base_path@,
                ) by {
                    if k < t {
                        assert(tgts.take(t + 1)[k] == tgts.take(t as int)[k]);
                        assert(has_parent(
                            self.groups@[tgts.take(t as int)[k] as int].base_path@,
                        ));
                    }
                }
                assert(bases_ok(self.groups@, tgts.take(t + 1)));
            }
            t = t + 1;
        }
        proof {
            assert(tgts.take(n as int) =~= tgts);
        }
        self.planned_ops = ops;
        self.planned_targets = targets;
        self.mode = Mode::Confirm;
        Ok(())
    }

    /// Run the confirmed plan: nothing when nothing is planned, nothing in
    /// dry-run mode (the confirmation stays open for a toggled rerun), and
    /// in apply mode the planned group indices are handed out for
    /// execution.
    pub fn apply_plan(&mut self) -> (r: ApplyOutcome)
        ensures
            same_config(*old(self), *final(self)),
            final(self).groups == old(self).groups,
            final(self).list_cursor == old(self).list_cursor,
            final(self).pick_cursor == old(self).pick_cursor,
            final(self).selected_groups == old(self).selected_groups,
            if old(self).planned_targets@.len() == 0 {
                &&& r is Noop
                &&& final(self).message@ == "Nothing planned"@
                &&& final(self).mode == Mode::List
                &&& final(self).planned_ops@ == Seq::<String>::empty()
                &&& final(self).planned_targets == old(self).planned_targets
            } else if !old(self).apply {
                &&& r is DryRun
                &&& final(self).message@
                    == "Dry-run complete. Toggle apply with 't', then press 'y' to apply."@
                &&& final(self).mode == Mode::Confirm
                &&& final(self).planned_ops == old(self).planned_ops
                &&& final(self).planned_targets == old(self).planned_targets
            } else {
                &&& (match r {
                    ApplyOutcome::Execute(v) => v@ == old(self).planned_targets@,
                    _ => false,
                })
                &&& *final(self) == *old(self)
            },
    {
        if self.planned_targets.len() == 0 {
            self.planned_ops = Vec::new();
            self.message = "Nothing planned".to_owned();
            self.mode = Mode::List;
            return ApplyOutcome::Noop;
        }
        if !self.apply {
            self.message =
                "Dry-run complete. Toggle apply with 't', then press 'y' to apply.".to_owned();
            self.mode = Mode::Confirm;
            return ApplyOutcome::DryRun;
        }
        ApplyOutcome::Execute(copy_indices(&self.planned_targets))
    }

    /// Compute the on-disk operations for one planned group, stamping the
    /// archive names with the wall clock.
    pub fn make_group_plan(&self, gi: usize) -> (r: GroupPlanResult)
        ensures
            match r {
                GroupPlanResult::Skip => gi >= self.groups@.len() || self.groups@[gi as int].chosen
                    is None,
                GroupPlanResult::Ready(plan) => {
                    &&& gi < self.groups@.len()
                    &&& chosen_valid(self.groups@[gi as int])
                    &&& has_parent(self.groups@[gi as int].base_path@)
                    &&& !some_bad_name(
                        self.groups@[gi as int].candidates@,
                        self.groups@[gi as int].candidates@[self.groups@[gi as int].chosen->0 as int].path@,
                    )
                    &&& plan.archive_dir@ == archive_dir_spec(self.groups@[gi as int].base_path@)
                    &&& (exists|m: nat|
                        moves_view(plan.moves@) == group_moves_spec(
                            self.groups@[gi as int].candidates@,
                            self.groups@[gi as int].candidates@[self.groups@[gi as int].chosen->0 as int].path@,
                            self.groups@[gi as int].base_path@,
                            archive_dir_spec(self.groups@[gi as int].base_path@),
                            m,
                        ))
                },
                GroupPlanResult::Failed(e) => {
                    &&& gi < self.groups@.len()
                    &&& self.groups@[gi as int].chosen is Some
                    &&& {
                        ||| (e@ == "bad index"@ && !chosen_valid(self.groups@[gi as int]))
                        ||| (e@ == "no parent"@ && chosen_valid(self.groups@[gi as int])
                            && !has_parent(self.groups@[gi as int].base_path@))
                        ||| (e@ == "bad name"@ && chosen_valid(self.groups@[gi as int])
                            && has_parent(self.groups@[gi as int].base_path@) && some_bad_name(
                            self.groups@[gi as int].candidates@,
                            self.groups@[gi as int].candidates@[self.groups@[gi as int].chosen->0 as int].path@,
                        ))
                    }
                },
            },
    {
        if gi >= self.groups.len() {
            return GroupPlanResult::Skip;
        }
        let ci = match self.groups[gi].chosen {
            Some(ci) => ci,
            None => {
                return GroupPlanResult::Skip;
            },
        };
        if ci >= self.groups[gi].candidates.len() {
            return GroupPlanResult::Failed("bad index".to_owned());
        }
        let millis = unique_suffix_millis();
        match plan_group_moves(&self.groups[gi], ci, millis) {
            Ok(plan) => {
                proof {
                    let g = self.groups@[gi as int];
                    assert(moves_view(plan.moves@) == group_moves_spec(
                        g.candidates@,
                        g.candidates@[g.chosen->0 as int].path@,
                        g.base_path@,
                        archive_dir_spec(g.base_path@),
                        millis as nat,
                    ));
                }
                GroupPlanResult::Ready(plan)
            },
            Err(PlanError::NoParent) => GroupPlanResult::Failed("no parent".to_owned()),
            Err(PlanError::BadName) => GroupPlanResult::Failed("bad name".to_owned()),
        }
    }

    /// Take in the per-group outcomes of an executed plan.  With no
    /// failures in apply mode the plan is cleared and a rescan is asked
    /// for; failures are reported, listed in the log lines, and leave the
    /// other groups' results standing.
    pub fn finish_apply(&mut self, results: &Vec<GroupApplyResult>) -> (rescan: bool)
        requires
            forall|k: int|
                0 <= k < results@.len() ==> (#[trigger] results@[k]).index < old(self).groups@.len(),
        ensures
            same_config(*old(self), *final(self)),
            final(self).groups == old(self).groups,
            final(self).list_cursor == old(self).list_cursor,
            final(self).pick_cursor == old(self).pick_cursor,
            final(self).selected_groups == old(self).selected_groups,
            ({
                let errs = error_lines(old(self).root@, old(self).groups@, results@);
                if errs.len() == 0 && old(self).apply {
                    &&& rescan == true
                    &&& final(self).planned_ops@ == Seq::<String>::empty()
                    &&& final(self).planned_targets@ == Seq::<usize>::empty()
                    &&& final(self).mode == Mode::List
                    &&& final(self).message@ == "Applied"@
                } else if errs.len() == 0 {
                    &&& rescan == false
                    &&& final(self).planned_ops == old(self).planned_ops
                    &&& final(self).planned_targets == old(self).planned_targets
                    &&& final(self).mode == Mode::Confirm
                    &&& final(self).message@
                        == "Dry-run complete. Toggle apply with 't', then press 'y' to apply."@
                } else {
                    &&& rescan == false
                    &&& seq_views(final(self).planned_ops@) == errs
                    &&& final(self).planned_targets@ == Seq::<usize>::empty()
                    &&& final(self).mode == Mode::Confirm
                    &&& final(self).message@ == "Some groups failed ("@ + dec_spec(errs.len())
                        + "). See details in the log panel."@
                }
            }),
    {
        let ghost rs = results@;
        let mut errs: Vec<String> = Vec::new();
        let n = results.len();
        let mut k: usize = 0;
        while k < n
            invariant
                k <= n,
                n == rs.len(),
                rs == results@,
                self == old(self),
                forall|j: int|
                    0 <= j < rs.len() ==> (#[trigger] rs[j]).index < self.groups@.len(),
                seq_views(errs@) == error_lines(self.root@, self.groups@, rs.take(k as int)),
            decreases n - k,
        {
            proof {
                assert(rs.take(k + 1).drop_last() =~= rs.take(k as int));
                assert(rs.take(k + 1).last() == rs[k as int]);
            }
            let res = &results[k];
            match &res.error {
                Some(e) => {
                    let mut line = str_concat(
                        rel_path(self.root.as_str(), self.groups[res.index].base_path.as_str()),
                        ": ",
                    );
                    line.append(e.as_str());
                    errs.push(line);
                    proof {
                        assert(seq_views(errs@) =~= error_lines(
                            self.root@,
                            self.groups@,
                            rs.take(k + 1),
                        ));
                    }
                },
                None => {
                    proof {
                        assert(seq_views(errs@) =~= error_lines(
                            self.root@,
                            self.groups@,
                            rs.take(k + 1),
                        ));
                    }
                },
            }
            k = k + 1;
        }
        proof {
            assert(rs.take(n as int) =~= rs);
        }
        if errs.len() == 0 {
            if self.apply {
                self.planned_ops = Vec::new();
                self.planned_targets = Vec::new();
                self.mode = Mode::List;
                self.message = "Applied".to_owned();
                return true;
            }
            self.mode = Mode::Confirm;
            self.message =
                "Dry-run complete. Toggle apply with 't', then press 'y' to apply.".to_owned();
            return false;
        }
        let count = errs.len();
        let ghost ne = seq_views(errs@).len();
        self.planned_ops = errs;
        self.planned_targets = Vec::new();
        self.mode = Mode::Confirm;
        let mut msg = str_concat("Some groups failed (", u128_to_dec(count as u128).as_str());
        msg.append("). See details in the log panel.");
        self.message = msg;
        false
    }

    /// Replace the in-memory groups with a fresh scan's result, clearing
    /// the selection and resetting the cursors.
    pub fn install_groups(&mut self, groups: Vec<ConflictGroup>)
        ensures
            final(self).groups == groups,
            final(self).selected_groups@ == Seq::<usize>::empty(),
            final(self).list_cursor == (if groups@.len() > 0 {
                Some(0usize)
            } else {
                None::<usize>
            }),
            final(self).pick_cursor is None,
            same_config(*old(self), *final(self)),
            final(self).mode == old(self).mode,
            final(self).message == old(self).message,
            final(self).planned_ops == old(self).planned_ops,
            final(self).planned_targets == old(self).planned_targets,
    {
        let has = groups.len() > 0;
        self.groups = groups;
        self.selected_groups = Vec::new();
        self.list_cursor = if has {
            Some(0)
        } else {
            None
        };
        self.pick_cursor = None;
    }
}

/// One abstract operator input, already stripped of key-binding detail.
#[derive(Clone, Copy, Debug, PartialEq, Eq, Structural)]
pub enum Event {
    /// The global interrupt: end the session at once.
    Interrupt,
    /// Flip the apply/dry-run flag.
    ToggleApply,
    /// Leave the session normally (list mode only).
    Quit,
    /// Step back: leave pick mode, or discard the confirmation.
    Back,
    /// Move the active cursor down.
    Down,
    /// Move the active cursor up.
    Up,
    /// Toggle the cursor group's membership in the multi-select set.
    ToggleSelect,
    /// Quick-pick a rule for the cursor group or the selected groups.
    QuickPick(PickKind, bool),
    /// Enter pick mode for the cursor group.
    EnterPick,
    /// Commit the candidate under the pick cursor.
    PickCurrent,
    /// Commit the original candidate.
    PickOriginal,
    /// Commit the newest candidate.
    PickNewest,
    /// Commit the oldest candidate.
    PickOldest,
    /// Materialize a plan for the cursor group or the selected groups.
    Plan(bool),
    /// Run the confirmed plan.
    ConfirmYes,
    /// Decline the confirmation and return to the list.
    Decline,
}

/// What the application must do after a transition: keep going, end the
/// session, or execute the planned groups and report back.
pub enum Action {
    Continue,
    Exit,
    Execute(Vec<usize>),
}

impl Session {
    /// The total transition function of the session: map the current mode
    /// and one input event to the next state and the action the
    /// application must take.  Unlisted mode/event combinations do
    /// nothing.
    pub fn handle_event(&mut self, ev: Event) -> (r: Result<Action, SessionError>)
        requires
            strictly_sorted(old(self).selected_groups@),
        ensures
            strictly_sorted(final(self).selected_groups@),
            match ev {
                Event::Interrupt => r == Ok::<Action, SessionError>(Action::Exit) && *final(self)
                    == *old(self),
                Event::ToggleApply => if old(self).mode != Mode::Done {
                    &&& r == Ok::<Action, SessionError>(Action::Continue)
                    &&& final(self).apply == !old(self).apply
                    &&& final(self).message@ == (if final(self).apply {
                        "Mode: APPLY (will move files)"@
                    } else {
                        "Mode: DRY-RUN (no filesystem changes)"@
                    })
                    &&& final(self).root == old(self).root
                    &&& final(self).include_hidden == old(self).include_hidden
                    &&& final(self).mode == old(self).mode
                    &&& final(self).groups == old(self).groups
                    &&& final(self).list_cursor == old(self).list_cursor
                    &&& final(self).pick_cursor == old(self).pick_cursor
                    &&& final(self).selected_groups == old(self).selected_groups
                    &&& final(self).planned_ops == old(self).planned_ops
                    &&& final(self).planned_targets == old(self).planned_targets
                } else {
                    r == Ok::<Action, SessionError>(Action::Continue) && *final(self) == *old(self)
                },
                Event::Quit => if old(self).mode == Mode::List {
                    r == Ok::<Action, SessionError>(Action::Exit) && *final(self) == *old(self)
                } else {
                    r == Ok::<Action, SessionError>(Action::Continue) && *final(self) == *old(self)
                },
                Event::Back => {
                    &&& r == Ok::<Action, SessionError>(Action::Continue)
                    &&& (match old(self).mode {
                        Mode::Pick => {
                            &&& final(self).mode == Mode::List
                            &&& final(self).pick_cursor is None
                            &&& same_config(*old(self), *final(self))
                            &&& final(self).groups == old(self).groups
                            &&& final(self).list_cursor == old(self).list_cursor
                            &&& final(self).selected_groups == old(self).selected_groups
                            &&& final(self).message == old(self).message
                            &&& final(self).planned_ops == old(self).planned_ops
                            &&& final(self).planned_targets == old(self).planned_targets
                        },
                        Mode::Confirm => {
                            &&& final(self).mode == Mode::List
                            &&& final(self).planned_ops@ == Seq::<String>::empty()
                            &&& final(self).planned_targets@ == Seq::<usize>::empty()
                            &&& final(self).message@ == Seq::<char>::empty()
                            &&& same_config(*old(self), *final(self))
                            &&& final(self).groups == old(self).groups
                            &&& final(self).list_cursor == old(self).list_cursor
                            &&& final(self).pick_cursor == old(self).pick_cursor
                            &&& final(self).selected_groups == old(self).selected_groups
                        },
                        _ => *final(self) == *old(self),
                    })
                },
                Event::Down => {
                    &&& r == Ok::<Action, SessionError>(Action::Continue)
                    &&& (match old(self).mode {
                        Mode::List => {
                            &&& (old(self).groups@.len() == 0 ==> final(self).list_cursor
                                is None)
                            &&& (old(self).groups@.len() > 0 ==> final(self).list_cursor == Some(
                                match old(self).list_cursor {
                                    None => 0usize,
                                    Some(i) => if i + 1 < old(self).groups@.len() {
                                        (i + 1) as usize
                                    } else {
                                        (old(self).groups@.len() - 1) as usize
                                    },
                                },
                            ))
                            &&& final(self).pick_cursor == old(self).pick_cursor
                            &&& unchanged_but_cursors(*old(self), *final(self))
                        },
                        Mode::Pick => {
                            &&& final(self).list_cursor == old(self).list_cursor
                            &&& unchanged_but_cursors(*old(self), *final(self))
                        },
                        _ => *final(self) == *old(self),
                    })
                },
                Event::Up => {
                    &&& r == Ok::<Action, SessionError>(Action::Continue)
                    &&& (match old(self).mode {
                        Mode::List => {
                            &&& (old(self).groups@.len() == 0 ==> final(self).list_cursor
                                is None)
                            &&& (old(self).groups@.len() > 0 ==> final(self).list_cursor == Some(
                                match old(self).list_cursor {
                                    None => 0usize,
                                    Some(i) => if i > 0 {
                                        (i - 1) as usize
                                    } else {
                                        0usize
                                    },
                                },
                            ))
                            &&& final(self).pick_cursor == old(self).pick_cursor
                            &&& unchanged_but_cursors(*old(self), *final(self))
                        },
                        Mode::Pick => {
                            &&& final(self).list_cursor == old(self).list_cursor
                            &&& unchanged_but_cursors(*old(self), *final(self))
                        },
                        _ => *final(self) == *old(self),
                    })
                },
                Event::ToggleSelect => {
                    &&& r == Ok::<Action, SessionError>(Action::Continue)
                    &&& (match old(self).mode {
                        Mode::List => match old(self).list_cursor {
                            None => *final(self) == *old(self),
                            Some(i) => {
                                &&& toggled_selection(
                                    old(self).selected_groups@,
                                    final(self).selected_groups@,
                                    i,
                                )
                                &&& same_config(*old(self), *final(self))
                                &&& final(self).mode == old(self).mode
                                &&& final(self).groups == old(self).groups
                                &&& final(self).list_cursor == old(self).list_cursor
                                &&& final(self).pick_cursor == old(self).pick_cursor
                                &&& final(self).message == old(self).message
                                &&& final(self).planned_ops == old(self).planned_ops
                                &&& final(self).planned_targets == old(self).planned_targets
                            },
                        },
                        _ => *final(self) == *old(self),
                    })
                },
                Event::QuickPick(kind, selected_only) => {
                    &&& r == Ok::<Action, SessionError>(Action::Continue)
                    &&& (match old(self).mode {
                        Mode::List => {
                            &&& same_config(*old(self), *final(self))
                            &&& final(self).mode == old(self).mode
                            &&& final(self).list_cursor == old(self).list_cursor
                            &&& final(self).pick_cursor == old(self).pick_cursor
                            &&& final(self).planned_ops == old(self).planned_ops
                            &&& final(self).planned_targets == old(self).planned_targets
                            &&& ({
                                let tgts = targets_of(*old(self), selected_only);
                                if tgts.len() == 0 {
                                    &&& final(self).message@ == "No groups selected"@
                                    &&& final(self).groups == old(self).groups
                                    &&& final(self).selected_groups == old(self).selected_groups
                                } else {
                                    &&& final(self).message@ == quick_pick_message(
                                        kind,
                                        selected_only,
                                    )
                                    &&& qp_groups_ok(
                                        old(self).groups@,
                                        final(self).groups@,
                                        tgts,
                                        kind,
                                    )
                                    &&& qp_selection_ok(
                                        old(self).selected_groups@,
                                        final(self).selected_groups@,
                                        tgts,
                                        old(self).groups@.len(),
                                    )
                                }
                            })
                        },
                        _ => *final(self) == *old(self),
                    })
                },
                Event::EnterPick => match old(self).mode {
                    Mode::List => match old(self).list_cursor {
                        None => r == Err::<Action, SessionError>(SessionError::NoSelection)
                            && *final(self) == *old(self),
                        Some(gi) => if gi >= old(self).groups@.len() {
                            r == Err::<Action, SessionError>(SessionError::BadIndex) && *final(self)
                                == *old(self)
                        } else {
                            &&& r == Ok::<Action, SessionError>(Action::Continue)
                            &&& final(self).mode == Mode::Pick
                            &&& (match final(self).pick_cursor {
                                Some(d) => if has_mtime(old(self).groups@[gi as int].candidates@) {
                                    is_newest_at(old(self).groups@[gi as int].candidates@, d as int)
                                } else {
                                    d == 0
                                },
                                None => false,
                            })
                            &&& unchanged_but_pick(*old(self), *final(self))
                        },
                    },
                    _ => r == Ok::<Action, SessionError>(Action::Continue) && *final(self) == *old(self),
                },
                Event::PickCurrent => match old(self).mode {
                    Mode::Pick => match old(self).list_cursor {
                        None => r == Err::<Action, SessionError>(SessionError::NoSelection)
                            && *final(self) == *old(self),
                        Some(gi) => match old(self).pick_cursor {
                            None => r == Err::<Action, SessionError>(SessionError::NoCandidate)
                                && *final(self) == *old(self),
                            Some(ci) => if gi >= old(self).groups@.len() {
                                r == Err::<Action, SessionError>(SessionError::BadIndex) && *final(self) == *old(self)
                            } else {
                                &&& r == Ok::<Action, SessionError>(Action::Continue)
                                &&& final(self).groups@ == old(self).groups@.update(
                                    gi as int,
                                    with_chosen(old(self).groups@[gi as int], Some(ci)),
                                )
                                &&& final(self).mode == Mode::List
                                &&& final(self).message@ == "Picked"@
                                &&& unchanged_but_decision(*old(self), *final(self))
                            },
                        },
                    },
                    _ => r == Ok::<Action, SessionError>(Action::Continue) && *final(self) == *old(self),
                },
                Event::PickOriginal => match old(self).mode {
                    Mode::Pick => match old(self).list_cursor {
                        None => r == Err::<Action, SessionError>(SessionError::NoSelection)
                            && *final(self) == *old(self),
                        Some(gi) => if gi >= old(self).groups@.len() {
                            r == Err::<Action, SessionError>(SessionError::BadIndex) && *final(self)
                                == *old(self)
                        } else {
                            &&& r == Ok::<Action, SessionError>(Action::Continue)
                            &&& final(self).groups@ == old(self).groups@.update(
                                gi as int,
                                with_chosen(old(self).groups@[gi as int], Some(0usize)),
                            )
                            &&& final(self).mode == Mode::List
                            &&& final(self).message@ == "Picked original"@
                            &&& unchanged_but_decision(*old(self), *final(self))
                        },
                    },
                    _ => r == Ok::<Action, SessionError>(Action::Continue) && *final(self) == *old(self),
                },
                Event::PickNewest => match old(self).mode {
                    Mode::Pick => match old(self).list_cursor {
                        None => r == Err::<Action, SessionError>(SessionError::NoSelection)
                            && *final(self) == *old(self),
                        Some(gi) => if gi >= old(self).groups@.len() {
                            r == Err::<Action, SessionError>(SessionError::BadIndex) && *final(self)
                                == *old(self)
                        } else if !has_mtime(old(self).groups@[gi as int].candidates@) {
                            &&& r == Ok::<Action, SessionError>(Action::Continue)
                            &&& final(self).message@ == "no mtime"@
                            &&& final(self).mode == old(self).mode
                            &&& final(self).groups == old(self).groups
                            &&& unchanged_but_decision(*old(self), *final(self))
                        } else {
                            &&& r == Ok::<Action, SessionError>(Action::Continue)
                            &&& (exists|idx: usize|
                                is_newest_at(old(self).groups@[gi as int].candidates@, idx as int)
                                    && final(self).groups@ == old(self).groups@.update(
                                    gi as int,
                                    with_chosen(old(self).groups@[gi as int], Some(idx)),
                                ))
                            &&& final(self).mode == Mode::List
                            &&& final(self).message@ == "Picked newest"@
                            &&& unchanged_but_decision(*old(self), *final(self))
                        },
                    },
                    _ => r == Ok::<Action, SessionError>(Action::Continue) && *final(self) == *old(self),
                },
                Event::PickOldest => match old(self).mode {
                    Mode::Pick => match old(self).list_cursor {
                        None => r == Err::<Action, SessionError>(SessionError::NoSelection)
                            && *final(self) == *old(self),
                        Some(gi) => if gi >= old(self).groups@.len() {
                            r == Err::<Action, SessionError>(SessionError::BadIndex) && *final(self)
                                == *old(self)
                        } else if !has_mtime(old(self).groups@[gi as int].candidates@) {
                            &&& r == Ok::<Action, SessionError>(Action::Continue)
                            &&& final(self).message@ == "no mtime"@
                            &&& final(self).mode == old(self).mode
                            &&& final(self).groups == old(self).groups
                            &&& unchanged_but_decision(*old(self), *final(self))
                        } else {
                            &&& r == Ok::<Action, SessionError>(Action::Continue)
                            &&& (exists|idx: usize|
                                is_oldest_at(old(self).groups@[gi as int].candidates@, idx as int)
                                    && final(self).groups@ == old(self).groups@.update(
                                    gi as int,
                                    with_chosen(old(self).groups@[gi as int], Some(idx)),
                                ))
                            &&& final(self).mode == Mode::List
                            &&& final(self).message@ == "Picked oldest"@
                            &&& unchanged_but_decision(*old(self), *final(self))
                        },
                    },
                    _ => r == Ok::<Action, SessionError>(Action::Continue) && *final(self) == *old(self),
                },
                Event::Plan(all_selected) => match old(self).mode {
                    Mode::List => {
                        &&& r == Ok::<Action, SessionError>(Action::Continue)
                        &&& same_config(*old(self), *final(self))
                        &&& final(self).groups == old(self).groups
                        &&& final(self).list_cursor == old(self).list_cursor
                        &&& final(self).pick_cursor == old(self).pick_cursor
                        &&& final(self).selected_groups == old(self).selected_groups
                        &&& ({
                            let tgts = targets_of(*old(self), all_selected);
                            if tgts.len() == 0 {
                                &&& final(self).message@ == "No groups selected"@
                                &&& final(self).mode == old(self).mode
                            } else if !targets_ok(old(self).groups@, tgts) {
                                &&& final(self).message@ == "Pick a version first (Enter)"@
                                &&& final(self).mode == old(self).mode
                                &&& final(self).planned_ops@ == Seq::<String>::empty()
                                &&& final(self).planned_targets@ == Seq::<usize>::empty()
                            } else if !bases_ok(old(self).groups@, tgts) {
                                &&& final(self).message@ == "no parent"@
                                &&& final(self).mode == old(self).mode
                                &&& final(self).planned_ops@ == Seq::<String>::empty()
                                &&& final(self).planned_targets@ == Seq::<usize>::empty()
                            } else {
                                &&& final(self).mode == Mode::Confirm
                                &&& seq_views(final(self).planned_ops@) == plan_lines(
                                    old(self).root@,
                                    old(self).groups@,
                                    tgts,
                                )
                                &&& final(self).planned_targets@ == tgts
                            }
                        })
                    },
                    _ => r == Ok::<Action, SessionError>(Action::Continue) && *final(self) == *old(self),
                },
                Event::ConfirmYes => match old(self).mode {
                    Mode::Confirm => {
                        &&& same_config(*old(self), *final(self))
                        &&& final(self).groups == old(self).groups
                        &&& final(self).selected_groups == old(self).selected_groups
                        &&& (if old(self).planned_targets@.len() == 0 {
                            &&& r == Ok::<Action, SessionError>(Action::Continue)
                            &&& final(self).message@ == "Nothing planned"@
                            &&& final(self).mode == Mode::List
                            &&& final(self).planned_ops@ == Seq::<String>::empty()
                        } else if !old(self).apply {
                            &&& r == Ok::<Action, SessionError>(Action::Continue)
                            &&& final(self).message@
                                == "Dry-run complete. Toggle apply with 't', then press 'y' to apply."@
                            &&& final(self).mode == Mode::Confirm
                            &&& final(self).planned_ops == old(self).planned_ops
                            &&& final(self).planned_targets == old(self).planned_targets
                        } else {
                            &&& (match r {
                                Ok(Action::Execute(v)) => v@ == old(self).planned_targets@,
                                _ => false,
                            })
                            &&& *final(self) == *old(self)
                        })
                    },
                    _ => r == Ok::<Action, SessionError>(Action::Continue) && *final(self) == *old(self),
                },
                Event::Decline => match old(self).mode {
                    Mode::Confirm => {
                        &&& r == Ok::<Action, SessionError>(Action::Continue)
                        &&& final(self).mode == Mode::List
                        &&& final(self).planned_ops@ == Seq::<String>::empty()
                        &&& final(self).planned_targets@ == Seq::<usize>::empty()
                        &&& final(self).message@ == "Cancelled"@
                        &&& same_config(*old(self), *final(self))
                        &&& final(self).groups == old(self).groups
                        &&& final(self).list_cursor == old(self).list_cursor
                        &&& final(self).pick_cursor == old(self).pick_cursor
                        &&& final(self).selected_groups == old(self).selected_groups
                    },
                    _ => r == Ok::<Action, SessionError>(Action::Continue) && *final(self) == *old(self),
                },
            },
    {
        match ev {
            Event::Interrupt => Ok(Action::Exit),
            Event::ToggleApply => {
                match self.mode {
                    Mode::Done => Ok(Action::Continue),
                    _ => {
                        self.toggle_apply();
                        Ok(Action::Continue)
                    },
                }
            },
            Event::Quit => {
                match self.mode {
                    Mode::List => Ok(Action::Exit),
                    _ => Ok(Action::Continue),
                }
            },
            Event::Back => {
                match self.mode {
                    Mode::Pick => {
                        self.mode = Mode::List;
                        self.pick_cursor = None;
                        Ok(Action::Continue)
                    },
                    Mode::Confirm => {
                        self.mode = Mode::List;
                        self.planned_ops = Vec::new();
                        self.planned_targets = Vec::new();
                        self.message = String::new();
                        Ok(Action::Continue)
                    },
                    _ => Ok(Action::Continue),
                }
            },
            Event::Down => {
                match self.mode {
                    Mode::List => {
                        let len = self.groups.len();
                        list_down(&mut self.list_cursor, len);
                        Ok(Action::Continue)
                    },
                    Mode::Pick => {
                        let len = self.current_group_len();
                        list_down(&mut self.pick_cursor, len);
                        Ok(Action::Continue)
                    },
                    _ => Ok(Action::Continue),
                }
            },
            Event::Up => {
                match self.mode {
                    Mode::List => {
                        let len = self.groups.len();
                        list_up(&mut self.list_cursor, len);
                        Ok(Action::Continue)
                    },
                    Mode::Pick => {
                        let len = self.current_group_len();
                        list_up(&mut self.pick_cursor, len);
                        Ok(Action::Continue)
                    },
                    _ => Ok(Action::Continue),
                }
            },
            Event::ToggleSelect => {
                match self.mode {
                    Mode::List => {
                        self.toggle_selected();
                        Ok(Action::Continue)
                    },
                    _ => Ok(Action::Continue),
                }
            },
            Event::QuickPick(kind, selected_only) => {
                match self.mode {
                    Mode::List => {
                        match self.pick_kind_for_targets(kind, selected_only) {
                            Ok(()) => Ok(Action::Continue),
                            Err(e) => Err(e),
                        }
                    },
                    _ => Ok(Action::Continue),
                }
            },
            Event::EnterPick => {
                match self.mode {
                    Mode::List => {
                        match self.enter_pick() {
                            Ok(()) => Ok(Action::Continue),
                            Err(e) => Err(e),
                        }
                    },
                    _ => Ok(Action::Continue),
                }
            },
            Event::PickCurrent => {
                match self.mode {
                    Mode::Pick => {
                        match self.pick_current() {
                            Ok(()) => Ok(Action::Continue),
                            Err(e) => Err(e),
                        }
                    },
                    _ => Ok(Action::Continue),
                }
            },
            Event::PickOriginal => {
                match self.mode {
                    Mode::Pick => {
                        match self.pick_original() {
                            Ok(()) => Ok(Action::Continue),
                            Err(e) => Err(e),
                        }
                    },
                    _ => Ok(Action::Continue),
                }
            },
            Event::PickNewest => {
                match self.mode {
                    Mode::Pick => {
                        match self.pick_newest() {
                            Ok(()) => Ok(Action::Continue),
                            Err(e) => Err(e),
                        }
                    },
                    _ => Ok(Action::Continue),
                }
            },
            Event::PickOldest => {
                match self.mode {
                    Mode::Pick => {
                        match self.pick_oldest() {
                            Ok(()) => Ok(Action::Continue),
                            Err(e) => Err(e),
                        }
                    },
                    _ => Ok(Action::Continue),
                }
            },
            Event::Plan(all_selected) => {
                match self.mode {
                    Mode::List => {
                        match self.plan_and_confirm(all_selected) {
                            Ok(()) => Ok(Action::Continue),
                            Err(e) => Err(e),
                        }
                    },
                    _ => Ok(Action::Continue),
                }
            },
            Event::ConfirmYes => {
                match self.mode {
                    Mode::Confirm => {
                        match self.apply_plan() {
                            ApplyOutcome::Noop => Ok(Action::Continue),
                            ApplyOutcome::DryRun => Ok(Action::Continue),
                            ApplyOutcome::Execute(v) => Ok(Action::Execute(v)),
                        }
                    },
                    _ => Ok(Action::Continue),
                }
            },
            Event::Decline => {
                match self.mode {
                    Mode::Confirm => {
                        self.mode = Mode::List;
                        self.planned_ops = Vec::new();
                        self.planned_targets = Vec::new();
                        self.message = "Cancelled".to_owned();
                        Ok(Action::Continue)
                    },
                    _ => Ok(Action::Continue),
                }
            },
        }
    }
}

/// Everything except the cursors and the message is unchanged.
pub open spec fn unchanged_but_cursors(o: Session, n: Session) -> bool {
    &&& same_config(o, n)
    &&& n.mode == o.mode
    &&& n.groups == o.groups
    &&& n.selected_groups == o.selected_groups
    &&& n.message == o.message
    &&& n.planned_ops == o.planned_ops
    &&& n.planned_targets == o.planned_targets
}

/// Everything except the mode and the pick cursor is unchanged.
pub open spec fn unchanged_but_pick(o: Session, n: Session) -> bool {
    &&& same_config(o, n)
    &&& n.groups == o.groups
    &&& n.list_cursor == o.list_cursor
    &&& n.selected_groups == o.selected_groups
    &&& n.message == o.message
    &&& n.planned_ops == o.planned_ops
    &&& n.planned_targets == o.planned_targets
}

/// Everything except the groups' decisions, the mode and the message is
/// unchanged.
pub open spec fn unchanged_but_decision(o: Session, n: Session) -> bool {
    &&& same_config(o, n)
    &&& n.list_cursor == o.list_cursor
    &&& n.pick_cursor == o.pick_cursor
    &&& n.selected_groups == o.selected_groups
    &&& n.planned_ops == o.planned_ops
    &&& n.planned_targets == o.planned_targets
}

} // verus!

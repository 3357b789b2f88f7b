//! Move/archive engine: archive-directory convention, unique archive names,
//! and the computation of the exact move operations that resolve one group.
//!
//! The engine never touches the filesystem.  It produces a [`GroupPlan`]:
//! the archive directory that must exist, and the ordered list of moves to
//! perform.  The surrounding application carries the plan out.

use vstd::prelude::*;

use crate::model::Candidate;
use crate::model::ConflictGroup;
use crate::paths::archive_dir_spec;
use crate::paths::file_name;
use crate::paths::file_name_of;
use crate::paths::has_parent;
use crate::paths::rfind_slash;
use crate::strutil::dec_spec;
use crate::strutil::str_concat;
use crate::strutil::u128_to_dec;

verus! {

/// Why a group could not be turned into a plan.
#[derive(Clone, Copy, Debug, PartialEq, Eq, Structural)]
pub enum PlanError {
    /// The group's base path has no parent directory.
    NoParent,
    /// A candidate that must be archived has an empty file name.
    BadName,
}

/// Milliseconds since the Unix epoch, or `0` when the clock reports a time
/// before the epoch.
///
/// Relies on `std::time::SystemTime::now` (with `duration_since` and
/// `as_millis` converting the result to a plain number): the value depends
/// on the clock, so nothing is promised of it.
#[verifier::external_body]
pub fn unique_suffix_millis() -> u128 {
    std::time::SystemTime::now()
        .duration_since(std::time::UNIX_EPOCH)
        .map(|d| d.as_millis())
        .unwrap_or(0)
}

/// The name `base` suffixed with `.` and the decimal rendering of `m`.
pub open spec fn unique_name_spec(base: Seq<char>, m: nat) -> Seq<char> {
    base + "."@ + dec_spec(m)
}

/// Append the millisecond token `millis` to `base`, dot-separated.
pub fn unique_name_with(base: &str, millis: u128) -> (r: String)
    ensures
        r@ == unique_name_spec(base@, millis as nat),
{
    let mut s = base.to_owned();
    s.append(".");
    let d = u128_to_dec(millis);
    s.append(d.as_str());
    s
}

/// `base` suffixed with a timestamp token from the wall clock.
pub fn unique_name(base: &str) -> (r: String)
    ensures
        exists|m: nat| r@ == unique_name_spec(base@, m),
{
    let millis = unique_suffix_millis();
    let r = unique_name_with(base, millis);
    proof {
        assert(r@ == unique_name_spec(base@, millis as nat));
    }
    r
}

/// The archive directory for a base path: the hidden archive subdirectory
/// of the base's parent directory.
pub fn archive_dir_for(base_path: &str) -> (r: Result<String, PlanError>)
    ensures
        match r {
            Ok(s) => has_parent(base_path@) && s@ == archive_dir_spec(base_path@),
            Err(e) => !has_parent(base_path@) && e == PlanError::NoParent,
        },
{
    let n = base_path.unicode_len();
    match rfind_slash(base_path) {
        Some(i) => {
            proof {
                crate::paths::lemma_last_slash_idx(base_path@);
                assert(base_path@.take(i as int) =~= base_path@.subrange(0, i as int));
            }
            let parent = base_path.substring_char(0, i);
            Ok(str_concat(parent, "/.stconflict-archive"))
        },
        None => Err(PlanError::NoParent),
    }
}

/// One file relocation: move the file at `from` to `to`.
#[derive(Clone, Debug)]
pub struct MoveOp {
    pub from: String,
    pub to: String,
}

/// Everything the application must do on disk to resolve one group: make
/// sure `archive_dir` exists, then perform `moves` in order.
#[derive(Clone, Debug)]
pub struct GroupPlan {
    pub archive_dir: String,
    pub moves: Vec<MoveOp>,
}

/// The pairs `(from, to)` of a move list.
pub open spec fn moves_view(ms: Seq<MoveOp>) -> Seq<(Seq<char>, Seq<char>)> {
    ms.map_values(|mo: MoveOp| (mo.from@, mo.to@))
}

/// A candidate is archived when its path is not the keeper's and the file
/// still existed at scan time.
pub open spec fn wants_archive(c: Candidate, keeper: Seq<char>) -> bool {
    c.path@ != keeper && c.exists
}

/// The candidates of `cs` that are archived, in order.
pub open spec fn archived_of(cs: Seq<Candidate>, keeper: Seq<char>) -> Seq<Candidate> {
    cs.filter(|c: Candidate| wants_archive(c, keeper))
}

/// The archive moves of a group: each archived candidate goes to the
/// archive directory under its own name plus the timestamp token.
pub open spec fn archive_moves_spec(
    cs: Seq<Candidate>,
    keeper: Seq<char>,
    arch: Seq<char>,
    m: nat,
) -> Seq<(Seq<char>, Seq<char>)> {
    archived_of(cs, keeper).map_values(
        |c: Candidate| (c.path@, arch + "/"@ + unique_name_spec(file_name(c.path@), m)),
    )
}

/// All moves of a group: the archive moves, then, when the keeper does not
/// already sit at the base path, the move of the keeper onto the base path.
pub open spec fn group_moves_spec(
    cs: Seq<Candidate>,
    keeper: Seq<char>,
    base: Seq<char>,
    arch: Seq<char>,
    m: nat,
) -> Seq<(Seq<char>, Seq<char>)> {
    archive_moves_spec(cs, keeper, arch, m) + (if keeper != base {
        seq![(keeper, base)]
    } else {
        Seq::empty()
    })
}

/// Extending the scanned prefix by one candidate extends the archived
/// candidates exactly when that candidate is archived.
proof fn lemma_archived_push(cs: Seq<Candidate>, keeper: Seq<char>, k: int)
    requires
        0 <= k < cs.len(),
    ensures
        archived_of(cs.take(k + 1), keeper) == (if wants_archive(cs[k], keeper) {
            archived_of(cs.take(k), keeper).push(cs[k])
        } else {
            archived_of(cs.take(k), keeper)
        }),
{
    reveal(Seq::filter);
    assert(cs.take(k + 1).drop_last() =~= cs.take(k));
    assert(cs.take(k + 1).last() == cs[k]);
}

/// A candidate that must be archived but has an empty file name.
pub open spec fn some_bad_name(cs: Seq<Candidate>, keeper: Seq<char>) -> bool {
    exists|k: int|
        0 <= k < cs.len() && wants_archive(#[trigger] cs[k], keeper) && file_name(
            cs[k].path@,
        ).len() == 0
}

/// Compute the exact on-disk operations that resolve `g` by keeping the
/// candidate at `chosen_idx`, with `millis` as the archive timestamp token.
pub fn plan_group_moves(g: &ConflictGroup, chosen_idx: usize, millis: u128) -> (r: Result<
    GroupPlan,
    PlanError,
>)
    requires
        chosen_idx < g.candidates@.len(),
    ensures
        match r {
            Ok(plan) => {
                &&& has_parent(g.base_path@)
                &&& !some_bad_name(g.candidates@, g.candidates@[chosen_idx as int].path@)
                &&& plan.archive_dir@ == archive_dir_spec(g.base_path@)
                &&& moves_view(plan.moves@) == group_moves_spec(
                    g.candidates@,
                    g.candidates@[chosen_idx as int].path@,
                    g.base_path@,
                    archive_dir_spec(g.base_path@),
                    millis as nat,
                )
            },
            Err(PlanError::NoParent) => !has_parent(g.base_path@),
            Err(PlanError::BadName) => has_parent(g.base_path@) && some_bad_name(
                g.candidates@,
                g.candidates@[chosen_idx as int].path@,
            ),
        },
{
    let ghost keeper_seq = g.candidates@[chosen_idx as int].path@;
    let archive_dir = match archive_dir_for(g.base_path.as_str()) {
        Ok(d) => d,
        Err(e) => {
            return Err(e);
        },
    };
    let keeper = g.candidates[chosen_idx].path.clone();
    let mut moves: Vec<MoveOp> = Vec::new();
    let n = g.candidates.len();
    let mut k: usize = 0;
    while k < n
        invariant
            n == g.candidates@.len(),
            chosen_idx < n,
            k <= n,
            keeper@ == keeper_seq,
            keeper_seq == g.candidates@[chosen_idx as int].path@,
            has_parent(g.base_path@),
            archive_dir@ == archive_dir_spec(g.base_path@),
            moves_view(moves@) == archive_moves_spec(
                g.candidates@.take(k as int),
                keeper_seq,
                archive_dir@,
                millis as nat,
            ),
            forall|j: int|
                0 <= j < k && wants_archive(#[trigger] g.candidates@[j], keeper_seq)
                    ==> file_name(g.candidates@[j].path@).len() != 0,
        decreases n - k,
    {
        let c = &g.candidates[k];
        proof {
            lemma_archived_push(g.candidates@, keeper_seq, k as int);
        }
        let is_keeper = crate::strutil::str_eq(c.path.as_str(), keeper.as_str());
        if !is_keeper && c.exists {
            let name = file_name_of(c.path.as_str());
            if name.unicode_len() == 0 {
                proof {
                    assert(wants_archive(g.candidates@[k as int], keeper_seq));
                    assert(some_bad_name(g.candidates@, keeper_seq));
                }
                return Err(PlanError::BadName);
            }
            let dest_name = unique_name_with(name, millis);
            let mut dest = str_concat(archive_dir.as_str(), "/");
            dest.append(dest_name.as_str());
            let mv = MoveOp { from: c.path.clone(), to: dest };
            moves.push(mv);
            proof {
                let cs = g.candidates@;
                let m = millis as nat;
                let arch = archive_dir@;
                let prev = archive_moves_spec(cs.take(k as int), keeper_seq, arch, m);
                let curr = archive_moves_spec(cs.take(k + 1), keeper_seq, arch, m);
                let item = (cs[k as int].path@, arch + "/"@ + unique_name_spec(
                    file_name(cs[k as int].path@),
                    m,
                ));
                assert(wants_archive(cs[k as int], keeper_seq));
                assert(archived_of(cs.take(k + 1), keeper_seq) == archived_of(
                    cs.take(k as int),
                    keeper_seq,
                ).push(cs[k as int]));
                assert(curr =~~= prev.push(item));
                assert(moves_view(moves@) =~~= prev.push(item));
                assert(moves_view(moves@) =~~= curr);
            }
        } else {
            proof {
                let cs = g.candidates@;
                assert(!wants_archive(cs[k as int], keeper_seq));
                assert(archived_of(cs.take(k + 1), keeper_seq) =~= archived_of(
                    cs.take(k as int),
                    keeper_seq,
                ));
            }
        }
        k = k + 1;
    }
    proof {
        assert(g.candidates@.take(n as int) =~= g.candidates@);
    }
    let keeper_is_base = crate::strutil::str_eq(keeper.as_str(), g.base_path.as_str());
    if !keeper_is_base {
        let mv = MoveOp { from: keeper, to: g.base_path.clone() };
        moves.push(mv);
        proof {
            assert(moves_view(moves@) =~~= group_moves_spec(
                g.candidates@,
                keeper_seq,
                g.base_path@,
                archive_dir@,
                millis as nat,
            ));
        }
    } else {
        proof {
            assert(moves_view(moves@) =~~= group_moves_spec(
                g.candidates@,
                keeper_seq,
                g.base_path@,
                archive_dir@,
                millis as nat,
            ));
        }
    }
    Ok(GroupPlan { archive_dir, moves })
}

} // verus!

//! Scanner: classify conflict-variant file names and group walked paths
//! into conflict groups.
//!
//! The grouping is purely a function of the set of walked paths: groups are
//! keyed by the inferred base path, listed in ascending base-path order,
//! with each group's conflict paths in ascending order.  The result does
//! not depend on the order in which the filesystem handed the paths over.

use vstd::prelude::*;
use vstd::relations::sorted_by;

use crate::model::Candidate;
use crate::model::ConflictGroup;
use crate::model::FileStat;
use crate::paths::dir_prefix;
use crate::paths::file_name;
use crate::paths::hidden_component;
use crate::paths::is_hidden_path;
use crate::paths::rfind_slash;
use crate::strutil::contains_pat;
use crate::strutil::find_sub;
use crate::strutil::first_idx;
use crate::strutil::lex_le;
use crate::strutil::lex_le_rel;
use crate::strutil::lex_lt;
use crate::strutil::lemma_lex_le_connected;
use crate::strutil::lemma_lex_le_trans;
use crate::strutil::dec_spec;
use crate::strutil::seq_views;
use crate::strutil::str_concat;
use crate::strutil::u128_to_dec;
use crate::strutil::str_eq;
use crate::strutil::str_le;

verus! {

/// The conflict-marker substring that the synchronizer embeds in the names
/// of conflict-variant files.
pub open spec fn marker() -> Seq<char> {
    ".sync-conflict-"@
}

/// A file name names a conflict variant when it contains the marker.
pub open spec fn is_conflict(name: Seq<char>) -> bool {
    contains_pat(name, marker())
}

/// The base file name: everything before the first marker occurrence.
pub open spec fn base_name_of(name: Seq<char>) -> Seq<char> {
    name.take(first_idx(name, marker()))
}

/// A walked path takes part in grouping when it is not excluded as hidden
/// and its file name is a conflict-variant name.
pub open spec fn keep_path(p: Seq<char>, include_hidden: bool) -> bool {
    (include_hidden || !hidden_component(p)) && is_conflict(file_name(p))
}

/// The inferred base path of a conflict-variant path: the directory prefix
/// followed by the base file name.
pub open spec fn base_of(p: Seq<char>) -> Seq<char> {
    dir_prefix(p) + base_name_of(file_name(p))
}

/// Split a conflict-variant file name: the part before the marker, or
/// `None` when the name contains no marker.
pub fn is_conflict_name<'a>(name: &'a str) -> (r: Option<&'a str>)
    ensures
        r is Some <==> is_conflict(name@),
        match r {
            Some(pre) => pre@ == base_name_of(name@),
            None => true,
        },
{
    match find_sub(name, ".sync-conflict-") {
        Some(i) => {
            proof {
                assert(name@.take(i as int) =~= name@.subrange(0, i as int));
            }
            Some(name.substring_char(0, i))
        },
        None => None,
    }
}

/// The relative form of `p` with respect to `root`: `p` with the `root/`
/// prefix removed, empty when `p` is `root` itself, and `p` unchanged when
/// it does not lie under `root`.
pub open spec fn rel_path_spec(root: Seq<char>, p: Seq<char>) -> Seq<char> {
    if p.len() > root.len() && p.take(root.len() as int) == root && p[root.len() as int] == '/' {
        p.skip(root.len() as int + 1)
    } else if p == root {
        Seq::empty()
    } else {
        p
    }
}

/// Strip the `root/` prefix from `p`, when it is there.
pub fn rel_path<'a>(root: &'a str, p: &'a str) -> (r: &'a str)
    ensures
        r@ == rel_path_spec(root@, p@),
{
    let rl = root.unicode_len();
    let pl = p.unicode_len();
    if rl < pl {
        let pre = p.substring_char(0, rl);
        if str_eq(pre, root) {
            if p.get_char(rl) == '/' {
                proof {
                    assert(p@.take(rl as int) =~= p@.subrange(0, rl as int));
                    assert(p@.skip(rl + 1) =~= p@.subrange(rl + 1, pl as int));
                }
                return p.substring_char(rl + 1, pl);
            }
        }
        proof {
            assert(p@.take(rl as int) =~= p@.subrange(0, rl as int));
        }
        p
    } else if rl == pl {
        if str_eq(p, root) {
            proof {
                assert(p@.subrange(0, 0) =~= Seq::<char>::empty());
            }
            p.substring_char(0, 0)
        } else {
            p
        }
    } else {
        p
    }
}

/// One base path together with the conflict-variant paths grouped under it.
#[derive(Clone, Debug)]
pub struct GroupPaths {
    pub base: String,
    pub conflicts: Vec<String>,
}

/// The predicate selecting the kept paths that infer base path `b`.
pub open spec fn kept_pred(ih: bool, b: Seq<char>) -> spec_fn(Seq<char>) -> bool {
    |p: Seq<char>| keep_path(p, ih) && base_of(p) == b
}

/// The walked paths that are kept and infer base path `b`, in input order.
pub open spec fn kept_for(input: Seq<Seq<char>>, ih: bool, b: Seq<char>) -> Seq<Seq<char>> {
    input.filter(kept_pred(ih, b))
}

/// Group base paths are strictly ascending.
pub open spec fn bases_sorted(gs: Seq<GroupPaths>) -> bool {
    forall|i: int, j: int|
        #![trigger gs[i], gs[j]]
        0 <= i < j < gs.len() ==> lex_lt(gs[i].base@, gs[j].base@)
}

/// One group is well formed with respect to the walked input: it is
/// nonempty, its conflicts are sorted, and they are exactly the kept paths
/// that infer its base.
pub open spec fn group_wf(g: GroupPaths, input: Seq<Seq<char>>, ih: bool) -> bool {
    &&& g.conflicts@.len() > 0
    &&& sorted_by(seq_views(g.conflicts@), lex_le_rel())
    &&& seq_views(g.conflicts@).to_multiset() == kept_for(input, ih, g.base@).to_multiset()
}

/// Some group carries base path `b`.
pub open spec fn has_group(gs: Seq<GroupPaths>, b: Seq<char>) -> bool {
    exists|i: int| 0 <= i < gs.len() && (#[trigger] gs[i]).base@ == b
}

/// The full characterization of a grouping result: ordered, well-formed
/// groups covering exactly the kept input paths.
pub open spec fn grouping_ok(gs: Seq<GroupPaths>, input: Seq<Seq<char>>, ih: bool) -> bool {
    &&& bases_sorted(gs)
    &&& forall|i: int| 0 <= i < gs.len() ==> group_wf(#[trigger] gs[i], input, ih)
    &&& forall|t: int|
        0 <= t < input.len() && keep_path(#[trigger] input[t], ih) ==> has_group(
            gs,
            base_of(input[t]),
        )
}

/// Extending the input by one path extends `kept_for` exactly when that
/// path is kept and infers `b`.
proof fn lemma_kept_push(input: Seq<Seq<char>>, ih: bool, b: Seq<char>, t: int)
    requires
        0 <= t < input.len(),
    ensures
        kept_for(input.take(t + 1), ih, b) == (if keep_path(input[t], ih) && base_of(input[t])
            == b {
            kept_for(input.take(t), ih, b).push(input[t])
        } else {
            kept_for(input.take(t), ih, b)
        }),
{
    reveal(Seq::filter);
    assert(input.take(t + 1).drop_last() =~= input.take(t));
    assert(input.take(t + 1).last() == input[t]);
}

/// When no input path is kept for `b`, nothing is kept for `b`.
proof fn lemma_kept_empty(input: Seq<Seq<char>>, ih: bool, b: Seq<char>)
    requires
        forall|s: int|
            0 <= s < input.len() ==> !(keep_path(#[trigger] input[s], ih) && base_of(input[s])
                == b),
    ensures
        kept_for(input, ih, b) == Seq::<Seq<char>>::empty(),
    decreases input.len(),
{
    reveal(Seq::filter);
    if input.len() == 0 {
        assert(kept_for(input, ih, b) =~= Seq::<Seq<char>>::empty());
    } else {
        let d = input.drop_last();
        assert(forall|s: int| 0 <= s < d.len() ==> d[s] == input[s]);
        lemma_kept_empty(d, ih, b);
        assert(input.last() == input[input.len() - 1]);
    }
}

/// Inserting into a sequence inserts into its multiset.
proof fn lemma_seq_insert_multiset<A>(s: Seq<A>, i: int, x: A)
    requires
        0 <= i <= s.len(),
    ensures
        s.insert(i, x).to_multiset() == s.to_multiset().insert(x),
    decreases i,
{
    broadcast use vstd::seq_lib::group_to_multiset_ensures;
    broadcast use vstd::multiset::group_multiset_axioms;

    if i == 0 {
        assert(s.insert(0, x) =~= seq![x] + s);
        assert(seq![x] + s =~= s.reverse().push(x).reverse()) by {
            assert(s.reverse().push(x).reverse().len() == s.len() + 1);
            assert forall|j: int| 0 <= j < s.len() + 1 implies s.reverse().push(x).reverse()[j]
                == (seq![x] + s)[j] by {
                assert(s.reverse().push(x).reverse()[j] == s.reverse().push(x)[s.len() - j]);
            }
        }
        s.reverse().lemma_reverse_to_multiset();
        s.reverse().push(x).lemma_reverse_to_multiset();
        assert(s.reverse().push(x).to_multiset() =~= s.reverse().to_multiset().insert(x));
        assert(s.insert(0, x).to_multiset() =~= s.to_multiset().insert(x));
    } else {
        assert(s.insert(i, x).drop_first() =~= s.drop_first().insert(i - 1, x)) by {
            s.insert_ensures(i, x);
            s.drop_first().insert_ensures(i - 1, x);
        }
        assert(s.insert(i, x).first() == s.first()) by {
            s.insert_ensures(i, x);
        }
        lemma_seq_insert_multiset(s.drop_first(), i - 1, x);
        assert(s.insert(i, x) =~= seq![s.first()] + s.drop_first().insert(i - 1, x));
        assert(s =~= seq![s.first()] + s.drop_first());
        vstd::seq_lib::lemma_multiset_commutative(seq![s.first()], s.drop_first().insert(i - 1, x));
        vstd::seq_lib::lemma_multiset_commutative(seq![s.first()], s.drop_first());
        assert(s.insert(i, x).to_multiset() =~= s.to_multiset().insert(x));
    }
}

/// The views of an inserted sequence are the inserted views.
proof fn lemma_views_insert(v: Seq<String>, i: int, s: String)
    requires
        0 <= i <= v.len(),
    ensures
        seq_views(v.insert(i, s)) == seq_views(v).insert(i, s@),
{
    v.insert_ensures(i, s);
    seq_views(v).insert_ensures(i, s@);
    assert(seq_views(v.insert(i, s)) =~= seq_views(v).insert(i, s@));
}

/// Insert `s` into the sorted list `v`, keeping it sorted.
fn insert_sorted(v: &mut Vec<String>, s: String)
    requires
        sorted_by(seq_views(old(v)@), lex_le_rel()),
    ensures
        sorted_by(seq_views(final(v)@), lex_le_rel()),
        seq_views(final(v)@).to_multiset() == seq_views(old(v)@).to_multiset().insert(s@),
        final(v)@.len() == old(v)@.len() + 1,
{
    let n = v.len();
    let mut i: usize = 0;
    while i < n && !str_le(s.as_str(), v[i].as_str())
        invariant
            i <= n,
            n == v@.len(),
            forall|j: int| 0 <= j < i ==> !lex_le(s@, seq_views(v@)[j]),
        decreases n - i,
    {
        i = i + 1;
    }
    let ghost old_views = seq_views(v@);
    proof {
        lemma_views_insert(v@, i as int, s);
    }
    v.insert(i, s);
    proof {
        lemma_seq_insert_multiset(old_views, i as int, s@);
        old_views.insert_ensures(i as int, s@);
        let nv = seq_views(v@);
        assert(nv == old_views.insert(i as int, s@));
        assert forall|x: int, y: int| 0 <= x < y < old_views.len() implies lex_le(
            old_views[x],
            old_views[y],
        ) by {
            assert(lex_le_rel()(old_views[x], old_views[y]));
        }
        assert forall|a: int, b: int| 0 <= a < b < nv.len() implies lex_le_rel()(
            nv[a],
            nv[b],
        ) by {
            if b < i {
                assert(lex_le(old_views[a], old_views[b]));
            } else if a < i && b == i {
                lemma_lex_le_connected(s@, old_views[a]);
            } else if a < i && b > i {
                if a < b - 1 {
                    assert(lex_le(old_views[a], old_views[b - 1]));
                }
            } else if a == i {
                if i < old_views.len() {
                    assert(lex_le(s@, old_views[i as int]));
                    if b - 1 > i {
                        assert(lex_le(old_views[i as int], old_views[b - 1]));
                        lemma_lex_le_trans(s@, old_views[i as int], old_views[b - 1]);
                    }
                }
            } else {
                assert(lex_le(old_views[a - 1], old_views[b - 1]));
            }
        }
    }
}

/// Search the sorted group list for base path `b`: the matching index, or
/// the insertion point when no group carries `b`.
fn find_base_pos(gs: &Vec<GroupPaths>, b: &str) -> (r: (usize, bool))
    requires
        bases_sorted(gs@),
    ensures
        r.0 <= gs@.len(),
        r.1 ==> r.0 < gs@.len() && gs@[r.0 as int].base@ == b@,
        forall|i: int| 0 <= i < r.0 ==> lex_lt((#[trigger] gs@[i]).base@, b@),
        !r.1 ==> forall|i: int| r.0 <= i < gs@.len() ==> lex_lt(b@, (#[trigger] gs@[i]).base@),
{
    let n = gs.len();
    let mut i: usize = 0;
    while i < n
        invariant
            i <= n,
            n == gs@.len(),
            bases_sorted(gs@),
            forall|j: int| 0 <= j < i ==> lex_lt((#[trigger] gs@[j]).base@, b@),
        decreases n - i,
    {
        if str_eq(gs[i].base.as_str(), b) {
            return (i, true);
        }
        if str_le(b, gs[i].base.as_str()) {
            proof {
                assert(lex_lt(b@, gs@[i as int].base@));
                assert forall|j: int| i <= j < gs@.len() implies lex_lt(
                    b@,
                    (#[trigger] gs@[j]).base@,
                ) by {
                    if j > i {
                        assert(lex_lt(gs@[i as int].base@, gs@[j].base@));
                        lemma_lex_le_trans(b@, gs@[i as int].base@, gs@[j].base@);
                        if b@ == gs@[j].base@ {
                            crate::strutil::lemma_lex_le_antisym(gs@[i as int].base@, b@);
                        }
                    }
                }
            }
            return (i, false);
        }
        proof {
            lemma_lex_le_connected(b@, gs@[i as int].base@);
        }
        i = i + 1;
    }
    (n, false)
}

/// Classify one walked path: the inferred base path when the path takes
/// part in grouping, `None` otherwise.
pub fn classify_path(p: &str, include_hidden: bool) -> (r: Option<String>)
    ensures
        r is Some <==> keep_path(p@, include_hidden),
        match r {
            Some(b) => b@ == base_of(p@),
            None => true,
        },
{
    if !include_hidden && is_hidden_path(p) {
        return None;
    }
    let n = p.unicode_len();
    let ns = match rfind_slash(p) {
        Some(i) => {
            proof {
                crate::paths::lemma_last_slash_idx(p@);
            }
            i + 1
        },
        None => 0,
    };
    proof {
        crate::paths::lemma_last_slash_idx(p@);
        assert(ns == crate::paths::name_start(p@));
        assert(p@.skip(ns as int) =~= p@.subrange(ns as int, n as int));
    }
    let name = p.substring_char(ns, n);
    match find_sub(name, ".sync-conflict-") {
        Some(i) => {
            proof {
                assert(p@.take(ns + i) =~= p@.subrange(0, (ns + i) as int));
                assert(base_of(p@) =~= p@.take(ns + i)) by {
                    assert(base_name_of(name@) == name@.take(i as int));
                    assert(dir_prefix(p@) =~= p@.subrange(0, ns as int));
                    assert(name@.take(i as int) =~= p@.subrange(ns as int, ns + i));
                }
            }
            let b = p.substring_char(0, ns + i).to_owned();
            Some(b)
        },
        None => None,
    }
}

/// Group the walked regular-file paths into conflict groups: one group per
/// inferred base path, bases ascending, conflicts ascending, independent of
/// the order of `paths`.
pub fn collect_conflicts(paths: &Vec<String>, include_hidden: bool) -> (gs: Vec<GroupPaths>)
    ensures
        grouping_ok(gs@, seq_views(paths@), include_hidden),
{
    let ghost input = seq_views(paths@);
    let mut gs: Vec<GroupPaths> = Vec::new();
    let n = paths.len();
    let mut t: usize = 0;
    proof {
        assert(input.take(0) =~= Seq::<Seq<char>>::empty());
    }
    while t < n
        invariant
            t <= n,
            n == paths@.len(),
            input == seq_views(paths@),
            grouping_ok(gs@, input.take(t as int), include_hidden),
        decreases n - t,
    {
        let p = &paths[t];
        let ghost pv = p@;
        let ghost inp1 = input.take(t as int);
        let ghost inp2 = input.take(t + 1);
        proof {
            assert(input[t as int] == pv);
            assert(forall|s: int| 0 <= s < t + 1 ==> inp2[s] == input[s]);
            assert(forall|s: int| 0 <= s < t ==> inp1[s] == input[s]);
        }
        match classify_path(p.as_str(), include_hidden) {
            None => {
                proof {
                    lemma_step_not_kept(gs@, input, include_hidden, t as int);
                }
            },
            Some(base) => {
                let ghost b = base@;
                let (pos, found) = find_base_pos(&gs, base.as_str());
                if found {
                    let ghost old_gs = gs@;
                    let mut grp = gs.remove(pos);
                    insert_sorted(&mut grp.conflicts, p.clone());
                    gs.insert(pos, grp);
                    proof {
                        assert(gs@ =~= old_gs.update(pos as int, grp)) by {
                            old_gs.remove_ensures(pos as int);
                            old_gs.remove(pos as int).insert_ensures(pos as int, grp);
                        }
                        lemma_step_existing(
                            old_gs,
                            gs@,
                            input,
                            include_hidden,
                            t as int,
                            pos as int,
                            grp,
                        );
                    }
                } else {
                    let mut conflicts: Vec<String> = Vec::new();
                    conflicts.push(p.clone());
                    let ng = GroupPaths { base, conflicts };
                    let ghost old_gs = gs@;
                    proof {
                        assert(seq_views(ng.conflicts@) =~= seq![pv]);
                    }
                    gs.insert(pos, ng);
                    proof {
                        lemma_step_fresh(old_gs, gs@, input, include_hidden, t as int, pos as int, ng);
                    }
                }
            },
        }
        t = t + 1;
    }
    proof {
        assert(input.take(n as int) =~= input);
    }
    gs
}

/// Skipping a path that is not kept leaves the grouping characterization
/// intact for the extended input.
proof fn lemma_step_not_kept(gs: Seq<GroupPaths>, input: Seq<Seq<char>>, ih: bool, t: int)
    requires
        0 <= t < input.len(),
        grouping_ok(gs, input.take(t), ih),
        !keep_path(input[t], ih),
    ensures
        grouping_ok(gs, input.take(t + 1), ih),
{
    let inp1 = input.take(t);
    let inp2 = input.take(t + 1);
    assert forall|i: int| 0 <= i < gs.len() implies group_wf(#[trigger] gs[i], inp2, ih) by {
        lemma_kept_push(input, ih, gs[i].base@, t);
        assert(group_wf(gs[i], inp1, ih));
    }
    assert forall|s: int| 0 <= s < inp2.len() && keep_path(#[trigger] inp2[s], ih) implies has_group(
        gs,
        base_of(inp2[s]),
    ) by {
        assert(inp2[s] == input[s]);
        if s < t {
            assert(inp1[s] == input[s]);
            assert(keep_path(inp1[s], ih));
        }
    }
}

/// Adding a kept path to its existing group preserves the grouping
/// characterization for the extended input.
proof fn lemma_step_existing(
    old_gs: Seq<GroupPaths>,
    new_gs: Seq<GroupPaths>,
    input: Seq<Seq<char>>,
    ih: bool,
    t: int,
    pos: int,
    grp: GroupPaths,
)
    requires
        0 <= t < input.len(),
        grouping_ok(old_gs, input.take(t), ih),
        keep_path(input[t], ih),
        0 <= pos < old_gs.len(),
        old_gs[pos].base@ == base_of(input[t]),
        new_gs == old_gs.update(pos, grp),
        grp.base == old_gs[pos].base,
        grp.conflicts@.len() == old_gs[pos].conflicts@.len() + 1,
        sorted_by(seq_views(grp.conflicts@), lex_le_rel()),
        seq_views(grp.conflicts@).to_multiset() == seq_views(
            old_gs[pos].conflicts@,
        ).to_multiset().insert(input[t]),
    ensures
        grouping_ok(new_gs, input.take(t + 1), ih),
{
    broadcast use vstd::seq_lib::group_to_multiset_ensures;

    let inp1 = input.take(t);
    let inp2 = input.take(t + 1);
    let b = base_of(input[t]);
    assert(forall|s: int| 0 <= s < t + 1 ==> inp2[s] == input[s]);
    assert(forall|s: int| 0 <= s < t ==> inp1[s] == input[s]);
    assert(forall|i: int| 0 <= i < new_gs.len() ==> (#[trigger] new_gs[i]).base@ == old_gs[i].base@);
    assert(bases_sorted(new_gs)) by {
        assert forall|i: int, j: int|
            #![trigger new_gs[i], new_gs[j]]
            0 <= i < j < new_gs.len() implies lex_lt(new_gs[i].base@, new_gs[j].base@) by {
            assert(lex_lt(old_gs[i].base@, old_gs[j].base@));
        }
    }
    assert forall|i: int| 0 <= i < new_gs.len() implies group_wf(#[trigger] new_gs[i], inp2, ih) by {
        lemma_kept_push(input, ih, new_gs[i].base@, t);
        if i == pos {
            assert(new_gs[i] == grp);
            assert(kept_for(inp2, ih, b) == kept_for(inp1, ih, b).push(input[t]));
            assert(kept_for(inp1, ih, b).push(input[t]).to_multiset() == kept_for(
                inp1,
                ih,
                b,
            ).to_multiset().insert(input[t]));
            assert(group_wf(old_gs[pos], inp1, ih));
        } else {
            assert(new_gs[i] == old_gs[i]);
            assert(group_wf(old_gs[i], inp1, ih));
            if i < pos {
                assert(lex_lt(old_gs[i].base@, old_gs[pos].base@));
            } else {
                assert(lex_lt(old_gs[pos].base@, old_gs[i].base@));
            }
            assert(old_gs[i].base@ != b);
        }
    }
    assert forall|s: int| 0 <= s < inp2.len() && keep_path(#[trigger] inp2[s], ih) implies has_group(
        new_gs,
        base_of(inp2[s]),
    ) by {
        assert(inp2[s] == input[s]);
        if s < t {
            assert(inp1[s] == input[s]);
            assert(keep_path(inp1[s], ih));
            assert(has_group(old_gs, base_of(inp1[s])));
            let gi = choose|gi: int|
                0 <= gi < old_gs.len() && (#[trigger] old_gs[gi]).base@ == base_of(inp1[s]);
            assert(new_gs[gi].base@ == base_of(inp2[s]));
        } else {
            assert(new_gs[pos].base@ == b);
        }
    }
}

/// Opening a fresh group for a kept path whose base no group carries
/// preserves the grouping characterization for the extended input.
#[verifier::rlimit(60)]
proof fn lemma_step_fresh(
    old_gs: Seq<GroupPaths>,
    new_gs: Seq<GroupPaths>,
    input: Seq<Seq<char>>,
    ih: bool,
    t: int,
    pos: int,
    ng: GroupPaths,
)
    requires
        0 <= t < input.len(),
        grouping_ok(old_gs, input.take(t), ih),
        keep_path(input[t], ih),
        0 <= pos <= old_gs.len(),
        new_gs == old_gs.insert(pos, ng),
        ng.base@ == base_of(input[t]),
        seq_views(ng.conflicts@) == seq![input[t]],
        forall|i: int| 0 <= i < pos ==> lex_lt((#[trigger] old_gs[i]).base@, ng.base@),
        forall|i: int| pos <= i < old_gs.len() ==> lex_lt(ng.base@, (#[trigger] old_gs[i]).base@),
    ensures
        grouping_ok(new_gs, input.take(t + 1), ih),
{
    broadcast use vstd::seq_lib::group_to_multiset_ensures;

    let inp1 = input.take(t);
    let inp2 = input.take(t + 1);
    let b = base_of(input[t]);
    assert(forall|s: int| 0 <= s < t + 1 ==> inp2[s] == input[s]);
    assert(forall|s: int| 0 <= s < t ==> inp1[s] == input[s]);
    old_gs.insert_ensures(pos, ng);
    assert(new_gs.len() == old_gs.len() + 1);
    assert(forall|i: int| 0 <= i < pos ==> #[trigger] new_gs[i] == old_gs[i]);
    assert(forall|i: int| pos < i < new_gs.len() ==> #[trigger] new_gs[i] == old_gs[i - 1]);
    assert(new_gs[pos] == ng);
    // no old group carries b
    assert forall|i: int| 0 <= i < old_gs.len() implies (#[trigger] old_gs[i]).base@ != b by {
        if i < pos {
            assert(lex_lt(old_gs[i].base@, b));
        } else {
            assert(lex_lt(b, old_gs[i].base@));
        }
    }
    // nothing before t was kept for b
    assert forall|s: int| 0 <= s < inp1.len() implies !(keep_path(#[trigger] inp1[s], ih)
        && base_of(inp1[s]) == b) by {
        if keep_path(inp1[s], ih) && base_of(inp1[s]) == b {
            assert(has_group(old_gs, b));
            let gi = choose|gi: int|
                0 <= gi < old_gs.len() && (#[trigger] old_gs[gi]).base@ == b;
            assert(false);
        }
    }
    lemma_kept_empty(inp1, ih, b);
    lemma_kept_push(input, ih, b, t);
    assert(kept_for(inp2, ih, b) == Seq::<Seq<char>>::empty().push(input[t]));
    assert(Seq::<Seq<char>>::empty().push(input[t]) =~= seq![input[t]]);
    assert(bases_sorted(new_gs)) by {
        assert forall|i: int, j: int|
            #![trigger new_gs[i], new_gs[j]]
            0 <= i < j < new_gs.len() implies lex_lt(new_gs[i].base@, new_gs[j].base@) by {
            if j < pos {
                assert(lex_lt(old_gs[i].base@, old_gs[j].base@));
            } else if i < pos && j == pos {
                assert(lex_lt(old_gs[i].base@, b));
            } else if i < pos && j > pos {
                assert(lex_lt(old_gs[i].base@, old_gs[j - 1].base@));
            } else if i == pos {
                assert(lex_lt(b, old_gs[j - 1].base@));
            } else {
                assert(lex_lt(old_gs[i - 1].base@, old_gs[j - 1].base@));
            }
        }
    }
    assert forall|i: int| 0 <= i < new_gs.len() implies group_wf(#[trigger] new_gs[i], inp2, ih) by {
        if i == pos {
            assert(seq_views(ng.conflicts@).len() == 1);
            assert(ng.conflicts@.len() == 1);
            assert(sorted_by(seq_views(ng.conflicts@), lex_le_rel()));
            assert(seq_views(ng.conflicts@).to_multiset() == kept_for(inp2, ih, b).to_multiset());
        } else {
            let oi = if i < pos {
                i
            } else {
                i - 1
            };
            lemma_kept_push(input, ih, old_gs[oi].base@, t);
            assert(group_wf(old_gs[oi], inp1, ih));
            assert(old_gs[oi].base@ != b);
            assert(new_gs[i] == old_gs[oi]);
        }
    }
    assert forall|s: int| 0 <= s < inp2.len() && keep_path(#[trigger] inp2[s], ih) implies has_group(
        new_gs,
        base_of(inp2[s]),
    ) by {
        assert(inp2[s] == input[s]);
        if s < t {
            assert(inp1[s] == input[s]);
            assert(keep_path(inp1[s], ih));
            assert(has_group(old_gs, base_of(inp1[s])));
            let gi = choose|gi: int|
                0 <= gi < old_gs.len() && (#[trigger] old_gs[gi]).base@ == base_of(inp1[s]);
            if gi < pos {
                assert(new_gs[gi].base@ == base_of(inp2[s]));
            } else {
                assert(new_gs[gi + 1].base@ == base_of(inp2[s]));
            }
        } else {
            assert(new_gs[pos].base@ == b);
        }
    }
}

/// A candidate carries exactly this path, stat, role and label.
pub open spec fn candidate_matches(
    c: Candidate,
    path: Seq<char>,
    st: FileStat,
    orig: bool,
    label: Seq<char>,
) -> bool {
    &&& c.path@ == path
    &&& c.exists == st.exists
    &&& c.is_original == orig
    &&& c.size == st.size
    &&& c.modified == st.modified
    &&& c.label@ == label
}

/// A built group carries the base candidate first, then one candidate per
/// conflict path, each labeled by its one-based rank.
pub open spec fn built_group_ok(
    g: ConflictGroup,
    gp: GroupPaths,
    ost: FileStat,
    csts: Seq<FileStat>,
) -> bool {
    &&& g.base_path@ == gp.base@
    &&& g.chosen is None
    &&& g.candidates@.len() == 1 + gp.conflicts@.len()
    &&& candidate_matches(g.candidates@[0], gp.base@, ost, true, "Original"@)
    &&& forall|j: int|
        0 <= j < gp.conflicts@.len() ==> candidate_matches(
            #[trigger] g.candidates@[j + 1],
            gp.conflicts@[j]@,
            csts[j],
            false,
            "Conflict "@ + dec_spec((j + 1) as nat),
        )
}

/// The conflict candidates of a group are sorted by path ascending.
pub open spec fn candidates_sorted(g: ConflictGroup) -> bool {
    forall|a: int, b: int|
        #![trigger g.candidates@[a], g.candidates@[b]]
        1 <= a < b < g.candidates@.len() ==> lex_le(g.candidates@[a].path@, g.candidates@[b].path@)
}

/// Turn grouped paths and their stat results into conflict groups: the
/// original candidate first (whether or not it exists on disk), then one
/// candidate per conflict path, labels assigned by rank.
pub fn build_groups(
    parts: &Vec<GroupPaths>,
    orig_stats: &Vec<FileStat>,
    conflict_stats: &Vec<Vec<FileStat>>,
) -> (r: Vec<ConflictGroup>)
    requires
        orig_stats@.len() == parts@.len(),
        conflict_stats@.len() == parts@.len(),
        forall|i: int|
            0 <= i < parts@.len() ==> (#[trigger] conflict_stats@[i])@.len()
                == parts@[i].conflicts@.len(),
    ensures
        r@.len() == parts@.len(),
        forall|i: int|
            0 <= i < r@.len() ==> built_group_ok(
                #[trigger] r@[i],
                parts@[i],
                orig_stats@[i],
                conflict_stats@[i]@,
            ),
{
    let mut r: Vec<ConflictGroup> = Vec::new();
    let n = parts.len();
    let mut i: usize = 0;
    while i < n
        invariant
            i <= n,
            n == parts@.len(),
            orig_stats@.len() == n,
            conflict_stats@.len() == n,
            forall|k: int|
                0 <= k < n ==> (#[trigger] conflict_stats@[k])@.len()
                    == parts@[k].conflicts@.len(),
            r@.len() == i,
            forall|k: int|
                0 <= k < i ==> built_group_ok(
                    #[trigger] r@[k],
                    parts@[k],
                    orig_stats@[k],
                    conflict_stats@[k]@,
                ),
        decreases n - i,
    {
        let gp = &parts[i];
        let ost = orig_stats[i];
        let mut candidates: Vec<Candidate> = Vec::new();
        candidates.push(
            Candidate {
                path: gp.base.clone(),
                exists: ost.exists,
                is_original: true,
                size: ost.size,
                modified: ost.modified,
                label: "Original".to_owned(),
            },
        );
        let m = gp.conflicts.len();
        let mut j: usize = 0;
        while j < m
            invariant
                j <= m,
                0 <= i < n,
                n == parts@.len(),
                conflict_stats@.len() == n,
                m == parts@[i as int].conflicts@.len(),
                gp == parts@[i as int],
                conflict_stats@[i as int]@.len() == m,
                candidates@.len() == 1 + j,
                candidate_matches(
                    candidates@[0],
                    parts@[i as int].base@,
                    orig_stats@[i as int],
                    true,
                    "Original"@,
                ),
                forall|q: int|
                    0 <= q < j ==> candidate_matches(
                        #[trigger] candidates@[q + 1],
                        parts@[i as int].conflicts@[q]@,
                        conflict_stats@[i as int]@[q],
                        false,
                        "Conflict "@ + dec_spec((q + 1) as nat),
                    ),
            decreases m - j,
        {
            let st = conflict_stats[i][j];
            let num = u128_to_dec((j as u128) + 1);
            let label = str_concat("Conflict ", num.as_str());
            candidates.push(
                Candidate {
                    path: gp.conflicts[j].clone(),
                    exists: st.exists,
                    is_original: false,
                    size: st.size,
                    modified: st.modified,
                    label,
                },
            );
            j = j + 1;
        }
        r.push(ConflictGroup { base_path: gp.base.clone(), candidates, chosen: None });
        i = i + 1;
    }
    r
}

/// The shape that every scanned group has: the candidate at index `0` is
/// the original, and the conflict candidates that follow are sorted by
/// path ascending, whatever order the filesystem enumerated the walked
/// paths in.
pub proof fn lemma_group_shape(
    groups: Seq<ConflictGroup>,
    parts: Seq<GroupPaths>,
    input: Seq<Seq<char>>,
    ih: bool,
    osts: Seq<FileStat>,
    cstss: Seq<Seq<FileStat>>,
)
    requires
        grouping_ok(parts, input, ih),
        groups.len() == parts.len(),
        osts.len() == parts.len(),
        cstss.len() == parts.len(),
        forall|i: int|
            0 <= i < groups.len() ==> built_group_ok(
                #[trigger] groups[i],
                parts[i],
                osts[i],
                cstss[i],
            ),
    ensures
        forall|i: int|
            0 <= i < groups.len() ==> (#[trigger] groups[i]).candidates@.len() > 0
                && groups[i].candidates@[0].is_original && candidates_sorted(groups[i]),
{
    assert forall|i: int| 0 <= i < groups.len() implies (#[trigger] groups[i]).candidates@.len() > 0
        && groups[i].candidates@[0].is_original && candidates_sorted(groups[i]) by {
        let g = groups[i];
        let gp = parts[i];
        assert(group_wf(gp, input, ih));
        assert forall|a: int, b: int|
            #![trigger g.candidates@[a], g.candidates@[b]]
            1 <= a < b < g.candidates@.len() implies lex_le(
            g.candidates@[a].path@,
            g.candidates@[b].path@,
        ) by {
            let ja = a - 1;
            let jb = b - 1;
            assert(candidate_matches(
                g.candidates@[ja + 1],
                gp.conflicts@[ja]@,
                cstss[i][ja],
                false,
                "Conflict "@ + dec_spec((ja + 1) as nat),
            ));
            assert(candidate_matches(
                g.candidates@[jb + 1],
                gp.conflicts@[jb]@,
                cstss[i][jb],
                false,
                "Conflict "@ + dec_spec((jb + 1) as nat),
            ));
            assert(lex_le_rel()(seq_views(gp.conflicts@)[ja], seq_views(gp.conflicts@)[jb]));
        }
    }
}

/// The base paths of a group list, in order.
pub open spec fn bases_of(gs: Seq<GroupPaths>) -> Seq<Seq<char>> {
    gs.map_values(|g: GroupPaths| g.base@)
}

/// Filtering a sequence filters its multiset.
proof fn lemma_filter_to_multiset<A>(s: Seq<A>, pred: spec_fn(A) -> bool)
    ensures
        s.filter(pred).to_multiset() == s.to_multiset().filter(pred),
    decreases s.len(),
{
    broadcast use vstd::seq_lib::group_to_multiset_ensures;
    broadcast use vstd::multiset::group_multiset_axioms;

    reveal(Seq::filter);
    if s.len() == 0 {
        assert(s.filter(pred) == s);
        assert(s.filter(pred).to_multiset() =~= s.to_multiset().filter(pred));
    } else {
        let d = s.drop_last();
        let l = s.last();
        lemma_filter_to_multiset(d, pred);
        assert(s =~= d.push(l));
        assert(d.push(l).to_multiset() =~= d.to_multiset().insert(l));
        if pred(l) {
            assert(s.filter(pred) == d.filter(pred).push(l));
            assert(d.filter(pred).push(l).to_multiset() =~= d.filter(pred).to_multiset().insert(
                l,
            ));
        }
        assert forall|x: A| #[trigger] s.filter(pred).to_multiset().count(x) == s.to_multiset().filter(
            pred,
        ).count(x) by {
            assert(s.to_multiset().count(x) == d.to_multiset().count(x) + (if x == l {
                1int
            } else {
                0int
            }));
            assert(d.filter(pred).to_multiset().count(x) == d.to_multiset().filter(pred).count(x));
        }
        assert(s.filter(pred).to_multiset() =~= s.to_multiset().filter(pred));
    }
}

/// Grouping is canonical: whatever order the walked paths arrive in, two
/// grouping results over the same collection of paths agree group for
/// group — same base paths, same conflict lists, same order.
pub proof fn lemma_grouping_canonical(
    gs1: Seq<GroupPaths>,
    gs2: Seq<GroupPaths>,
    in1: Seq<Seq<char>>,
    in2: Seq<Seq<char>>,
    ih: bool,
)
    requires
        grouping_ok(gs1, in1, ih),
        grouping_ok(gs2, in2, ih),
        in1.to_multiset() == in2.to_multiset(),
    ensures
        gs1.len() == gs2.len(),
        forall|i: int|
            0 <= i < gs1.len() ==> (#[trigger] gs1[i]).base@ == gs2[i].base@ && seq_views(
                gs1[i].conflicts@,
            ) == seq_views(gs2[i].conflicts@),
{
    broadcast use vstd::seq_lib::group_to_multiset_ensures;
    broadcast use vstd::multiset::group_multiset_axioms;

    crate::strutil::lemma_lex_le_total_ordering();
    let leq = lex_le_rel();
    // the kept paths agree, base for base
    assert forall|b: Seq<char>| #[trigger] kept_for(in1, ih, b).to_multiset() == kept_for(
        in2,
        ih,
        b,
    ).to_multiset() by {
        lemma_filter_to_multiset(in1, kept_pred(ih, b));
        lemma_filter_to_multiset(in2, kept_pred(ih, b));
    }
    // a base has a group on one side exactly when it has one on the other
    assert forall|b: Seq<char>| has_group(gs1, b) <==> has_group(gs2, b) by {
        if has_group(gs1, b) {
            lemma_base_covered(gs1, gs2, in1, in2, ih, b);
        }
        if has_group(gs2, b) {
            lemma_base_covered(gs2, gs1, in2, in1, ih, b);
        }
    }
    // the ordered base lists agree
    let b1 = bases_of(gs1);
    let b2 = bases_of(gs2);
    assert(b1.len() == gs1.len());
    assert(b2.len() == gs2.len());
    assert forall|i: int, j: int| 0 <= i < j < b1.len() implies leq(b1[i], b1[j]) by {
        assert(lex_lt(gs1[i].base@, gs1[j].base@));
    }
    assert forall|i: int, j: int| 0 <= i < j < b2.len() implies leq(b2[i], b2[j]) by {
        assert(lex_lt(gs2[i].base@, gs2[j].base@));
    }
    assert(b1.no_duplicates()) by {
        assert forall|i: int, j: int| 0 <= i < b1.len() && 0 <= j < b1.len() && i != j implies b1[i]
            != b1[j] by {
            if i < j {
                assert(lex_lt(gs1[i].base@, gs1[j].base@));
            } else {
                assert(lex_lt(gs1[j].base@, gs1[i].base@));
            }
        }
    }
    assert(b2.no_duplicates()) by {
        assert forall|i: int, j: int| 0 <= i < b2.len() && 0 <= j < b2.len() && i != j implies b2[i]
            != b2[j] by {
            if i < j {
                assert(lex_lt(gs2[i].base@, gs2[j].base@));
            } else {
                assert(lex_lt(gs2[j].base@, gs2[i].base@));
            }
        }
    }
    b1.lemma_multiset_has_no_duplicates();
    b2.lemma_multiset_has_no_duplicates();
    assert forall|b: Seq<char>| b1.contains(b) <==> has_group(gs1, b) by {
        if b1.contains(b) {
            let i = choose|i: int| 0 <= i < b1.len() && b1[i] == b;
            assert(gs1[i].base@ == b);
        }
        if has_group(gs1, b) {
            let i = choose|i: int| 0 <= i < gs1.len() && (#[trigger] gs1[i]).base@ == b;
            assert(b1[i] == b);
        }
    }
    assert forall|b: Seq<char>| b2.contains(b) <==> has_group(gs2, b) by {
        if b2.contains(b) {
            let i = choose|i: int| 0 <= i < b2.len() && b2[i] == b;
            assert(gs2[i].base@ == b);
        }
        if has_group(gs2, b) {
            let i = choose|i: int| 0 <= i < gs2.len() && (#[trigger] gs2[i]).base@ == b;
            assert(b2[i] == b);
        }
    }
    assert forall|x: Seq<char>| #[trigger] b1.to_multiset().count(x) == b2.to_multiset().count(
        x,
    ) by {
        if b1.contains(x) || b2.contains(x) {
            assert(b1.contains(x) <==> b2.contains(x));
            assert(b1.to_multiset().contains(x) <==> b1.contains(x));
            assert(b2.to_multiset().contains(x) <==> b2.contains(x));
        } else {
            assert(b1.to_multiset().count(x) == 0);
            assert(b2.to_multiset().count(x) == 0);
        }
    }
    assert(b1.to_multiset() =~= b2.to_multiset());
    vstd::seq_lib::lemma_sorted_unique(b1, b2, leq);
    assert(b1 =~= b2);
    assert(gs1.len() == gs2.len());
    // group by group, the conflict lists agree
    assert forall|i: int| 0 <= i < gs1.len() implies (#[trigger] gs1[i]).base@ == gs2[i].base@
        && seq_views(gs1[i].conflicts@) == seq_views(gs2[i].conflicts@) by {
        assert(b1[i] == b2[i]);
        assert(gs1[i].base@ == gs2[i].base@);
        let b = gs1[i].base@;
        assert(group_wf(gs1[i], in1, ih));
        assert(group_wf(gs2[i], in2, ih));
        assert(kept_for(in1, ih, b).to_multiset() == kept_for(in2, ih, b).to_multiset());
        vstd::seq_lib::lemma_sorted_unique(
            seq_views(gs1[i].conflicts@),
            seq_views(gs2[i].conflicts@),
            leq,
        );
    }
}

/// When some group of `gs1` carries base `b`, some group of `gs2` does
/// too, because a kept path inferring `b` must occur in both inputs.
proof fn lemma_base_covered(
    gs1: Seq<GroupPaths>,
    gs2: Seq<GroupPaths>,
    in1: Seq<Seq<char>>,
    in2: Seq<Seq<char>>,
    ih: bool,
    b: Seq<char>,
)
    requires
        grouping_ok(gs1, in1, ih),
        grouping_ok(gs2, in2, ih),
        kept_for(in1, ih, b).to_multiset() == kept_for(in2, ih, b).to_multiset(),
        has_group(gs1, b),
    ensures
        has_group(gs2, b),
{
    broadcast use vstd::seq_lib::group_to_multiset_ensures;
    broadcast use vstd::multiset::group_multiset_axioms;

    let i = choose|i: int| 0 <= i < gs1.len() && (#[trigger] gs1[i]).base@ == b;
    assert(group_wf(gs1[i], in1, ih));
    assert(seq_views(gs1[i].conflicts@).to_multiset().len() == seq_views(
        gs1[i].conflicts@,
    ).len());
    assert(kept_for(in1, ih, b).to_multiset().len() == kept_for(in1, ih, b).len());
    assert(kept_for(in2, ih, b).to_multiset().len() == kept_for(in2, ih, b).len());
    assert(kept_for(in2, ih, b).len() > 0);
    let e = kept_for(in2, ih, b)[0];
    in2.filter_lemma(kept_pred(ih, b));
    assert(kept_pred(ih, b)(e));
    assert(in2.filter(kept_pred(ih, b)).contains(e)) by {
        assert(in2.filter(kept_pred(ih, b))[0] == e);
    }
    in2.lemma_filter_contains_rev(kept_pred(ih, b), e);
    assert(in2.contains(e));
    let t = choose|t: int| 0 <= t < in2.len() && in2[t] == e;
    assert(keep_path(in2[t], ih) && base_of(in2[t]) == b);
    assert(has_group(gs2, base_of(in2[t])));
}

} // verus!

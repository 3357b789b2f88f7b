//! Verified helpers on path strings.
//!
//! Paths are plain strings with `/` as the component separator.  The final
//! component (after the last separator) is the file name; everything before
//! the last separator is the parent directory.  A path without a separator
//! has no parent.

use vstd::prelude::*;

verus! {

/// Index of the last `/` in `s`, or `-1` when there is none.
pub open spec fn last_slash_idx(s: Seq<char>) -> int
    decreases s.len(),
{
    if s.len() == 0 {
        -1
    } else if s[s.len() - 1] == '/' {
        s.len() - 1
    } else {
        last_slash_idx(s.drop_last())
    }
}

pub proof fn lemma_last_slash_idx(s: Seq<char>)
    ensures
        -1 <= last_slash_idx(s) < s.len(),
        last_slash_idx(s) >= 0 ==> s[last_slash_idx(s)] == '/',
        forall|j: int| last_slash_idx(s) < j < s.len() ==> s[j] != '/',
    decreases s.len(),
{
    if s.len() > 0 && s[s.len() - 1] != '/' {
        lemma_last_slash_idx(s.drop_last());
        assert(forall|j: int| 0 <= j < s.len() - 1 ==> s[j] == s.drop_last()[j]);
    }
}

/// Whether the path has a parent directory.
pub open spec fn has_parent(s: Seq<char>) -> bool {
    last_slash_idx(s) >= 0
}

/// The parent directory: everything before the last `/`.
pub open spec fn parent_dir(s: Seq<char>) -> Seq<char> {
    s.take(last_slash_idx(s))
}

/// Start of the file name: just after the last `/`, or `0`.
pub open spec fn name_start(s: Seq<char>) -> int {
    last_slash_idx(s) + 1
}

/// The file name: everything after the last `/`.
pub open spec fn file_name(s: Seq<char>) -> Seq<char> {
    s.skip(name_start(s))
}

/// The directory prefix up to and including the last `/`; empty when the
/// path has no separator.
pub open spec fn dir_prefix(s: Seq<char>) -> Seq<char> {
    s.take(name_start(s))
}

/// The archive directory for a base path: the hidden archive subdirectory
/// of the base's parent directory.
pub open spec fn archive_dir_spec(base: Seq<char>) -> Seq<char> {
    parent_dir(base) + "/.stconflict-archive"@
}

/// A component of the path starts at `i` with the hidden marker `.`.
pub open spec fn hidden_at(s: Seq<char>, i: int) -> bool {
    0 <= i < s.len() && (i == 0 || s[i - 1] == '/') && s[i] == '.'
}

/// Some component of the path starts with `.`.
pub open spec fn hidden_component(s: Seq<char>) -> bool {
    exists|i: int| hidden_at(s, i)
}

/// Index of the last `/` in `p`, if any.
pub fn rfind_slash(p: &str) -> (r: Option<usize>)
    ensures
        r is Some <==> last_slash_idx(p@) >= 0,
        match r {
            Some(i) => i == last_slash_idx(p@),
            None => true,
        },
{
    let n = p.unicode_len();
    let mut k = n;
    while k > 0
        invariant
            k <= n,
            n == p@.len(),
            forall|j: int| k <= j < n ==> p@[j] != '/',
        decreases k,
    {
        k = k - 1;
        if p.get_char(k) == '/' {
            proof {
                lemma_last_slash_idx(p@);
                let li = last_slash_idx(p@);
                assert(li == k) by {
                    if li > k {
                        assert(p@[li] != '/');
                    }
                    if li < k {
                        assert(p@[k as int] != '/');
                    }
                }
            }
            return Some(k);
        }
    }
    proof {
        lemma_last_slash_idx(p@);
        let li = last_slash_idx(p@);
        if li >= 0 {
            assert(p@[li] != '/');
        }
    }
    None
}

/// The file name of `p`: everything after the last `/`.
pub fn file_name_of<'a>(p: &'a str) -> (r: &'a str)
    ensures
        r@ == file_name(p@),
{
    let n = p.unicode_len();
    match rfind_slash(p) {
        Some(i) => {
            proof {
                lemma_last_slash_idx(p@);
                assert(p@.skip(i + 1) =~= p@.subrange(i + 1, n as int));
            }
            p.substring_char(i + 1, n)
        },
        None => {
            proof {
                lemma_last_slash_idx(p@);
                assert(p@.skip(0) =~= p@);
            }
            p
        },
    }
}

/// Whether some component of `p` starts with `.`.
pub fn is_hidden_path(p: &str) -> (r: bool)
    ensures
        r == hidden_component(p@),
{
    let n = p.unicode_len();
    let mut i: usize = 0;
    while i < n
        invariant
            i <= n,
            n == p@.len(),
            forall|j: int| 0 <= j < i ==> !hidden_at(p@, j),
        decreases n - i,
    {
        if p.get_char(i) == '.' {
            if i == 0 {
                proof {
                    assert(hidden_at(p@, 0));
                }
                return true;
            }
            if p.get_char(i - 1) == '/' {
                proof {
                    assert(hidden_at(p@, i as int));
                }
                return true;
            }
        }
        proof {
            assert(!hidden_at(p@, i as int));
        }
        i = i + 1;
    }
    false
}

} // verus!

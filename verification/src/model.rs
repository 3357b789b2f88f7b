//! Data model: one candidate file variant, and one conflict group holding
//! all competing variants of a single logical file.

use vstd::prelude::*;

verus! {

/// One file on disk that is a variant of a logical file.
///
/// `path` is the variant's filesystem path, written with `/` as the
/// separator.  `exists`, `size` and `modified` come from the last stat of
/// that path; a failed stat degrades to `exists == false` and `None`
/// metadata.  `modified` counts milliseconds since the Unix epoch.
#[derive(Clone, Debug)]
pub struct Candidate {
    pub path: String,
    pub exists: bool,
    pub is_original: bool,
    pub size: Option<u64>,
    pub modified: Option<u64>,
    pub label: String,
}

/// The result of stat-ing one path: whether it resolves to a file, and its
/// size and modification time (milliseconds since the Unix epoch) when the
/// stat succeeded.
#[derive(Clone, Copy, Debug)]
pub struct FileStat {
    pub exists: bool,
    pub size: Option<u64>,
    pub modified: Option<u64>,
}

/// One logical file and all of its competing variants.
///
/// `candidates[0]` is the candidate at `base_path` (the original, whether
/// or not it exists on disk), followed by the conflict variants sorted by
/// path.  `chosen` records the operator's decision as an index into
/// `candidates`; `None` means unresolved.
#[derive(Clone, Debug)]
pub struct ConflictGroup {
    pub base_path: String,
    pub candidates: Vec<Candidate>,
    pub chosen: Option<usize>,
}


/// Some candidate has a known modification time.
pub open spec fn has_mtime(cs: Seq<Candidate>) -> bool {
    exists|j: int| 0 <= j < cs.len() && (#[trigger] cs[j]).modified is Some
}

/// `i` is the first index holding the maximum known modification time.
pub open spec fn is_newest_at(cs: Seq<Candidate>, i: int) -> bool {
    &&& 0 <= i < cs.len()
    &&& cs[i].modified is Some
    &&& forall|j: int|
        0 <= j < cs.len() && (#[trigger] cs[j]).modified is Some ==> cs[j].modified->0
            <= cs[i].modified->0
    &&& forall|j: int|
        0 <= j < i && (#[trigger] cs[j]).modified is Some ==> cs[j].modified->0 < cs[i].modified->0
}

/// `i` is the first index holding the minimum known modification time.
pub open spec fn is_oldest_at(cs: Seq<Candidate>, i: int) -> bool {
    &&& 0 <= i < cs.len()
    &&& cs[i].modified is Some
    &&& forall|j: int|
        0 <= j < cs.len() && (#[trigger] cs[j]).modified is Some ==> cs[j].modified->0
            >= cs[i].modified->0
    &&& forall|j: int|
        0 <= j < i && (#[trigger] cs[j]).modified is Some ==> cs[j].modified->0 > cs[i].modified->0
}

impl ConflictGroup {
    /// Index of the first candidate whose modification time is the maximum
    /// among all candidates that have one; `None` when none has one.
    pub fn newest_idx(&self) -> (r: Option<usize>)
        ensures
            r is Some <==> has_mtime(self.candidates@),
            match r {
                Some(i) => is_newest_at(self.candidates@, i as int),
                None => true,
            },
    {
        let mut best: Option<usize> = None;
        let n = self.candidates.len();
        let mut k: usize = 0;
        while k < n
            invariant
                n == self.candidates@.len(),
                k <= n,
                best is Some <==> exists|j: int|
                    0 <= j < k && (#[trigger] self.candidates@[j].modified) is Some,
                match best {
                    Some(i) => {
                        &&& 0 <= i < k
                        &&& self.candidates@[i as int].modified is Some
                        &&& forall|j: int|
                            0 <= j < k && (#[trigger] self.candidates@[j].modified) is Some
                                ==> self.candidates@[j].modified->0
                                    <= self.candidates@[i as int].modified->0
                        &&& forall|j: int|
                            0 <= j < i && (#[trigger] self.candidates@[j].modified) is Some
                                ==> self.candidates@[j].modified->0
                                    < self.candidates@[i as int].modified->0
                    },
                    None => true,
                },
            decreases n - k,
        {
            if let Some(m) = self.candidates[k].modified {
                match best {
                    None => {
                        best = Some(k);
                    },
                    Some(i) => {
                        let bm = self.candidates[i].modified.unwrap();
                        if m > bm {
                            best = Some(k);
                        }
                    },
                }
            }
            k = k + 1;
        }
        best
    }

    /// Index of the first candidate whose modification time is the minimum
    /// among all candidates that have one; `None` when none has one.
    pub fn oldest_idx(&self) -> (r: Option<usize>)
        ensures
            r is Some <==> has_mtime(self.candidates@),
            match r {
                Some(i) => is_oldest_at(self.candidates@, i as int),
                None => true,
            },
    {
        let mut best: Option<usize> = None;
        let n = self.candidates.len();
        let mut k: usize = 0;
        while k < n
            invariant
                n == self.candidates@.len(),
                k <= n,
                best is Some <==> exists|j: int|
                    0 <= j < k && (#[trigger] self.candidates@[j].modified) is Some,
                match best {
                    Some(i) => {
                        &&& 0 <= i < k
                        &&& self.candidates@[i as int].modified is Some
                        &&& forall|j: int|
                            0 <= j < k && (#[trigger] self.candidates@[j].modified) is Some
                                ==> self.candidates@[j].modified->0
                                    >= self.candidates@[i as int].modified->0
                        &&& forall|j: int|
                            0 <= j < i && (#[trigger] self.candidates@[j].modified) is Some
                                ==> self.candidates@[j].modified->0
                                    > self.candidates@[i as int].modified->0
                    },
                    None => true,
                },
            decreases n - k,
        {
            if let Some(m) = self.candidates[k].modified {
                match best {
                    None => {
                        best = Some(k);
                    },
                    Some(i) => {
                        let bm = self.candidates[i].modified.unwrap();
                        if m < bm {
                            best = Some(k);
                        }
                    },
                }
            }
            k = k + 1;
        }
        best
    }
}

} // verus!

//! The process-wide file lock table.
//!
//! Each entry maps a path to its lock: `Write` is exclusive, `Read(n)`
//! counts `n >= 1` concurrent readers.  An entry leaves the table exactly
//! when its count decays to zero or its writer releases.

use vstd::prelude::*;
use crate::types::bytes_eq;

verus! {

/// How a path is locked.
#[derive(Clone, Copy, Debug, PartialEq, Eq, Structural)]
pub enum FileLockMode {
    /// Held by this many concurrent readers.
    Read(u64),
    /// Held exclusively by one writer.
    Write,
}

/// The table's entries as a sequence of `(path, mode)` pairs.
pub open spec fn lock_view(v: Seq<(Vec<u8>, FileLockMode)>) -> Seq<(Seq<u8>, FileLockMode)> {
    Seq::new(v.len(), |i: int| (v[i].0@, v[i].1))
}

/// The first entry with key `k`, if one exists.
pub open spec fn spec_find(s: Seq<(Seq<u8>, FileLockMode)>, k: Seq<u8>) -> Option<int>
    decreases s.len(),
{
    if s.len() == 0 {
        None
    } else if s[0].0 == k {
        Some(0)
    } else {
        match spec_find(s.skip(1), k) {
            Some(i) => Some(i + 1),
            None => None,
        }
    }
}

/// What a found index means: in bounds, the right key, and no earlier
/// entry with it.
pub proof fn lemma_find_props(s: Seq<(Seq<u8>, FileLockMode)>, k: Seq<u8>, i: int)
    requires
        spec_find(s, k) == Some(i),
    ensures
        0 <= i < s.len(),
        s[i].0 == k,
        forall|j: int| 0 <= j < i ==> (#[trigger] s[j]).0 != k,
    decreases s.len(),
{
    if s.len() > 0 && s[0].0 != k {
        lemma_find_props(s.skip(1), k, i - 1);
        assert forall|j: int| 0 <= j < i implies (#[trigger] s[j]).0 != k by {
            if j > 0 {
                assert(s.skip(1)[j - 1].0 != k);
            }
        }
    }
}

/// An entry with key `k` at `i`, none earlier, is what `spec_find` finds.
pub proof fn lemma_find_at(s: Seq<(Seq<u8>, FileLockMode)>, k: Seq<u8>, i: int)
    requires
        0 <= i < s.len(),
        s[i].0 == k,
        forall|j: int| 0 <= j < i ==> (#[trigger] s[j]).0 != k,
    ensures
        spec_find(s, k) == Some(i),
    decreases i,
{
    if i > 0 {
        lemma_find_at(s.skip(1), k, i - 1);
    }
}

/// A sequence without key `k` has nothing to find.
pub proof fn lemma_find_none(s: Seq<(Seq<u8>, FileLockMode)>, k: Seq<u8>)
    requires
        forall|j: int| 0 <= j < s.len() ==> (#[trigger] s[j]).0 != k,
    ensures
        spec_find(s, k).is_none(),
    decreases s.len(),
{
    if s.len() > 0 {
        lemma_find_none(s.skip(1), k);
    }
}

/// What acquiring a lock yields: a new entry for an unlocked path, an
/// incremented count when readers meet a reader, and `None` on any
/// conflict.
pub open spec fn spec_acquire(
    s: Seq<(Seq<u8>, FileLockMode)>,
    k: Seq<u8>,
    mode: FileLockMode,
) -> Option<Seq<(Seq<u8>, FileLockMode)>> {
    match spec_find(s, k) {
        None => Some(s.push((k, mode))),
        Some(i) => match (mode, s[i].1) {
            (FileLockMode::Read(_), FileLockMode::Read(n)) => if n < u64::MAX {
                Some(s.update(i, (k, FileLockMode::Read((n + 1) as u64))))
            } else {
                None
            },
            _ => None,
        },
    }
}

/// What releasing a lock yields: a reader count decays by one, the entry
/// leaves at zero or when a writer releases, an absent path changes
/// nothing.
pub open spec fn spec_release(s: Seq<(Seq<u8>, FileLockMode)>, k: Seq<u8>) -> Seq<
    (Seq<u8>, FileLockMode),
> {
    match spec_find(s, k) {
        None => s,
        Some(i) => match s[i].1 {
            FileLockMode::Read(n) => if n <= 1 {
                s.remove(i)
            } else {
                s.update(i, (k, FileLockMode::Read((n - 1) as u64)))
            },
            FileLockMode::Write => s.remove(i),
        },
    }
}

/// The process-wide lock table.
pub struct FileLockTable {
    pub entries: Vec<(Vec<u8>, FileLockMode)>,
}

impl FileLockTable {
    /// Paths are unique and every reader count is at least one.
    pub open spec fn wf(self) -> bool {
        &&& forall|i: int, j: int|
            0 <= i < j < self.entries@.len() ==> (#[trigger] self.entries@[i]).0@ != (
            #[trigger] self.entries@[j]).0@
        &&& forall|i: int|
            0 <= i < self.entries@.len() ==> ((#[trigger] self.entries@[i]).1 matches
                FileLockMode::Read(n) ==> n >= 1)
    }

    /// The table's entries as `(path, mode)` pairs.
    pub open spec fn view_seq(self) -> Seq<(Seq<u8>, FileLockMode)> {
        lock_view(self.entries@)
    }

    /// An empty table.
    pub fn new() -> (r: FileLockTable)
        ensures
            r.wf(),
            r.view_seq() =~= Seq::<(Seq<u8>, FileLockMode)>::empty(),
    {
        FileLockTable { entries: Vec::new() }
    }

    /// How many paths are locked.
    pub fn len(&self) -> (r: usize)
        ensures
            r == self.view_seq().len(),
    {
        self.entries.len()
    }

    /// Whether no path is locked.
    pub fn is_empty(&self) -> (r: bool)
        ensures
            r == (self.view_seq().len() == 0),
    {
        self.entries.len() == 0
    }

    /// The first entry with the given path, if one exists.
    fn find(&self, path: &[u8]) -> (r: Option<usize>)
        ensures
            match r {
                Some(i) => spec_find(self.view_seq(), path@) == Some(i as int),
                None => spec_find(self.view_seq(), path@).is_none(),
            },
    {
        let n = self.entries.len();
        let mut i: usize = 0;
        while i < n
            invariant
                i <= n,
                n == self.entries@.len(),
                forall|j: int| 0 <= j < i ==> (#[trigger] self.view_seq()[j]).0 != path@,
            decreases n - i,
        {
            let e = vstd::std_specs::vec::vec_index(&self.entries, i);
            if bytes_eq(e.0.as_slice(), path) {
                proof {
                    assert(self.view_seq()[i as int].0 == path@);
                    lemma_find_at(self.view_seq(), path@, i as int);
                }
                return Some(i);
            }
            proof {
                assert(self.view_seq()[i as int].0 != path@);
            }
            i = i + 1;
        }
        proof {
            lemma_find_none(self.view_seq(), path@);
        }
        None
    }

    /// Try to lock `path` in `mode`.  Succeeds for an unlocked path, or
    /// when one more reader joins other readers; any other combination is
    /// a conflict and leaves the table as it was.
    pub fn check_lock_file(&mut self, path: &[u8], mode: FileLockMode) -> (r: bool)
        requires
            old(self).wf(),
            mode matches FileLockMode::Read(n) ==> n >= 1,
        ensures
            final(self).wf(),
            r == spec_acquire(old(self).view_seq(), path@, mode).is_some(),
            r ==> final(self).view_seq() == spec_acquire(
                old(self).view_seq(),
                path@,
                mode,
            ).unwrap(),
            !r ==> *final(self) == *old(self),
    {
        let ghost s0 = self.view_seq();
        match self.find(path) {
            Some(i) => {
                proof {
                    lemma_find_props(s0, path@, i as int);
                }
                let cur = vstd::std_specs::vec::vec_index(&self.entries, i).1;
                match (mode, cur) {
                    (FileLockMode::Read(_), FileLockMode::Read(n)) => {
                        if n < u64::MAX {
                            let owned_path = vstd::slice::slice_to_vec(path);
                            self.entries.set(i, (owned_path, FileLockMode::Read(n + 1)));
                            proof {
                                assert(self.view_seq() =~= s0.update(
                                    i as int,
                                    (path@, FileLockMode::Read((n + 1) as u64)),
                                ));
                            }
                            true
                        } else {
                            false
                        }
                    },
                    _ => {
                        false
                    },
                }
            },
            None => {
                let owned_path = vstd::slice::slice_to_vec(path);
                self.entries.push((owned_path, mode));
                proof {
                    assert(self.view_seq() =~= s0.push((path@, mode)));
                    assert forall|i: int, j: int|
                        0 <= i < j < self.entries@.len() implies (
                    #[trigger] self.entries@[i]).0@ != (#[trigger] self.entries@[j]).0@ by {
                        if j == self.entries@.len() - 1 {
                            lemma_find_none_key(s0, path@, i);
                        }
                    }
                }
                true
            },
        }
    }

    /// Release one hold on `path`: a reader count decays by one, the
    /// entry leaves the table at zero or when a writer releases.
    /// Releasing an unlocked path changes nothing.
    pub fn unlock_file(&mut self, path: &[u8])
        requires
            old(self).wf(),
        ensures
            final(self).wf(),
            final(self).view_seq() == spec_release(old(self).view_seq(), path@),
    {
        let ghost s0 = self.view_seq();
        match self.find(path) {
            Some(i) => {
                proof {
                    lemma_find_props(s0, path@, i as int);
                }
                let cur = vstd::std_specs::vec::vec_index(&self.entries, i).1;
                match cur {
                    FileLockMode::Read(n) => {
                        if n <= 1 {
                            self.entries.remove(i);
                            proof {
                                assert(self.view_seq() =~= s0.remove(i as int));
                                lemma_wf_remove(s0, *old(self), *self, i as int);
                            }
                        } else {
                            let owned_path = vstd::slice::slice_to_vec(path);
                            self.entries.set(i, (owned_path, FileLockMode::Read(n - 1)));
                            proof {
                                assert(self.view_seq() =~= s0.update(
                                    i as int,
                                    (path@, FileLockMode::Read((n - 1) as u64)),
                                ));
                            }
                        }
                    },
                    FileLockMode::Write => {
                        self.entries.remove(i);
                        proof {
                            assert(self.view_seq() =~= s0.remove(i as int));
                            lemma_wf_remove(s0, *old(self), *self, i as int);
                        }
                    },
                }
            },
            None => (),
        }
    }
}

/// A key that `spec_find` misses is on no entry.
proof fn lemma_find_none_key(s: Seq<(Seq<u8>, FileLockMode)>, k: Seq<u8>, i: int)
    requires
        spec_find(s, k).is_none(),
        0 <= i < s.len(),
    ensures
        s[i].0 != k,
    decreases s.len(),
{
    if s.len() > 0 && i > 0 {
        lemma_find_none_key(s.skip(1), k, i - 1);
    }
}

/// Removing an entry keeps the table well formed.
proof fn lemma_wf_remove(
    s0: Seq<(Seq<u8>, FileLockMode)>,
    pre: FileLockTable,
    post: FileLockTable,
    i: int,
)
    requires
        pre.wf(),
        0 <= i < pre.entries@.len(),
        post.entries@ == pre.entries@.remove(i),
    ensures
        post.wf(),
{
    assert forall|a: int, b: int|
        0 <= a < b < post.entries@.len() implies (#[trigger] post.entries@[a]).0@ != (
    #[trigger] post.entries@[b]).0@ by {
        let pa = if a < i {
            a
        } else {
            a + 1
        };
        let pb = if b < i {
            b
        } else {
            b + 1
        };
        assert(post.entries@[a] == pre.entries@[pa]);
        assert(post.entries@[b] == pre.entries@[pb]);
    }
    assert forall|a: int|
        0 <= a < post.entries@.len() implies ((#[trigger] post.entries@[a]).1 matches
        FileLockMode::Read(n) ==> n >= 1) by {
        let pa = if a < i {
            a
        } else {
            a + 1
        };
        assert(post.entries@[a] == pre.entries@[pa]);
    }
}

/// Releasing what a successful acquire took restores the table exactly:
/// on every session-exit path the table returns to its prior state, so a
/// table that starts empty is empty again once every session has exited.
pub proof fn lemma_acquire_release_restores(
    s: Seq<(Seq<u8>, FileLockMode)>,
    k: Seq<u8>,
    mode: FileLockMode,
)
    requires
        spec_acquire(s, k, mode).is_some(),
        mode == FileLockMode::Write || mode == FileLockMode::Read(1),
        forall|i: int|
            0 <= i < s.len() ==> ((#[trigger] s[i]).1 matches FileLockMode::Read(n) ==> n >= 1),
    ensures
        spec_release(spec_acquire(s, k, mode).unwrap(), k) =~= s,
{
    let s2 = spec_acquire(s, k, mode).unwrap();
    match spec_find(s, k) {
        None => {
            // A fresh entry went to the end; release removes exactly it.
            assert(s2 == s.push((k, mode)));
            assert(s2[s.len() as int].0 == k);
            assert forall|j: int| 0 <= j < s.len() implies (#[trigger] s2[j]).0 != k by {
                lemma_find_none_key(s, k, j);
            }
            lemma_find_at(s2, k, s.len() as int);
            assert(s2.remove(s.len() as int) =~= s);
        },
        Some(i) => {
            lemma_find_props(s, k, i);
            match s[i].1 {
                FileLockMode::Read(n) => {
                    // The same entry, its count one higher; release puts
                    // it back.
                    assert(s2 == s.update(i, (k, FileLockMode::Read((n + 1) as u64))));
                    assert(s2[i].0 == k);
                    assert forall|j: int| 0 <= j < i implies (#[trigger] s2[j]).0 != k by {
                        assert(s2[j] == s[j]);
                    }
                    lemma_find_at(s2, k, i);
                    assert(n >= 1);
                    assert(s2.update(i, (k, FileLockMode::Read(n))) =~= s);
                },
                FileLockMode::Write => {
                    assert(false);
                },
            }
        },
    }
}

} // verus!

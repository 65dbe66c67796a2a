//! Host-scoped mutual-exclusion locks.
//!
//! A lock is identified by the pair (hostname, lock name). Its backing
//! resource lives at a path derived deterministically from the pair, so
//! every process on the machine that derives the same path contends on the
//! same resource. The model of who holds what is a set of held paths with
//! verified acquire and release transitions; the I/O layer mirrors each
//! transition onto an advisory file lock at the derived path.
//!
//! Acquisition is not re-entrant: a flow already holding a pair must not
//! acquire the same pair again; doing so blocks until its own timeout
//! runs out. That is a known limitation, kept rather than papered over
//! with re-entrancy rules of our own.

use vstd::prelude::*;

use crate::strutil::{chars_eq_str, push_decimal, spec_decimal, to_chars};
use vstd::string::StringExecFns;

verus! {

/// Seconds between two attempts while waiting for a lock.
pub const LOCK_POLL_INTERVAL_SECS: u64 = 2;

/// The path of the resource backing the lock of one (hostname, lock name)
/// pair.
pub open spec fn spec_lock_path(hostname: Seq<char>, lock_name: Seq<char>) -> Seq<char> {
    "/tmp/bridge-"@ + hostname + "-"@ + lock_name + ".lock"@
}

/// The path of the resource backing the lock of one (hostname, lock name)
/// pair: `/tmp/bridge-<hostname>-<lockName>.lock`.
pub fn lock_file_path(hostname: &str, lock_name: &str) -> (r: String)
    ensures
        r@ == spec_lock_path(hostname@, lock_name@),
{
    let mut s = String::from_str("/tmp/bridge-");
    s.append(hostname);
    s.append("-");
    s.append(lock_name);
    s.append(".lock");
    proof {
        assert(s@ =~= spec_lock_path(hostname@, lock_name@));
    }
    s
}

/// Two locks under one hostname with different names are backed by
/// different resources, so they never block each other.
pub proof fn lemma_distinct_lock_names_distinct_paths(
    hostname: Seq<char>,
    name1: Seq<char>,
    name2: Seq<char>,
)
    requires
        name1 != name2,
    ensures
        spec_lock_path(hostname, name1) != spec_lock_path(hostname, name2),
{
    let pre = "/tmp/bridge-"@ + hostname + "-"@;
    let suf = ".lock"@;
    let p1 = spec_lock_path(hostname, name1);
    let p2 = spec_lock_path(hostname, name2);
    assert(p1 =~= pre + name1 + suf);
    assert(p2 =~= pre + name2 + suf);
    if p1 == p2 {
        assert(name1.len() == name2.len());
        assert forall|i: int| 0 <= i < name1.len() implies name1[i] == name2[i] by {
            assert((pre + name1 + suf)[pre.len() + i] == name1[i]);
            assert((pre + name2 + suf)[pre.len() + i] == name2[i]);
        }
        assert(name1 =~= name2);
    }
}

/// One acquisition step over the set of held paths: it succeeds exactly
/// when the path is free, and then marks it held.
pub open spec fn spec_try_acquire(held: Set<Seq<char>>, path: Seq<char>) -> (Set<Seq<char>>, bool) {
    if held.contains(path) {
        (held, false)
    } else {
        (held.insert(path), true)
    }
}

/// Acquisition is strictly exclusive: while a path is held a second
/// acquisition of it fails, and only once it is released does an
/// acquisition succeed again.
pub proof fn lemma_lock_mutual_exclusion(held: Set<Seq<char>>, path: Seq<char>)
    ensures
        spec_try_acquire(held, path).1 ==> !spec_try_acquire(
            spec_try_acquire(held, path).0,
            path,
        ).1,
        spec_try_acquire(held.remove(path), path).1,
{
}

/// Acquiring one path neither takes nor frees any other: locks under
/// different paths are independent.
pub proof fn lemma_lock_independence(held: Set<Seq<char>>, path1: Seq<char>, path2: Seq<char>)
    requires
        path1 != path2,
    ensures
        spec_try_acquire(held, path1).0.contains(path2) == held.contains(path2),
        spec_try_acquire(spec_try_acquire(held, path1).0, path2).1 == spec_try_acquire(
            held,
            path2,
        ).1,
{
}

/// The set of paths a table holds.
pub open spec fn set_of_paths(held: Seq<String>) -> Set<Seq<char>> {
    Set::new(|p: Seq<char>| exists|i: int| 0 <= i < held.len() && (#[trigger] held[i])@ == p)
}

/// The machine-wide picture of which lock resources are held. The I/O
/// layer keeps it in step with the advisory file locks it takes and
/// releases.
pub struct LockTable {
    held: Vec<String>,
}

impl View for LockTable {
    type V = Set<Seq<char>>;

    closed spec fn view(&self) -> Set<Seq<char>> {
        set_of_paths(self.held@)
    }
}

impl LockTable {
    #[verifier::type_invariant]
    closed spec fn wf(self) -> bool {
        forall|i: int, j: int|
            0 <= i < j < self.held@.len() ==> (#[trigger] self.held@[i])@ != (
            #[trigger] self.held@[j])@
    }

    /// A table with nothing held.
    pub fn new() -> (r: LockTable)
        ensures
            r@ == Set::<Seq<char>>::empty(),
    {
        let t = LockTable { held: Vec::new() };
        proof {
            assert(t@ =~= Set::<Seq<char>>::empty());
        }
        t
    }

    /// Whether the resource at `path` is held.
    pub fn is_held(&self, path: &str) -> (r: bool)
        ensures
            r == self@.contains(path@),
    {
        let chars = to_chars(path);
        let n = self.held.len();
        let mut i: usize = 0;
        while i < n
            invariant
                n == self.held@.len(),
                chars@ == path@,
                forall|j: int| 0 <= j < i ==> (#[trigger] self.held@[j])@ != path@,
            decreases n - i,
        {
            if chars_eq_str(&chars, self.held[i].as_str()) {
                proof {
                    assert(self@.contains(path@));
                }
                return true;
            }
            i = i + 1;
        }
        proof {
            if self@.contains(path@) {
                let j = choose|j: int| 0 <= j < self.held@.len() && (#[trigger] self.held@[j])@
                    == path@;
                assert(false);
            }
        }
        false
    }

    /// One non-blocking acquisition attempt: it succeeds exactly when the
    /// path is free, and then marks it held.
    pub fn try_acquire(&mut self, path: &str) -> (r: bool)
        ensures
            (final(self)@, r) == spec_try_acquire(old(self)@, path@),
    {
        proof {
            use_type_invariant(&*self);
        }
        if self.is_held(path) {
            return false;
        }
        let ghost h0 = self.held@;
        let mut held: Vec<String> = Vec::new();
        core::mem::swap(&mut held, &mut self.held);
        held.push(String::from_str(path));
        proof {
            assert forall|i: int, j: int| 0 <= i < j < held@.len() implies (#[trigger] held@[i])@
                != (#[trigger] held@[j])@ by {
                if j == held@.len() - 1 {
                    assert(held@[i] == h0[i]);
                    assert(!set_of_paths(h0).contains(path@));
                } else {
                    assert(held@[i] == h0[i] && held@[j] == h0[j]);
                }
            }
            assert(set_of_paths(held@) =~= set_of_paths(h0).insert(path@)) by {
                assert forall|p: Seq<char>| set_of_paths(held@).contains(p) implies set_of_paths(
                    h0,
                ).insert(path@).contains(p) by {
                    let i = choose|i: int| 0 <= i < held@.len() && (#[trigger] held@[i])@ == p;
                    if i < h0.len() {
                        assert(h0[i]@ == p);
                    }
                }
                assert forall|p: Seq<char>|
                    set_of_paths(h0).insert(path@).contains(p) implies set_of_paths(
                    held@,
                ).contains(p) by {
                    if p == path@ {
                        assert(held@[held@.len() - 1]@ == p);
                    } else {
                        let i = choose|i: int| 0 <= i < h0.len() && (#[trigger] h0[i])@ == p;
                        assert(held@[i]@ == p);
                    }
                }
            }
        }
        core::mem::swap(&mut held, &mut self.held);
        true
    }

    /// Release the resource at `path`; anyone waiting on it can then take
    /// it.
    pub fn release(&mut self, path: &str)
        ensures
            final(self)@ == old(self)@.remove(path@),
    {
        proof {
            use_type_invariant(&*self);
        }
        let chars = to_chars(path);
        let ghost h0 = self.held@;
        let mut held: Vec<String> = Vec::new();
        core::mem::swap(&mut held, &mut self.held);
        let n = held.len();
        let mut i: usize = 0;
        while i < n
            invariant
                n == held@.len(),
                i <= n,
                held@ == h0,
                chars@ == path@,
                old(self)@ == set_of_paths(h0),
                forall|a: int, b: int|
                    0 <= a < b < h0.len() ==> (#[trigger] h0[a])@ != (#[trigger] h0[b])@,
                forall|j: int| 0 <= j < i ==> (#[trigger] h0[j])@ != path@,
            decreases n - i,
        {
            if chars_eq_str(&chars, held[i].as_str()) {
                let ghost removed = h0.remove(i as int);
                held.remove(i);
                proof {
                    assert forall|a: int, b: int|
                        0 <= a < b < held@.len() implies (#[trigger] held@[a])@ != (
                    #[trigger] held@[b])@ by {
                        if b < i {
                            assert(held@[a] == h0[a] && held@[b] == h0[b]);
                        } else if a < i {
                            assert(held@[a] == h0[a] && held@[b] == h0[b + 1]);
                        } else {
                            assert(held@[a] == h0[a + 1] && held@[b] == h0[b + 1]);
                        }
                    }
                    assert(set_of_paths(held@) =~= set_of_paths(h0).remove(path@)) by {
                        assert forall|p: Seq<char>|
                            set_of_paths(held@).contains(p) implies set_of_paths(h0).remove(
                            path@,
                        ).contains(p) by {
                            let a = choose|a: int|
                                0 <= a < held@.len() && (#[trigger] held@[a])@ == p;
                            if a < i {
                                assert(h0[a]@ == p);
                                assert(h0[i as int]@ != p);
                            } else {
                                assert(h0[a + 1]@ == p);
                                assert(h0[i as int]@ != p);
                            }
                        }
                        assert forall|p: Seq<char>|
                            set_of_paths(h0).remove(path@).contains(p) implies set_of_paths(
                            held@,
                        ).contains(p) by {
                            let a = choose|a: int| 0 <= a < h0.len() && (#[trigger] h0[a])@ == p;
                            assert(a != i);
                            if a < i {
                                assert(held@[a]@ == p);
                            } else {
                                assert(held@[a - 1]@ == p);
                            }
                        }
                    }
                }
                core::mem::swap(&mut held, &mut self.held);
                return ;
            }
            i = i + 1;
        }
        proof {
            assert(set_of_paths(h0) =~= set_of_paths(h0).remove(path@)) by {
                if set_of_paths(h0).contains(path@) {
                    let j = choose|j: int| 0 <= j < h0.len() && (#[trigger] h0[j])@ == path@;
                    assert(false);
                }
            }
        }
        core::mem::swap(&mut held, &mut self.held);
    }
}

/// Whether a waiter that has already been waiting `elapsed_secs` may try
/// again, or has run out its window.
pub fn lock_wait_should_retry(elapsed_secs: u64, timeout_secs: u64) -> (r: bool)
    ensures
        r == (elapsed_secs < timeout_secs),
{
    elapsed_secs < timeout_secs
}

/// The error of an acquisition that ran out its wait window.
pub struct LockTimeoutError {
    pub hostname: String,
    pub lock_name: String,
    pub timeout_secs: u64,
}

impl LockTimeoutError {
    /// The message the caller reports: it names the lock, the host and the
    /// window.
    pub open spec fn spec_message(&self) -> Seq<char> {
        "Timed out waiting for lock '"@ + self.lock_name@ + "' on "@ + self.hostname@ + " after "@
            + spec_decimal(self.timeout_secs as nat) + "s"@
    }

    /// The message the caller reports: it names the lock, the host and the
    /// window.
    pub fn message(&self) -> (r: String)
        ensures
            r@ == self.spec_message(),
    {
        let mut s = String::from_str("Timed out waiting for lock '");
        s.append(self.lock_name.as_str());
        s.append("' on ");
        s.append(self.hostname.as_str());
        s.append(" after ");
        push_decimal(&mut s, self.timeout_secs);
        s.append("s");
        proof {
            assert(s@ =~= self.spec_message());
        }
        s
    }
}

} // verus!

use vstd::prelude::*;
use vstd::seq_lib::*;

verus! {

/// The set of upstream addresses the proxy balances over: the full configured
/// list, fixed at startup, and the subset currently believed healthy.
///
/// The callers that run concurrently share one pool behind a reader/writer
/// lock; every method here is one critical section of that lock.
pub struct UpstreamPool {
    pub configured: Vec<String>,
    pub healthy: Vec<String>,
}

impl UpstreamPool {
    /// The healthy addresses as a sequence of character sequences.
    pub open spec fn healthy_view(self) -> Seq<Seq<char>> {
        self.healthy@.map_values(|s: String| s@)
    }

    /// The configured addresses as a sequence of character sequences.
    pub open spec fn configured_view(self) -> Seq<Seq<char>> {
        self.configured@.map_values(|s: String| s@)
    }

    /// Well-formed: the configured addresses are distinct strings, every
    /// healthy address is configured, and no address appears twice in the
    /// healthy list.
    pub open spec fn wf(self) -> bool {
        &&& self.configured_view().no_duplicates()
        &&& forall|i: int|
            0 <= i < self.healthy_view().len() ==> self.configured_view().contains(
                #[trigger] self.healthy_view()[i],
            )
        &&& self.healthy_view().no_duplicates()
    }

    /// A pool starts with no address considered healthy: the first health
    /// sweep populates it.
    pub fn new(configured: Vec<String>) -> (pool: UpstreamPool)
        requires
            configured@.map_values(|s: String| s@).no_duplicates(),
        ensures
            pool.wf(),
            pool.configured_view() == configured@.map_values(|s: String| s@),
            pool.healthy_view() == Seq::<Seq<char>>::empty(),
    {
        let pool = UpstreamPool { configured, healthy: Vec::new() };
        proof {
            assert(pool.healthy_view() =~= Seq::<Seq<char>>::empty());
        }
        pool
    }

    /// Whether `addr` is currently in the healthy set.
    pub fn contains_healthy(&self, addr: &String) -> (r: bool)
        ensures
            r == self.healthy_view().contains(addr@),
    {
        let mut i: usize = 0;
        while i < self.healthy.len()
            invariant
                i <= self.healthy.len(),
                forall|j: int| 0 <= j < i ==> self.healthy_view()[j] != addr@,
            decreases self.healthy.len() - i,
        {
            if self.healthy[i].eq(addr) {
                assert(self.healthy_view()[i as int] == addr@);
                return true;
            }
            i += 1;
        }
        false
    }

    /// A copy of the current healthy set, taken under the read lock; the
    /// caller works on the copy while the pool moves on.
    pub fn snapshot(&self) -> (snap: Vec<String>)
        ensures
            snap@.map_values(|s: String| s@) == self.healthy_view(),
            snap.len() == self.healthy.len(),
    {
        let mut snap: Vec<String> = Vec::new();
        let mut i: usize = 0;
        while i < self.healthy.len()
            invariant
                i <= self.healthy.len(),
                snap.len() == i,
                forall|j: int| 0 <= j < i ==> snap@[j]@ == #[trigger] self.healthy_view()[j],
            decreases self.healthy.len() - i,
        {
            snap.push(self.healthy[i].clone());
            i += 1;
        }
        proof {
            assert(snap@.map_values(|s: String| s@) =~= self.healthy_view());
        }
        snap
    }

    /// Insert `addr` into the healthy set if it is not already there
    /// (idempotent, so a concurrent re-add loses nothing).
    pub fn add(&mut self, addr: String)
        requires
            old(self).wf(),
            old(self).configured_view().contains(addr@),
        ensures
            final(self).wf(),
            final(self).configured == old(self).configured,
            old(self).healthy_view().contains(addr@) ==> final(self).healthy_view() == old(
                self,
            ).healthy_view(),
            !old(self).healthy_view().contains(addr@) ==> final(self).healthy_view() == old(
                self,
            ).healthy_view().push(addr@),
            final(self).healthy_view().contains(addr@),
    {
        if !self.contains_healthy(&addr) {
            let ghost before = self.healthy_view();
            proof {
                assert(!before.contains(addr@));
            }
            self.healthy.push(addr);
            proof {
                assert(self.healthy_view() =~= before.push(addr@));
                assert(self.healthy_view()[before.len() as int] == addr@);
            }
        }
    }

    /// Delete `addr` from the healthy set; doing nothing when it is absent is
    /// the intended answer to a concurrent removal, not an error.
    pub fn remove(&mut self, addr: &String)
        requires
            old(self).wf(),
        ensures
            final(self).wf(),
            final(self).configured == old(self).configured,
            final(self).healthy_view() == old(self).healthy_view().remove_value(addr@),
            !final(self).healthy_view().contains(addr@),
            forall|x: Seq<char>|
                x != addr@ ==> (final(self).healthy_view().contains(x) == old(
                    self,
                ).healthy_view().contains(x)),
    {
        let ghost before = self.healthy_view();
        let mut i: usize = 0;
        while i < self.healthy.len() && !self.healthy[i].eq(addr)
            invariant
                i <= self.healthy.len(),
                self.healthy == old(self).healthy,
                self.configured == old(self).configured,
                forall|j: int| 0 <= j < i ==> self.healthy_view()[j] != addr@,
            decreases self.healthy.len() - i,
        {
            i += 1;
        }
        if i < self.healthy.len() {
            assert(before[i as int] == addr@);
            self.healthy.remove(i);
            proof {
                assert(self.healthy_view() =~= before.remove(i as int));
                before.index_of_first_ensures(addr@);
                assert(before.index_of_first(addr@) == Some(i as int));
                lemma_remove_keeps_wf(old(self).configured_view(), before, i as int);
            }
        } else {
            proof {
                assert(!before.contains(addr@));
                assert(before.index_of_first(addr@) is None) by {
                    before.index_of_first_ensures(addr@);
                }
            }
        }
    }

    /// Atomically replace the healthy set with a freshly probed candidate
    /// set: a replace, never a merge, so an address that stopped answering
    /// disappears with this one call.
    pub fn replace(&mut self, candidate: Vec<String>)
        requires
            old(self).wf(),
            candidate@.map_values(|s: String| s@).no_duplicates(),
            forall|i: int|
                0 <= i < candidate@.len() ==> old(self).configured_view().contains(
                    #[trigger] candidate@[i]@,
                ),
        ensures
            final(self).wf(),
            final(self).configured == old(self).configured,
            final(self).healthy_view() == candidate@.map_values(|s: String| s@),
    {
        self.healthy = candidate;
    }
}

/// Removing one entry of a duplicate-free, all-configured healthy list keeps
/// it duplicate-free and all-configured, drops exactly that entry, and leaves
/// membership of every other address unchanged.
proof fn lemma_remove_keeps_wf(conf: Seq<Seq<char>>, h: Seq<Seq<char>>, i: int)
    requires
        h.no_duplicates(),
        0 <= i < h.len(),
        forall|j: int| 0 <= j < h.len() ==> conf.contains(#[trigger] h[j]),
    ensures
        h.remove(i).no_duplicates(),
        forall|j: int| 0 <= j < h.remove(i).len() ==> conf.contains(#[trigger] h.remove(i)[j]),
        !h.remove(i).contains(h[i]),
        forall|x: Seq<char>| x != h[i] ==> (h.remove(i).contains(x) == h.contains(x)),
{
    let r = h.remove(i);
    h.remove_ensures(i);
    assert forall|j: int| 0 <= j < r.len() implies conf.contains(#[trigger] r[j]) by {
        if j < i {
            assert(r[j] == h[j]);
        } else {
            assert(r[j] == h[j + 1]);
        }
    }
    assert(r.no_duplicates()) by {
        assert forall|a: int, b: int| 0 <= a < b < r.len() implies r[a] != r[b] by {
            let a0 = if a < i { a } else { a + 1 };
            let b0 = if b < i { b } else { b + 1 };
            assert(r[a] == h[a0]);
            assert(r[b] == h[b0]);
        }
    }
    assert(!r.contains(h[i])) by {
        assert forall|j: int| 0 <= j < r.len() implies r[j] != h[i] by {
            if j < i {
                assert(r[j] == h[j]);
            } else {
                assert(r[j] == h[j + 1]);
            }
        }
    }
    assert forall|x: Seq<char>| x != h[i] implies (r.contains(x) == h.contains(x)) by {
        if h.contains(x) {
            let k = choose|k: int| 0 <= k < h.len() && h[k] == x;
            if k < i {
                assert(r[k] == x);
            } else {
                assert(r[k - 1] == x);
            }
            assert(r.contains(x));
        }
        if r.contains(x) {
            let k = choose|k: int| 0 <= k < r.len() && r[k] == x;
            if k < i {
                assert(h[k] == x);
            } else {
                assert(h[k + 1] == x);
            }
            assert(h.contains(x));
        }
    }
}

} // verus!

use vstd::prelude::*;

verus! {

/// Length of the sliding window: one minute, in milliseconds.
pub const WINDOW_MILLIS: u64 = 60000;

/// One client's recent request timestamps (milliseconds on a monotone
/// clock), oldest first.
pub struct ClientWindow {
    pub ip: String,
    pub times: Vec<u64>,
}

/// Per-client sliding-window rate limiter, shared by every connection
/// handler behind one mutual-exclusion lock. A limit of 0 disables it.
pub struct RateLimiter {
    pub limit: usize,
    pub entries: Vec<ClientWindow>,
}

/// A timestamp has left the window: it lies more than a full window before
/// `now`.
pub open spec fn is_old(t: u64, now: u64) -> bool {
    now > t + WINDOW_MILLIS
}

/// Lazily prune a client's window: drop the leading timestamps that have
/// left the window, stopping at the first one that has not.
pub open spec fn drop_old(times: Seq<u64>, now: u64) -> Seq<u64>
    decreases times.len(),
{
    if times.len() > 0 && is_old(times[0], now) {
        drop_old(times.drop_first(), now)
    } else {
        times
    }
}

/// Whether a request at `now` is admitted against a pruned window of this
/// client's timestamps.
pub open spec fn admitted(times: Seq<u64>, limit: int, now: u64) -> bool {
    drop_old(times, now).len() < limit
}

/// The client's window after one request at `now`: pruned, and with `now`
/// recorded exactly when the request was admitted.
pub open spec fn times_after(times: Seq<u64>, limit: int, now: u64) -> Seq<u64> {
    let p = drop_old(times, now);
    if p.len() < limit {
        p.push(now)
    } else {
        p
    }
}

/// The stored window of the client with this IP; absent clients have the
/// empty window.
pub open spec fn lookup(entries: Seq<ClientWindow>, ip: Seq<char>) -> Seq<u64>
    decreases entries.len(),
{
    if entries.len() == 0 {
        Seq::empty()
    } else if entries[0].ip@ == ip {
        entries[0].times@
    } else {
        lookup(entries.drop_first(), ip)
    }
}

impl RateLimiter {
    /// The client IPs that have an entry, in insertion order.
    pub open spec fn ips(self) -> Seq<Seq<char>> {
        self.entries@.map_values(|e: ClientWindow| e.ip@)
    }

    /// Well-formed: one entry per client IP.
    pub open spec fn wf(self) -> bool {
        self.ips().no_duplicates()
    }

    /// The window currently stored for `ip`.
    pub open spec fn times_of(self, ip: Seq<char>) -> Seq<u64> {
        lookup(self.entries@, ip)
    }

    /// A fresh limiter: no client has any recorded request.
    pub fn new(limit: usize) -> (rl: RateLimiter)
        ensures
            rl.wf(),
            rl.limit == limit,
            forall|ip: Seq<char>| rl.times_of(ip) == Seq::<u64>::empty(),
    {
        let rl = RateLimiter { limit, entries: Vec::new() };
        proof {
            assert(rl.ips() =~= Seq::<Seq<char>>::empty());
        }
        rl
    }

    /// Classify one request from `client_ip` arriving at `now`. With the
    /// limit disabled everything is admitted and nothing is recorded.
    /// Otherwise the client's window is pruned in place, the request is
    /// admitted exactly when fewer than `limit` timestamps remain, and an
    /// admitted request's `now` is recorded; other clients' windows are
    /// untouched.
    pub fn allow(&mut self, client_ip: &String, now: u64) -> (allowed: bool)
        requires
            old(self).wf(),
        ensures
            final(self).wf(),
            final(self).limit == old(self).limit,
            old(self).limit == 0 ==> allowed && *final(self) == *old(self),
            old(self).limit > 0 ==> allowed == admitted(
                old(self).times_of(client_ip@),
                old(self).limit as int,
                now,
            ),
            old(self).limit > 0 ==> final(self).times_of(client_ip@) == times_after(
                old(self).times_of(client_ip@),
                old(self).limit as int,
                now,
            ),
            forall|x: Seq<char>|
                x != client_ip@ ==> final(self).times_of(x) == old(self).times_of(x),
    {
        if self.limit == 0 {
            return true;
        }
        let ghost entries0 = self.entries@;
        let mut idx: usize = 0;
        let n = self.entries.len();
        while idx < n && !self.entries[idx].ip.eq(client_ip)
            invariant
                idx <= n,
                n == self.entries.len(),
                self.entries@ == entries0,
                forall|j: int| 0 <= j < idx ==> entries0[j].ip@ != client_ip@,
            decreases n - idx,
        {
            idx += 1;
        }
        if idx < n {
            let ghost stored = entries0[idx as int].times@;
            proof {
                assert(entries0[idx as int].ip@ == client_ip@);
                assert forall|k: int| 0 <= k < idx implies entries0[k].ip@
                    != entries0[idx as int].ip@ by {}
                lemma_lookup_at(entries0, idx as int);
                assert(old(self).times_of(client_ip@) == stored);
            }
            let mut times = self.entries[idx].times.clone();
            proof {
                assert(times@ =~= stored);
            }
            prune(&mut times, now);
            let allowed: bool = times.len() < self.limit;
            if allowed {
                times.push(now);
            }
            let entry = ClientWindow { ip: client_ip.clone(), times };
            let ghost e = entry;
            self.entries[idx] = entry;
            proof {
                assert(self.entries@ == entries0.update(idx as int, e));
                assert(self.ips() =~= old(self).ips());
                lemma_lookup_at(self.entries@, idx as int);
                assert(self.times_of(client_ip@) == e.times@);
                assert(e.times@ == times_after(stored, self.limit as int, now));
                assert forall|x: Seq<char>| x != client_ip@ implies self.times_of(x) == old(
                    self,
                ).times_of(x) by {
                    lemma_lookup_update_other(entries0, idx as int, e, x);
                }
            }
            allowed
        } else {
            proof {
                lemma_lookup_absent(entries0, client_ip@);
                assert(old(self).times_of(client_ip@) == Seq::<u64>::empty());
                assert(drop_old(Seq::<u64>::empty(), now) == Seq::<u64>::empty());
            }
            let mut times: Vec<u64> = Vec::new();
            times.push(now);
            let entry = ClientWindow { ip: client_ip.clone(), times };
            let ghost e = entry;
            self.entries.push(entry);
            proof {
                assert(self.entries@ == entries0.push(e));
                assert(self.ips() =~= old(self).ips().push(client_ip@));
                assert forall|k: int| 0 <= k < entries0.len() implies entries0[k].ip@
                    != client_ip@ by {}
                assert(self.wf()) by {
                    assert forall|a: int, b: int|
                        0 <= a < b < self.ips().len() implies self.ips()[a] != self.ips()[b] by {
                        if b < entries0.len() {
                            assert(old(self).ips()[a] != old(self).ips()[b]);
                        } else {
                            assert(self.ips()[b] == client_ip@);
                            assert(self.ips()[a] == entries0[a].ip@);
                        }
                    }
                }
                lemma_lookup_at(self.entries@, entries0.len() as int);
                assert(self.times_of(client_ip@) == e.times@);
                assert(e.times@ =~= Seq::<u64>::empty().push(now));
                assert forall|x: Seq<char>| x != client_ip@ implies self.times_of(x) == old(
                    self,
                ).times_of(x) by {
                    lemma_lookup_push_other(entries0, e, x);
                }
            }
            true
        }
    }
}

/// One client's stored window after a whole run of its requests, oldest call
/// first: the fold of the per-request transition that `allow` performs, for
/// a client that starts with no recorded request.
pub open spec fn window_fold(limit: int, nows: Seq<u64>) -> Seq<u64>
    decreases nows.len(),
{
    if nows.len() == 0 {
        Seq::empty()
    } else {
        times_after(window_fold(limit, nows.drop_last()), limit, nows.last())
    }
}

/// Whether the i-th request of such a run is admitted.
pub open spec fn allowed_at(limit: int, nows: Seq<u64>, i: int) -> bool {
    admitted(window_fold(limit, nows.take(i)), limit, nows[i])
}

/// Shape of the window during a burst: while every request of the run lies
/// within one window of the first, the stored window after k requests holds
/// the first min(k, limit) timestamps.
proof fn lemma_burst_fold(limit: int, nows: Seq<u64>, k: int)
    requires
        1 <= limit,
        0 <= k <= nows.len(),
        forall|i: int, j: int| 0 <= i <= j < nows.len() ==> nows[i] <= nows[j],
        nows.len() > 0 ==> nows.last() <= nows.first() + WINDOW_MILLIS,
    ensures
        window_fold(limit, nows.take(k)) == nows.take(
            if k < limit {
                k
            } else {
                limit
            },
        ),
    decreases k,
{
    if k > 0 {
        lemma_burst_fold(limit, nows, k - 1);
        let w = window_fold(limit, nows.take(k - 1));
        let t = nows.take(k);
        assert(t.drop_last() =~= nows.take(k - 1));
        assert(t.last() == nows[k - 1]);
        assert(window_fold(limit, t) == times_after(w, limit, nows[k - 1]));
        if w.len() > 0 {
            assert(w[0] == nows[0]);
            assert(nows[k - 1] <= nows.last());
            assert(!is_old(w[0], nows[k - 1]));
        }
        assert(drop_old(w, nows[k - 1]) == w);
        if k - 1 < limit {
            assert(times_after(w, limit, nows[k - 1]) == w.push(nows[k - 1]));
            assert(nows.take(k - 1).push(nows[k - 1]) =~= nows.take(k));
            if k < limit {
            } else {
                assert(k == limit);
            }
        } else {
            assert(w.len() == limit);
        }
    } else {
        assert(nows.take(0) =~= Seq::<u64>::empty());
    }
}

/// Sliding-window burst: in a run of requests from one fresh client whose
/// timestamps are non-decreasing and all lie within one window of the first,
/// exactly the first `limit` requests are admitted and every later one is
/// rejected.
pub proof fn lemma_burst_admits_first_n(limit: int, nows: Seq<u64>)
    requires
        1 <= limit,
        forall|i: int, j: int| 0 <= i <= j < nows.len() ==> nows[i] <= nows[j],
        nows.len() > 0 ==> nows.last() <= nows.first() + WINDOW_MILLIS,
    ensures
        forall|i: int| 0 <= i < nows.len() ==> (allowed_at(limit, nows, i) <==> i < limit),
{
    assert forall|i: int| 0 <= i < nows.len() implies (allowed_at(limit, nows, i) <==> i
        < limit) by {
        lemma_burst_fold(limit, nows, i);
        let w = window_fold(limit, nows.take(i));
        if w.len() > 0 {
            assert(w[0] == nows[0]);
            assert(nows[i] <= nows.last());
            assert(!is_old(w[0], nows[i]));
        }
        assert(drop_old(w, nows[i]) == w);
        if i < limit {
            assert(w.len() == i);
        } else {
            assert(w.len() == limit);
        }
    }
}

/// Every timestamp of `times` has left the window: pruning empties it.
proof fn lemma_drop_old_all(times: Seq<u64>, now: u64)
    requires
        forall|j: int| 0 <= j < times.len() ==> is_old(#[trigger] times[j], now),
    ensures
        drop_old(times, now) == Seq::<u64>::empty(),
    decreases times.len(),
{
    if times.len() > 0 {
        assert(is_old(times[0], now));
        let rest = times.drop_first();
        assert forall|j: int| 0 <= j < rest.len() implies is_old(#[trigger] rest[j], now) by {
            assert(rest[j] == times[j + 1]);
        }
        lemma_drop_old_all(rest, now);
    }
}

/// The window drains completely: after a burst, once a full window passes
/// with no request from the client, its next request is admitted again.
pub proof fn lemma_window_drains(limit: int, nows: Seq<u64>, later: u64)
    requires
        1 <= limit,
        forall|i: int, j: int| 0 <= i <= j < nows.len() ==> nows[i] <= nows[j],
        nows.len() > 0 ==> nows.last() <= nows.first() + WINDOW_MILLIS,
        forall|j: int| 0 <= j < nows.len() ==> #[trigger] nows[j] + WINDOW_MILLIS < later,
    ensures
        admitted(window_fold(limit, nows), limit, later),
{
    lemma_burst_fold(limit, nows, nows.len() as int);
    assert(nows.take(nows.len() as int) =~= nows);
    let w = window_fold(limit, nows);
    let bound = if nows.len() < limit {
        nows.len() as int
    } else {
        limit
    };
    assert(w == nows.take(bound));
    assert forall|j: int| 0 <= j < w.len() implies is_old(#[trigger] w[j], later) by {
        assert(w[j] == nows[j]);
    }
    lemma_drop_old_all(w, later);
}

/// Drop the leading timestamps of `times` that have left the window ending
/// at `now`.
fn prune(times: &mut Vec<u64>, now: u64)
    ensures
        final(times)@ == drop_old(old(times)@, now),
{
    while times.len() > 0 && times[0] < now && now - times[0] > WINDOW_MILLIS
        invariant
            drop_old(times@, now) == drop_old(old(times)@, now),
        decreases times.len(),
    {
        let ghost before = times@;
        times.remove(0);
        proof {
            assert(times@ =~= before.drop_first());
            assert(is_old(before[0], now));
        }
    }
    proof {
        if times.len() > 0 {
            assert(!is_old(times@[0], now));
        }
    }
}

/// In a limiter with one entry per IP, the entry at index `j` is what lookup
/// of its IP finds.
proof fn lemma_lookup_at(entries: Seq<ClientWindow>, j: int)
    requires
        0 <= j < entries.len(),
        forall|k: int| 0 <= k < j ==> entries[k].ip@ != entries[j].ip@,
    ensures
        lookup(entries, entries[j].ip@) == entries[j].times@,
    decreases j,
{
    if j > 0 {
        let rest = entries.drop_first();
        assert forall|k: int| 0 <= k < j - 1 implies #[trigger] rest[k].ip@ != rest[j - 1].ip@ by {
            assert(rest[k] == entries[k + 1]);
            assert(rest[j - 1] == entries[j]);
        }
        lemma_lookup_at(rest, j - 1);
        assert(rest[j - 1] == entries[j]);
    }
}

/// Lookup of an IP that no entry holds finds the empty window.
proof fn lemma_lookup_absent(entries: Seq<ClientWindow>, ip: Seq<char>)
    requires
        forall|k: int| 0 <= k < entries.len() ==> entries[k].ip@ != ip,
    ensures
        lookup(entries, ip) == Seq::<u64>::empty(),
    decreases entries.len(),
{
    if entries.len() > 0 {
        let rest = entries.drop_first();
        assert forall|k: int| 0 <= k < rest.len() implies rest[k].ip@ != ip by {
            assert(rest[k] == entries[k + 1]);
        }
        lemma_lookup_absent(rest, ip);
    }
}

/// Replacing entry `j` leaves lookup of every other IP unchanged.
proof fn lemma_lookup_update_other(entries: Seq<ClientWindow>, j: int, e: ClientWindow, x: Seq<char>)
    requires
        0 <= j < entries.len(),
        x != entries[j].ip@,
        x != e.ip@,
    ensures
        lookup(entries.update(j, e), x) == lookup(entries, x),
    decreases entries.len(),
{
    let upd = entries.update(j, e);
    if j == 0 {
        assert(upd.drop_first() =~= entries.drop_first());
    } else {
        assert(upd[0] == entries[0]);
        if entries[0].ip@ != x {
            assert(upd.drop_first() =~= entries.drop_first().update(j - 1, e));
            lemma_lookup_update_other(entries.drop_first(), j - 1, e, x);
        }
    }
}

/// Appending an entry for a new IP leaves lookup of every other IP
/// unchanged.
proof fn lemma_lookup_push_other(entries: Seq<ClientWindow>, e: ClientWindow, x: Seq<char>)
    requires
        x != e.ip@,
    ensures
        lookup(entries.push(e), x) == lookup(entries, x),
    decreases entries.len(),
{
    let p = entries.push(e);
    if entries.len() == 0 {
        assert(p[0] == e);
        assert(p.drop_first() =~= Seq::<ClientWindow>::empty());
        assert(lookup(p, x) == lookup(p.drop_first(), x));
        assert(lookup(p.drop_first(), x) == Seq::<u64>::empty());
        assert(lookup(entries, x) == Seq::<u64>::empty());
    } else {
        assert(p[0] == entries[0]);
        if entries[0].ip@ != x {
            assert(p.drop_first() =~= entries.drop_first().push(e));
            lemma_lookup_push_other(entries.drop_first(), e, x);
        }
    }
}

} // verus!

use vstd::prelude::*;
use crate::pool::UpstreamPool;

verus! {

#[verifier::external_type_specification]
#[verifier::external_body]
pub struct ExStdRng(rand::rngs::StdRng);

/// Relies on rand's SeedableRng::from_entropy: a fresh generator seeded from
/// the operating system's entropy source. Nothing is promised of its output;
/// the call panics only if that source itself fails.
#[verifier::external_body]
fn fresh_rng() -> rand::rngs::StdRng {
    rand::SeedableRng::from_entropy()
}

/// Relies on rand's Rng::gen_range over the half-open range 0..n, which is
/// defined for a non-empty range and returns a value strictly below n.
#[verifier::external_body]
fn rng_below(rng: &mut rand::rngs::StdRng, n: usize) -> (r: usize)
    requires
        n > 0,
    ensures
        r < n,
{
    rand::Rng::gen_range(rng, 0..n)
}

/// Draw one address uniformly at random from the current healthy set, or
/// report that none exists (the caller then backs off and retries).
pub fn pick_upstream(pool: &UpstreamPool) -> (picked: Option<String>)
    ensures
        (picked is None) <==> pool.healthy_view().len() == 0,
        picked matches Some(a) ==> pool.healthy_view().contains(a@),
{
    if pool.healthy.len() == 0 {
        None
    } else {
        let mut rng = fresh_rng();
        let i = rng_below(&mut rng, pool.healthy.len());
        let addr = pool.healthy[i].clone();
        assert(pool.healthy_view()[i as int] == addr@);
        Some(addr)
    }
}

/// One in-flight `acquire` call: which connection attempt it is on, or how it
/// ended.
pub enum AcquireState {
    /// No attempt yet; with an empty healthy set the caller sleeps and
    /// returns here.
    Choosing,
    /// Connecting to the first randomly drawn address.
    FirstAttempt { addr: String },
    /// The first address failed and was demoted; connecting to the single
    /// alternate.
    SecondAttempt { addr: String },
    /// A connection to `addr` is established.
    Connected { addr: String },
    /// Both attempts failed, or no alternate existed: the caller answers 502.
    Unavailable,
}

/// What one connection attempt did.
pub enum ConnectOutcome {
    Connected,
    Refused,
}

/// Everything one `acquire_step` call may do, as a relation between the pool
/// and state before and after.
pub open spec fn acquire_step_rel(
    pre: UpstreamPool,
    st: AcquireState,
    oc: ConnectOutcome,
    post: UpstreamPool,
    st2: AcquireState,
) -> bool {
    &&& post.configured == pre.configured
    &&& (st matches AcquireState::FirstAttempt { addr } ==> match oc {
        ConnectOutcome::Connected => {
            &&& st2 == AcquireState::Connected { addr }
            &&& post.healthy_view() == pre.healthy_view()
        },
        ConnectOutcome::Refused => {
            &&& post.healthy_view() == pre.healthy_view().remove_value(addr@)
            &&& !post.healthy_view().contains(addr@)
            &&& (st2 is SecondAttempt || st2 is Unavailable)
            &&& (st2 matches AcquireState::SecondAttempt { addr: next } ==> {
                &&& post.healthy_view().contains(next@)
                &&& next@ != addr@
                &&& pre.healthy_view().contains(next@)
            })
            &&& (st2 is Unavailable ==> post.healthy_view().len() == 0)
        },
    })
    &&& (st matches AcquireState::SecondAttempt { addr } ==> {
        &&& post.healthy_view() == pre.healthy_view()
        &&& match oc {
            ConnectOutcome::Connected => st2 == AcquireState::Connected { addr },
            ConnectOutcome::Refused => st2 is Unavailable,
        }
    })
}

/// Everything one `acquire_begin` call may hand back for a given pool.
pub open spec fn acquire_begin_rel(pool: UpstreamPool, st: AcquireState) -> bool {
    &&& (pool.healthy_view().len() == 0 <==> st is Choosing)
    &&& (pool.healthy_view().len() > 0 <==> st is FirstAttempt)
    &&& (st matches AcquireState::FirstAttempt { addr } ==> pool.healthy_view().contains(addr@))
}

/// Begin one `acquire` call. With no healthy upstream the state stays
/// `Choosing` and the caller sleeps a fixed backoff before calling again;
/// otherwise the first attempt's address is drawn at random from the healthy
/// set.
pub fn acquire_begin(pool: &UpstreamPool) -> (st: AcquireState)
    ensures
        acquire_begin_rel(*pool, st),
        pool.healthy_view().len() == 0 ==> st is Choosing,
        pool.healthy_view().len() > 0 ==> st is FirstAttempt,
        st matches AcquireState::FirstAttempt { addr } ==> pool.healthy_view().contains(addr@),
{
    match pick_upstream(pool) {
        Some(addr) => AcquireState::FirstAttempt { addr },
        None => AcquireState::Choosing,
    }
}

/// Advance one `acquire` call after a connection attempt. A refused first
/// attempt demotes that address at once and draws the single alternate; a
/// refused second attempt gives up, so one call never tries more than two
/// addresses.
pub fn acquire_step(pool: &mut UpstreamPool, st: AcquireState, oc: ConnectOutcome) -> (st2:
    AcquireState)
    requires
        old(pool).wf(),
        st is FirstAttempt || st is SecondAttempt,
    ensures
        final(pool).wf(),
        acquire_step_rel(*old(pool), st, oc, *final(pool), st2),
{
    match (st, oc) {
        (AcquireState::FirstAttempt { addr }, ConnectOutcome::Connected) => {
            AcquireState::Connected { addr }
        },
        (AcquireState::FirstAttempt { addr }, ConnectOutcome::Refused) => {
            pool.remove(&addr);
            match pick_upstream(pool) {
                Some(next) => {
                    let ghost demoted = pool.healthy_view();
                    pool.add(next.clone());
                    proof {
                        if !demoted.contains(next@) {
                            assert(false);
                        }
                        assert(pool.healthy_view() == demoted);
                    }
                    AcquireState::SecondAttempt { addr: next }
                },
                None => AcquireState::Unavailable,
            }
        },
        (AcquireState::SecondAttempt { addr }, ConnectOutcome::Connected) => {
            AcquireState::Connected { addr }
        },
        (AcquireState::SecondAttempt { addr: _ }, ConnectOutcome::Refused) => {
            AcquireState::Unavailable
        },
        (other, _) => other,
    }
}

/// Failover goes exactly one level deep. After the first attempt's address is
/// refused, that address is out of the healthy set the moment the step
/// returns, and the step hands back at most one alternate, which is a
/// different address that was healthy when the call began. A refusal of the
/// alternate ends the call as `Unavailable` and touches nothing: no third
/// attempt exists.
pub proof fn lemma_failover_depth_one(
    pre: UpstreamPool,
    first: String,
    post: UpstreamPool,
    st2: AcquireState,
    pre2: UpstreamPool,
    second: String,
    post2: UpstreamPool,
    st3: AcquireState,
)
    requires
        acquire_step_rel(
            pre,
            AcquireState::FirstAttempt { addr: first },
            ConnectOutcome::Refused,
            post,
            st2,
        ),
        acquire_step_rel(
            pre2,
            AcquireState::SecondAttempt { addr: second },
            ConnectOutcome::Refused,
            post2,
            st3,
        ),
    ensures
        post.healthy_view() == pre.healthy_view().remove_value(first@),
        !post.healthy_view().contains(first@),
        !(st2 is FirstAttempt),
        !(st2 is Connected),
        (st2 matches AcquireState::SecondAttempt { addr: next } ==> next@ != first@
            && pre.healthy_view().contains(next@)),
        st3 is Unavailable,
        post2.healthy_view() == pre2.healthy_view(),
{
}

/// While no upstream is healthy, every backoff retry of an `acquire` call
/// comes back empty-handed: however often the pool is polled, no poll yields
/// a connection attempt, so a driver that bounds its retries exhausts them
/// without an attempt and ends the call unavailable — answered to the client
/// with the one 502 of `STATUS_BAD_GATEWAY` before any request is read —
/// while an unbounded driver keeps sleeping, which the design accepts.
pub proof fn lemma_empty_pool_never_yields_an_attempt(
    pool: UpstreamPool,
    polls: Seq<AcquireState>,
)
    requires
        pool.healthy_view().len() == 0,
        forall|i: int| 0 <= i < polls.len() ==> acquire_begin_rel(pool, #[trigger] polls[i]),
    ensures
        forall|i: int| 0 <= i < polls.len() ==> (#[trigger] polls[i]) is Choosing,
{
}

/// Every address an `acquire` call connects to was a member of a healthy-set
/// snapshot taken during that very call. The run starts with `acquire_begin`
/// handing out `first` from the healthy set `p0` it saw; each later state
/// comes from an `acquire_step`. The first attempt's address is in the
/// snapshot at the call's start, and the alternate is in the snapshot as it
/// stands right after the demotion, whichever of the two ends up connected.
pub proof fn lemma_connected_addr_was_snapshotted(
    p0: UpstreamPool,
    first: String,
    oc1: ConnectOutcome,
    p1: UpstreamPool,
    st2: AcquireState,
    oc2: ConnectOutcome,
    p2: UpstreamPool,
    st3: AcquireState,
)
    requires
        p0.healthy_view().contains(first@),
        acquire_step_rel(p0, AcquireState::FirstAttempt { addr: first }, oc1, p1, st2),
        st2 is SecondAttempt ==> acquire_step_rel(p1, st2, oc2, p2, st3),
    ensures
        (st2 matches AcquireState::Connected { addr } ==> p0.healthy_view().contains(addr@)),
        (st2 matches AcquireState::SecondAttempt { addr } ==> p1.healthy_view().contains(addr@)),
        st2 is SecondAttempt ==> (st3 matches AcquireState::Connected { addr }
            ==> p1.healthy_view().contains(addr@)),
{
}

} // verus!

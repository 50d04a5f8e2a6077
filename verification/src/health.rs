use vstd::prelude::*;
use crate::pool::UpstreamPool;

verus! {

/// How one active probe of one configured address ended. The caller opens a
/// connection, sends a GET to the health-check path with a Host header naming
/// the address, and reads the response; each way that can go wrong is a
/// variant here, and none of them is fatal to the checker.
pub enum ProbeOutcome {
    /// The connection could not be opened.
    ConnectFailed,
    /// The probe request could not be written.
    SendFailed,
    /// The response could not be read or parsed.
    ReadFailed,
    /// A well-formed response with this status code came back.
    Responded { status: u16 },
}

/// An address stays in the healthy set for the coming interval exactly when
/// its probe came back as a response with status 200.
pub open spec fn outcome_admits(oc: ProbeOutcome) -> bool {
    oc matches ProbeOutcome::Responded { status } && status == 200
}

/// Runtime check of `outcome_admits`.
pub fn admits(oc: &ProbeOutcome) -> (b: bool)
    ensures
        b == outcome_admits(*oc),
{
    match oc {
        ProbeOutcome::Responded { status } => *status == 200,
        _ => false,
    }
}

/// The candidate healthy set one sweep builds: the configured addresses whose
/// probe admitted them, kept in configured order.
pub open spec fn candidate_of(conf: Seq<Seq<char>>, ocs: Seq<ProbeOutcome>) -> Seq<Seq<char>>
    recommends
        conf.len() == ocs.len(),
    decreases conf.len(),
{
    if conf.len() == 0 {
        Seq::empty()
    } else {
        let rest = candidate_of(conf.drop_last(), ocs.drop_last());
        if outcome_admits(ocs.last()) {
            rest.push(conf.last())
        } else {
            rest
        }
    }
}

/// An address is in the candidate set exactly when some configured slot holds
/// it and that slot's probe admitted it.
pub proof fn lemma_candidate_of_membership(conf: Seq<Seq<char>>, ocs: Seq<ProbeOutcome>)
    requires
        conf.len() == ocs.len(),
    ensures
        forall|x: Seq<char>|
            #[trigger] candidate_of(conf, ocs).contains(x) <==> (exists|i: int|
                0 <= i < conf.len() && conf[i] == x && outcome_admits(ocs[i])),
    decreases conf.len(),
{
    if conf.len() > 0 {
        lemma_candidate_of_membership(conf.drop_last(), ocs.drop_last());
        let rest = candidate_of(conf.drop_last(), ocs.drop_last());
        let cand = candidate_of(conf, ocs);
        assert forall|x: Seq<char>| #[trigger] cand.contains(x) implies (exists|i: int|
            0 <= i < conf.len() && conf[i] == x && outcome_admits(ocs[i])) by {
            if outcome_admits(ocs.last()) && x == conf.last() {
                assert(conf[conf.len() - 1] == x && outcome_admits(ocs[conf.len() - 1]));
            } else {
                assert(rest.contains(x)) by {
                    let k = choose|k: int| 0 <= k < cand.len() && cand[k] == x;
                    if outcome_admits(ocs.last()) {
                        assert(cand[k] == rest.push(conf.last())[k]);
                        assert(k < rest.len());
                    }
                }
                let i = choose|i: int|
                    0 <= i < conf.drop_last().len() && conf.drop_last()[i] == x && outcome_admits(
                        ocs.drop_last()[i],
                    );
                assert(conf[i] == x && outcome_admits(ocs[i]));
            }
        }
        assert forall|x: Seq<char>|
            (exists|i: int|
                0 <= i < conf.len() && conf[i] == x && outcome_admits(
                    ocs[i],
                )) implies #[trigger] cand.contains(x) by {
            let i = choose|i: int| 0 <= i < conf.len() && conf[i] == x && outcome_admits(ocs[i]);
            if i == conf.len() - 1 {
                assert(cand == rest.push(conf.last()));
                assert(cand[rest.len() as int] == x);
            } else {
                assert(conf.drop_last()[i] == x && outcome_admits(ocs.drop_last()[i]));
                assert(rest.contains(x));
                let k = choose|k: int| 0 <= k < rest.len() && rest[k] == x;
                if outcome_admits(ocs.last()) {
                    assert(cand[k] == x);
                } else {
                    assert(cand[k] == x);
                }
            }
        }
    }
}

/// With distinct configured addresses, the candidate set is itself free of
/// duplicates and draws only on configured addresses.
pub proof fn lemma_candidate_of_wf(conf: Seq<Seq<char>>, ocs: Seq<ProbeOutcome>)
    requires
        conf.len() == ocs.len(),
        conf.no_duplicates(),
    ensures
        candidate_of(conf, ocs).no_duplicates(),
        forall|j: int|
            0 <= j < candidate_of(conf, ocs).len() ==> conf.contains(
                #[trigger] candidate_of(conf, ocs)[j],
            ),
    decreases conf.len(),
{
    if conf.len() > 0 {
        lemma_candidate_of_wf(conf.drop_last(), ocs.drop_last());
        lemma_candidate_of_membership(conf.drop_last(), ocs.drop_last());
        let rest = candidate_of(conf.drop_last(), ocs.drop_last());
        let cand = candidate_of(conf, ocs);
        assert forall|j: int| 0 <= j < rest.len() implies conf.contains(#[trigger] rest[j]) by {
            assert(conf.drop_last().contains(rest[j]));
            let k = choose|k: int| 0 <= k < conf.drop_last().len() && conf.drop_last()[k] == rest[j];
            assert(conf[k] == rest[j]);
        }
        if outcome_admits(ocs.last()) {
            assert(!rest.contains(conf.last())) by {
                if rest.contains(conf.last()) {
                    let i = choose|i: int|
                        0 <= i < conf.drop_last().len() && conf.drop_last()[i] == conf.last()
                            && outcome_admits(ocs.drop_last()[i]);
                    assert(conf[i] == conf[conf.len() - 1]);
                }
            }
            assert(cand == rest.push(conf.last()));
            assert(cand.no_duplicates()) by {
                assert forall|a: int, b: int| 0 <= a < b < cand.len() implies cand[a] != cand[b] by {
                    if b == cand.len() - 1 {
                        assert(cand[a] == rest[a]);
                        assert(!rest.contains(conf.last()));
                    }
                }
            }
            assert(conf.contains(conf.last())) by {
                assert(conf[conf.len() - 1] == conf.last());
            }
        }
    }
}

/// One probe sweep's bookkeeping: from the configured list and each address's
/// probe outcome, build the fresh candidate healthy set, in configured order.
pub fn rebuild_healthy(configured: &Vec<String>, outcomes: &Vec<ProbeOutcome>) -> (cand: Vec<
    String,
>)
    requires
        outcomes.len() == configured.len(),
    ensures
        cand@.map_values(|s: String| s@) == candidate_of(
            configured@.map_values(|s: String| s@),
            outcomes@,
        ),
{
    let ghost conf = configured@.map_values(|s: String| s@);
    let mut cand: Vec<String> = Vec::new();
    let mut i: usize = 0;
    while i < configured.len()
        invariant
            i <= configured.len(),
            outcomes.len() == configured.len(),
            conf == configured@.map_values(|s: String| s@),
            cand@.map_values(|s: String| s@) == candidate_of(
                conf.take(i as int),
                outcomes@.take(i as int),
            ),
        decreases configured.len() - i,
    {
        let ghost prev = cand@.map_values(|s: String| s@);
        if admits(&outcomes[i]) {
            cand.push(configured[i].clone());
            proof {
                assert(cand@.map_values(|s: String| s@) =~= prev.push(conf[i as int]));
            }
        }
        proof {
            let t1 = conf.take(i + 1);
            let o1 = outcomes@.take(i + 1);
            assert(t1.drop_last() =~= conf.take(i as int));
            assert(o1.drop_last() =~= outcomes@.take(i as int));
            assert(t1.last() == conf[i as int]);
            assert(o1.last() == outcomes@[i as int]);
        }
        i += 1;
    }
    proof {
        assert(conf.take(configured.len() as int) =~= conf);
        assert(outcomes@.take(configured.len() as int) =~= outcomes@);
    }
    cand
}

/// One full health-check cycle's effect on the pool: the healthy set becomes
/// exactly the candidate set of this sweep — a replace, never a merge.
pub fn health_cycle(pool: &mut UpstreamPool, outcomes: &Vec<ProbeOutcome>)
    requires
        old(pool).wf(),
        outcomes.len() == old(pool).configured.len(),
    ensures
        final(pool).wf(),
        final(pool).configured == old(pool).configured,
        final(pool).healthy_view() == candidate_of(old(pool).configured_view(), outcomes@),
{
    let cand = rebuild_healthy(&pool.configured, outcomes);
    proof {
        lemma_candidate_of_wf(pool.configured_view(), outcomes@);
        assert forall|i: int| 0 <= i < cand@.len() implies pool.configured_view().contains(
            #[trigger] cand@[i]@,
        ) by {
            assert(cand@.map_values(|s: String| s@)[i] == cand@[i]@);
        }
    }
    pool.replace(cand);
}

/// Replace, not merge: after a cycle, a configured address whose probe did
/// not admit it is absent from the healthy set — whatever the set held before
/// the cycle, and whether or not anything read the set in between. The twin
/// clause: an address whose probe admitted it is present again.
pub proof fn lemma_replace_not_merge(
    pre: UpstreamPool,
    outcomes: Seq<ProbeOutcome>,
    post: UpstreamPool,
    i: int,
)
    requires
        pre.wf(),
        outcomes.len() == pre.configured_view().len(),
        post.configured == pre.configured,
        post.healthy_view() == candidate_of(pre.configured_view(), outcomes),
        0 <= i < outcomes.len(),
    ensures
        !outcome_admits(outcomes[i]) ==> !post.healthy_view().contains(pre.configured_view()[i]),
        outcome_admits(outcomes[i]) ==> post.healthy_view().contains(pre.configured_view()[i]),
{
    let conf = pre.configured_view();
    lemma_candidate_of_membership(conf, outcomes);
    if !outcome_admits(outcomes[i]) {
        if post.healthy_view().contains(conf[i]) {
            let k = choose|k: int|
                0 <= k < conf.len() && conf[k] == conf[i] && outcome_admits(outcomes[k]);
            assert(k == i);
        }
    }
}

} // verus!

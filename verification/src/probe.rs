//! One probe, and the reduction of a host's probes to a single score.

use vstd::prelude::*;

verus! {

/// The round-trip time that stands in for a probe that got no reply.
pub const FAILED_PROBE_RTT: u32 = 99999;

/// What one echo request came to.
#[derive(Clone, Copy, Debug, PartialEq, Eq, Structural)]
pub enum ProbeOutcome {
    /// A reply arrived after this many milliseconds.
    Rtt(u32),
    /// No reply: a timeout or a transport error.
    Failed,
}

impl ProbeOutcome {
    /// The value that this probe contributes to its host's average.
    pub open spec fn effective(self) -> nat {
        match self {
            ProbeOutcome::Rtt(t) => t as nat,
            ProbeOutcome::Failed => FAILED_PROBE_RTT as nat,
        }
    }

    /// The value that this probe contributes to its host's average.
    pub fn effective_rtt(self) -> (v: u32)
        ensures
            v == self.effective(),
    {
        match self {
            ProbeOutcome::Rtt(t) => t,
            ProbeOutcome::Failed => FAILED_PROBE_RTT,
        }
    }
}

/// The sum of the effective values of `s`.
pub open spec fn total_rtt(s: Seq<ProbeOutcome>) -> nat
    decreases s.len(),
{
    if s.len() == 0 {
        0
    } else {
        total_rtt(s.drop_last()) + s.last().effective()
    }
}

/// How many probes of `s` failed.
pub open spec fn failure_count(s: Seq<ProbeOutcome>) -> nat
    decreases s.len(),
{
    if s.len() == 0 {
        0
    } else {
        failure_count(s.drop_last()) + if s.last() is Failed { 1nat } else { 0nat }
    }
}

/// The sum of the round-trip times of the probes of `s` that were answered.
pub open spec fn answered_rtt(s: Seq<ProbeOutcome>) -> nat
    decreases s.len(),
{
    if s.len() == 0 {
        0
    } else {
        answered_rtt(s.drop_last()) + match s.last() {
            ProbeOutcome::Rtt(t) => t as nat,
            ProbeOutcome::Failed => 0nat,
        }
    }
}

/// The score of a host whose probes came to `s`: the mean of the effective
/// values, rounded down. Zero for no probes at all.
pub open spec fn mean_rtt(s: Seq<ProbeOutcome>) -> nat {
    if s.len() == 0 {
        0
    } else {
        total_rtt(s) / s.len()
    }
}

/// The total splits into what the answered probes measured and one penalty
/// for each failure; no effective value exceeds `u32::MAX`.
pub proof fn lemma_total_rtt_split(s: Seq<ProbeOutcome>)
    ensures
        total_rtt(s) == answered_rtt(s) + failure_count(s) * FAILED_PROBE_RTT,
        failure_count(s) <= s.len(),
        answered_rtt(s) <= (s.len() - failure_count(s)) * u32::MAX,
        total_rtt(s) <= s.len() * u32::MAX,
    decreases s.len(),
{
    if s.len() > 0 {
        lemma_total_rtt_split(s.drop_last());
        assert(s.drop_last().len() == s.len() - 1);
        assert((failure_count(s.drop_last()) + 1) * FAILED_PROBE_RTT == failure_count(
            s.drop_last(),
        ) * FAILED_PROBE_RTT + FAILED_PROBE_RTT) by (nonlinear_arith);
        assert((s.len() - failure_count(s.drop_last())) * u32::MAX == (s.len() - 1
            - failure_count(s.drop_last())) * u32::MAX + u32::MAX) by (nonlinear_arith);
        assert(s.len() * u32::MAX == (s.len() - 1) * u32::MAX + u32::MAX) by (nonlinear_arith);
    }
}

/// The mean never exceeds the largest value a probe can contribute.
pub proof fn lemma_mean_rtt_bound(s: Seq<ProbeOutcome>)
    ensures
        mean_rtt(s) <= u32::MAX,
{
    if s.len() > 0 {
        lemma_total_rtt_split(s);
        let t = total_rtt(s) as int;
        let n = s.len() as int;
        assert(t / n <= u32::MAX) by (nonlinear_arith)
            requires
                n > 0,
                0 <= t <= n * u32::MAX,
        ;
    }
}

/// Taking one probe out of `s` takes its effective value out of the total.
pub proof fn lemma_total_rtt_remove(s: Seq<ProbeOutcome>, i: int)
    requires
        0 <= i < s.len(),
    ensures
        total_rtt(s) == total_rtt(s.remove(i)) + s[i].effective(),
    decreases s.len(),
{
    if i == s.len() - 1 {
        assert(s.remove(i) =~= s.drop_last());
    } else {
        lemma_total_rtt_remove(s.drop_last(), i);
        assert(s.remove(i).drop_last() =~= s.drop_last().remove(i));
        assert(s.remove(i).last() == s.last());
    }
}

/// The score does not depend on the order in which the probes completed:
/// two sequences that hold the same outcomes, each as often, have the same
/// total and the same mean.
pub proof fn lemma_mean_rtt_order_independent(a: Seq<ProbeOutcome>, b: Seq<ProbeOutcome>)
    requires
        a.to_multiset() == b.to_multiset(),
    ensures
        a.len() == b.len(),
        total_rtt(a) == total_rtt(b),
        mean_rtt(a) == mean_rtt(b),
    decreases a.len(),
{
    broadcast use vstd::seq_lib::group_to_multiset_ensures;

    a.to_multiset_ensures();
    b.to_multiset_ensures();
    assert(a.len() == b.len());
    if a.len() > 0 {
        let x = a.last();
        assert(a.contains(x));
        assert(b.to_multiset().count(x) > 0);
        assert(b.contains(x));
        let j = choose|j: int| 0 <= j < b.len() && b[j] == x;
        assert(a.remove(a.len() - 1) =~= a.drop_last());
        assert(a.drop_last().to_multiset() =~= b.remove(j).to_multiset());
        lemma_mean_rtt_order_independent(a.drop_last(), b.remove(j));
        lemma_total_rtt_remove(b, j);
    }
}

/// No probe of `s` failed, and each was answered in at most `limit`.
pub open spec fn all_answered_within(s: Seq<ProbeOutcome>, limit: nat) -> bool {
    forall|i: int| 0 <= i < s.len() ==> (#[trigger] s[i]) is Rtt && s[i].effective() <= limit
}

/// A host whose probes were all answered within `limit` scores at most `limit`.
pub proof fn lemma_mean_rtt_within(s: Seq<ProbeOutcome>, limit: nat)
    requires
        all_answered_within(s, limit),
    ensures
        failure_count(s) == 0,
        total_rtt(s) <= s.len() * limit,
        mean_rtt(s) <= limit,
    decreases s.len(),
{
    if s.len() > 0 {
        let front = s.drop_last();
        assert forall|i: int| 0 <= i < front.len() implies (#[trigger] front[i]) is Rtt
            && front[i].effective() <= limit by {
            assert(front[i] == s[i]);
        }
        lemma_mean_rtt_within(front, limit);
        assert(s.last() == s[s.len() - 1]);
        assert(s.len() * limit == (s.len() - 1) * limit + limit) by (nonlinear_arith);
        let t = total_rtt(s) as int;
        let n = s.len() as int;
        let m = limit as int;
        assert(t / n <= m) by (nonlinear_arith)
            requires
                n > 0,
                0 <= t <= n * m,
        ;
    }
}

/// The least score that a host with a failure among its `n` probes can have:
/// one penalty spread over `n` probes.
pub open spec fn penalty_share(n: nat) -> nat {
    FAILED_PROBE_RTT as nat / n
}

/// One failed probe is enough to rank a host behind every host that
/// answered all its probes quickly. With `n` probes to a host, a host with
/// a failure scores at least `penalty_share(n)`, and a host whose probes
/// were all answered in less than that scores strictly less.
pub proof fn lemma_penalty_dominates(failing: Seq<ProbeOutcome>, healthy: Seq<ProbeOutcome>)
    requires
        failure_count(failing) >= 1,
        healthy.len() >= 1,
        penalty_share(failing.len()) >= 1,
        all_answered_within(healthy, (penalty_share(failing.len()) - 1) as nat),
    ensures
        mean_rtt(failing) >= penalty_share(failing.len()),
        mean_rtt(healthy) < penalty_share(failing.len()),
        mean_rtt(healthy) < mean_rtt(failing),
{
    lemma_total_rtt_split(failing);
    lemma_mean_rtt_within(healthy, (penalty_share(failing.len()) - 1) as nat);
    let t = total_rtt(failing) as int;
    let n = failing.len() as int;
    let f = failure_count(failing) as int;
    let p = FAILED_PROBE_RTT as int;
    assert(f * p >= p) by (nonlinear_arith)
        requires
            f >= 1,
            p >= 0,
    ;
    assert(t / n >= p / n) by (nonlinear_arith)
        requires
            n > 0,
            t >= p,
    ;
}

/// A host none of whose probes was answered scores the penalty exactly.
pub proof fn lemma_all_failed(s: Seq<ProbeOutcome>)
    requires
        s.len() >= 1,
        forall|i: int| 0 <= i < s.len() ==> s[i] is Failed,
    ensures
        total_rtt(s) == s.len() * FAILED_PROBE_RTT,
        mean_rtt(s) == FAILED_PROBE_RTT,
    decreases s.len(),
{
    let front = s.drop_last();
    assert(s.last() == s[s.len() - 1]);
    assert(s.len() * FAILED_PROBE_RTT == (s.len() - 1) * FAILED_PROBE_RTT + FAILED_PROBE_RTT)
        by (nonlinear_arith);
    if front.len() >= 1 {
        assert forall|i: int| 0 <= i < front.len() implies front[i] is Failed by {
            assert(front[i] == s[i]);
        }
        lemma_all_failed(front);
    }
    let n = s.len() as int;
    let p = FAILED_PROBE_RTT as int;
    assert((n * p) / n == p) by (nonlinear_arith)
        requires
            n > 0,
    ;
}

/// The score of a host whose probes came to `outcomes`.
pub fn score(outcomes: &Vec<ProbeOutcome>) -> (ping: u32)
    requires
        outcomes@.len() >= 1,
    ensures
        ping == mean_rtt(outcomes@),
{
    let n: usize = outcomes.len();
    let mut sum: u128 = 0;
    let mut i: usize = 0;
    while i < n
        invariant
            n == outcomes@.len(),
            i <= n,
            sum == total_rtt(outcomes@.take(i as int)),
        decreases n - i,
    {
        proof {
            let next = outcomes@.take(i + 1);
            assert(next.drop_last() =~= outcomes@.take(i as int));
            assert(next.last() == outcomes@[i as int]);
            lemma_total_rtt_split(outcomes@.take(i as int));
            assert(i * u32::MAX <= usize::MAX * u32::MAX) by (nonlinear_arith)
                requires
                    i <= usize::MAX,
            ;
        }
        sum = sum + outcomes[i].effective_rtt() as u128;
        i = i + 1;
    }
    proof {
        assert(outcomes@.take(n as int) =~= outcomes@);
        lemma_mean_rtt_bound(outcomes@);
    }
    (sum / n as u128) as u32
}

} // verus!

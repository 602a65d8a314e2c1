//! The run over a whole server list: the reports on the servers are
//! collected in the order in which they come in, scored, and ranked.

use vstd::prelude::*;
use crate::probe::{mean_rtt, score, ProbeOutcome};
use crate::prober::HostReport;
use crate::rank::{adjacent_ranked, is_ranked, rank, ranked};
use crate::server::{Server, ServerPing};

verus! {

/// Why a set of reports was not accepted.
#[derive(Clone, Copy, Debug, PartialEq, Eq, Structural)]
pub enum PingError {
    /// The servers were to get no probe at all, so there is nothing to average.
    NoProbes,
    /// There is not one report for each server of the list.
    Incomplete,
    /// The report at this position names no server of the list, names one
    /// that an earlier report named, or holds another number of outcomes
    /// than each server was to get.
    BadReport(usize),
}

/// An earlier report than the one at `at` speaks of `server`.
pub open spec fn reported_before(reports: Seq<HostReport>, at: int, server: usize) -> bool {
    exists|q: int| 0 <= q < at && (#[trigger] reports[q]).server_index() == server
}

/// The report at `at` cannot be used for a list of `servers` servers that
/// get `ping_count` probes each.
pub open spec fn malformed(reports: Seq<HostReport>, at: int, servers: nat, ping_count: u32) -> bool {
    let report = reports[at];
    ||| report.server_index() >= servers
    ||| reported_before(reports, at, report.server_index())
    ||| (report matches HostReport::Probed { outcomes, .. } && outcomes@.len() != ping_count)
}

/// The score of the server at `server`, for probes that came to `outcomes`.
pub open spec fn score_of(servers: Seq<Server>, server: usize, outcomes: Seq<ProbeOutcome>)
    -> ServerPing {
    ServerPing { hostname: servers[server as int].hostname, ping: mean_rtt(outcomes) as u32 }
}

/// The scores of the servers that `reports` has outcomes for, in the order
/// of the reports.
pub open spec fn collected(servers: Seq<Server>, reports: Seq<HostReport>) -> Seq<ServerPing>
    decreases reports.len(),
{
    if reports.len() == 0 {
        Seq::empty()
    } else {
        match reports.last() {
            HostReport::Probed { server, outcomes } => collected(servers, reports.drop_last()).push(
                score_of(servers, server, outcomes@),
            ),
            HostReport::BadAddress { .. } => collected(servers, reports.drop_last()),
        }
    }
}

/// The names of the servers that `reports` gives up on for their address,
/// in the order of the reports.
pub open spec fn excluded(servers: Seq<Server>, reports: Seq<HostReport>) -> Seq<String>
    decreases reports.len(),
{
    if reports.len() == 0 {
        Seq::empty()
    } else {
        match reports.last() {
            HostReport::Probed { .. } => excluded(servers, reports.drop_last()),
            HostReport::BadAddress { server } => excluded(servers, reports.drop_last()).push(
                servers[server as int].hostname,
            ),
        }
    }
}

/// Every report ends up as a score or as an exclusion, and none as both:
/// with no bad address there are as many scores as reports.
pub proof fn lemma_every_report_counted(servers: Seq<Server>, reports: Seq<HostReport>)
    ensures
        collected(servers, reports).len() + excluded(servers, reports).len() == reports.len(),
        (forall|i: int| 0 <= i < reports.len() ==> reports[i] is Probed) ==> collected(
            servers,
            reports,
        ).len() == reports.len(),
    decreases reports.len(),
{
    if reports.len() > 0 {
        lemma_every_report_counted(servers, reports.drop_last());
        if forall|i: int| 0 <= i < reports.len() ==> reports[i] is Probed {
            assert forall|i: int| 0 <= i < reports.drop_last().len() implies reports.drop_last()[i]
                is Probed by {
                assert(reports.drop_last()[i] == reports[i]);
            }
            assert(reports.last() == reports[reports.len() - 1]);
        }
    }
}

/// A server list with the number of probes for each server and, after a
/// run, the scores.
pub struct AsyncPinger {
    servers: Vec<Server>,
    ping_count: u32,
    ping_results: Option<Vec<ServerPing>>,
    rejected: Vec<String>,
}

impl AsyncPinger {
    /// The servers to probe.
    pub closed spec fn server_list(&self) -> Seq<Server> {
        self.servers@
    }

    /// How many probes each server gets.
    pub closed spec fn probes_per_server(&self) -> u32 {
        self.ping_count
    }

    /// The scores of the last run, if there was one.
    pub closed spec fn scores(&self) -> Option<Seq<ServerPing>> {
        match self.ping_results {
            Some(v) => Some(v@),
            None => None,
        }
    }

    /// The names of the servers that the last run left out.
    pub closed spec fn excluded_hosts(&self) -> Seq<String> {
        self.rejected@
    }

    /// `reports` holds exactly one usable report for each server.
    pub open spec fn accepts(&self, reports: Seq<HostReport>) -> bool {
        &&& !(self.probes_per_server() == 0 && self.server_list().len() > 0)
        &&& reports.len() == self.server_list().len()
        &&& forall|at: int|
            0 <= at < reports.len() ==> !malformed(
                reports,
                at,
                self.server_list().len(),
                self.probes_per_server(),
            )
    }

    /// A pinger for `servers` that has not run yet.
    pub fn new(servers: Vec<Server>, ping_count: u32) -> (pinger: Self)
        ensures
            pinger.server_list() == servers@,
            pinger.probes_per_server() == ping_count,
            pinger.scores() is None,
            pinger.excluded_hosts() == Seq::<String>::empty(),
    {
        AsyncPinger { servers, ping_count, ping_results: None, rejected: Vec::new() }
    }

    /// The servers to probe.
    pub fn servers(&self) -> (servers: &Vec<Server>)
        ensures
            servers@ == self.server_list(),
    {
        &self.servers
    }

    /// How many probes each server gets.
    pub fn ping_count(&self) -> (count: u32)
        ensures
            count == self.probes_per_server(),
    {
        self.ping_count
    }

    /// The names of the servers that the last run left out because their
    /// address could not be read, in the order in which they were reported.
    pub fn rejected(&self) -> (names: &Vec<String>)
        ensures
            names@ == self.excluded_hosts(),
    {
        &self.rejected
    }

    /// The scores of the last run, if there was one.
    pub fn result(&self) -> (scores: &Option<Vec<ServerPing>>)
        ensures
            match scores {
                Some(v) => self.scores() == Some(v@),
                None => self.scores() is None,
            },
    {
        &self.ping_results
    }

    /// Takes in the reports on the servers, in the order in which the
    /// probing of each server ended, and scores them. The reports are
    /// accepted if there is exactly one for each server, each with as many
    /// outcomes as the servers were to get probes; otherwise nothing
    /// changes. A server whose address could not be read gets no score:
    /// its name goes to the excluded hosts.
    pub fn ping_servers(&mut self, reports: Vec<HostReport>) -> (outcome: Result<&mut Self, PingError>)
        ensures
            match outcome {
                Ok(pinger) => {
                    &&& *final(self) == *final(pinger)
                    &&& old(self).accepts(reports@)
                    &&& pinger.server_list() == old(self).server_list()
                    &&& pinger.probes_per_server() == old(self).probes_per_server()
                    &&& pinger.scores() == Some(collected(old(self).server_list(), reports@))
                    &&& pinger.excluded_hosts() == excluded(old(self).server_list(), reports@)
                    &&& pinger.scores().unwrap().len() + pinger.excluded_hosts().len() == old(
                        self,
                    ).server_list().len()
                    &&& (forall|i: int| 0 <= i < reports@.len() ==> reports@[i] is Probed)
                        ==> pinger.scores().unwrap().len() == old(self).server_list().len()
                },
                Err(PingError::NoProbes) => {
                    &&& old(self).probes_per_server() == 0
                    &&& old(self).server_list().len() > 0
                    &&& *final(self) == *old(self)
                },
                Err(PingError::Incomplete) => {
                    &&& !(old(self).probes_per_server() == 0 && old(self).server_list().len() > 0)
                    &&& reports@.len() != old(self).server_list().len()
                    &&& *final(self) == *old(self)
                },
                Err(PingError::BadReport(at)) => {
                    &&& !(old(self).probes_per_server() == 0 && old(self).server_list().len() > 0)
                    &&& reports@.len() == old(self).server_list().len()
                    &&& at < reports@.len()
                    &&& malformed(
                        reports@,
                        at as int,
                        old(self).server_list().len(),
                        old(self).probes_per_server(),
                    )
                    &&& forall|q: int|
                        0 <= q < at ==> !malformed(
                            reports@,
                            q,
                            old(self).server_list().len(),
                            old(self).probes_per_server(),
                        )
                    &&& *final(self) == *old(self)
                },
            },
    {
        let n: usize = self.servers.len();
        if self.ping_count == 0 && n > 0 {
            return Err(PingError::NoProbes);
        }
        if reports.len() != n {
            return Err(PingError::Incomplete);
        }
        let mut seen: Vec<bool> = Vec::new();
        let mut k: usize = 0;
        while k < n
            invariant
                k <= n,
                seen@.len() == k,
                forall|j: int| 0 <= j < k ==> !seen@[j],
            decreases n - k,
        {
            seen.push(false);
            k = k + 1;
        }
        let mut scores: Vec<ServerPing> = Vec::new();
        let mut rejected: Vec<String> = Vec::new();
        let mut at: usize = 0;
        while at < n
            invariant
                at <= n,
                n == self.servers@.len(),
                n == reports@.len(),
                *self == *old(self),
                self.ping_count >= 1 || n == 0,
                seen@.len() == n,
                forall|j: int| 0 <= j < n ==> (seen@[j] <==> reported_before(reports@, at as int, j as usize)),
                forall|q: int| 0 <= q < at ==> !malformed(reports@, q, n as nat, self.ping_count),
                scores@ == collected(self.servers@, reports@.take(at as int)),
                rejected@ == excluded(self.servers@, reports@.take(at as int)),
            decreases n - at,
        {
            let server: usize = reports[at].index();
            if server >= n || seen[server] {
                return Err(PingError::BadReport(at));
            }
            proof {
                let next = reports@.take(at + 1);
                assert(next.drop_last() =~= reports@.take(at as int));
                assert(next.last() == reports@[at as int]);
            }
            match &reports[at] {
                HostReport::Probed { outcomes, .. } => {
                    if outcomes.len() != self.ping_count as usize {
                        return Err(PingError::BadReport(at));
                    }
                    let ping: u32 = score(outcomes);
                    scores.push(ServerPing { hostname: self.servers[server].hostname.clone(), ping });
                },
                HostReport::BadAddress { .. } => {
                    rejected.push(self.servers[server].hostname.clone());
                },
            }
            let ghost marks = seen@;
            seen.set(server, true);
            proof {
                assert forall|j: int| 0 <= j < n implies (seen@[j] <==> reported_before(
                    reports@,
                    at + 1,
                    j as usize,
                )) by {
                    if reported_before(reports@, at as int, j as usize) {
                        let q = choose|q: int|
                            0 <= q < at && (#[trigger] reports@[q]).server_index() == j as usize;
                        assert(0 <= q < at + 1 && reports@[q].server_index() == j as usize);
                    }
                    if j == server {
                        assert(reports@[at as int].server_index() == j as usize);
                    }
                    if reported_before(reports@, at + 1, j as usize) && j != server {
                        let q = choose|q: int|
                            0 <= q < at + 1 && (#[trigger] reports@[q]).server_index()
                                == j as usize;
                        assert(q < at);
                        assert(marks[j]);
                    }
                }
            }
            at = at + 1;
        }
        proof {
            assert(reports@.take(n as int) =~= reports@);
            lemma_every_report_counted(self.servers@, reports@);
        }
        self.ping_results = Some(scores);
        self.rejected = rejected;
        Ok(self)
    }

    /// Ranks the scores of the last run: ascending by ping, scores of equal
    /// ping in the order in which they were collected. Before a run there
    /// is nothing to rank.
    pub fn sort_best(&mut self) -> (pinger: &Self)
        ensures
            *pinger == *final(self),
            final(self).server_list() == old(self).server_list(),
            final(self).probes_per_server() == old(self).probes_per_server(),
            final(self).excluded_hosts() == old(self).excluded_hosts(),
            match old(self).scores() {
                Some(unranked) => {
                    &&& final(self).scores() == Some(ranked(unranked))
                    &&& is_ranked(ranked(unranked))
                    &&& adjacent_ranked(ranked(unranked))
                    &&& ranked(unranked).len() == unranked.len()
                    &&& ranked(unranked).to_multiset() == unranked.to_multiset()
                },
                None => final(self).scores() is None,
            },
    {
        match self.ping_results.take() {
            Some(mut scores) => {
                rank(&mut scores);
                self.ping_results = Some(scores);
            },
            None => {},
        }
        self
    }

    /// The best `count` scores of the last run, best first: all of them
    /// where there are no more than `count`, none for a `count` of zero.
    /// `None` before a run.
    pub fn take(&self, count: usize) -> (best: Option<Vec<ServerPing>>)
        ensures
            match self.scores() {
                Some(all) => best matches Some(top) && top@ == all.take(
                    if count <= all.len() {
                        count as int
                    } else {
                        all.len() as int
                    },
                ),
                None => best is None,
            },
    {
        match &self.ping_results {
            Some(all) => {
                let n: usize = if count <= all.len() {
                    count
                } else {
                    all.len()
                };
                let mut top: Vec<ServerPing> = Vec::new();
                let mut i: usize = 0;
                while i < n
                    invariant
                        i <= n,
                        n <= all@.len(),
                        top@ == all@.take(i as int),
                    decreases n - i,
                {
                    top.push(all[i].clone());
                    proof {
                        assert(all@.take(i + 1) =~= all@.take(i as int).push(all@[i as int]));
                    }
                    i = i + 1;
                }
                Some(top)
            },
            None => None,
        }
    }
}

} // verus!

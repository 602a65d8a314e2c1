//! The probing of one host, step by step: the caller sends the echo requests
//! and hands each outcome back; the prober decides what comes next.

use vstd::prelude::*;
use crate::probe::{failure_count, mean_rtt, lemma_mean_rtt_bound, score, ProbeOutcome};

verus! {

/// What the caller of a `HostProber` has to do next.
#[derive(Clone, Copy, Debug, PartialEq, Eq, Structural)]
pub enum ProbeAction {
    /// Send one more echo request and record its outcome.
    Send,
    /// All probes are in: take the report.
    Done,
}

/// What became of one server of the list.
#[derive(Clone, Debug, PartialEq, Eq)]
pub enum HostReport {
    /// The server at this position was probed, with these outcomes.
    Probed { server: usize, outcomes: Vec<ProbeOutcome> },
    /// The address of the server at this position could not be read.
    BadAddress { server: usize },
}

impl HostReport {
    /// The position in the server list that the report speaks of.
    pub open spec fn server_index(self) -> usize {
        match self {
            HostReport::Probed { server, .. } => server,
            HostReport::BadAddress { server } => server,
        }
    }

    /// The position in the server list that the report speaks of.
    pub fn index(&self) -> (i: usize)
        ensures
            i == self.server_index(),
    {
        match self {
            HostReport::Probed { server, .. } => *server,
            HostReport::BadAddress { server } => *server,
        }
    }
}

/// The probes of one host: how many are wanted, and what those sent so far
/// came to.
pub struct HostProber {
    server: usize,
    wanted: u32,
    outcomes: Vec<ProbeOutcome>,
}

impl HostProber {
    /// The position of the host in the server list.
    pub closed spec fn server(&self) -> usize {
        self.server
    }

    /// How many probes the host gets.
    pub closed spec fn wanted(&self) -> u32 {
        self.wanted
    }

    /// The outcomes recorded so far, in the order they were recorded.
    pub closed spec fn outcomes(&self) -> Seq<ProbeOutcome> {
        self.outcomes@
    }

    /// All wanted probes have been recorded.
    pub open spec fn complete(&self) -> bool {
        self.outcomes().len() >= self.wanted()
    }

    /// A prober for the host at position `server`, with no probe sent yet.
    pub fn new(server: usize, ping_count: u32) -> (prober: Self)
        ensures
            prober.server() == server,
            prober.wanted() == ping_count,
            prober.outcomes() == Seq::<ProbeOutcome>::empty(),
    {
        HostProber { server, wanted: ping_count, outcomes: Vec::new() }
    }

    /// What to do next: send another probe until all wanted ones are in.
    pub fn next_action(&self) -> (action: ProbeAction)
        ensures
            action == if self.complete() {
                ProbeAction::Done
            } else {
                ProbeAction::Send
            },
    {
        if self.outcomes.len() < self.wanted as usize {
            ProbeAction::Send
        } else {
            ProbeAction::Done
        }
    }

    /// Records the outcome of the probe just sent and says what to do next.
    /// An outcome beyond the wanted number is dropped.
    pub fn record(&mut self, outcome: ProbeOutcome) -> (action: ProbeAction)
        ensures
            final(self).server() == old(self).server(),
            final(self).wanted() == old(self).wanted(),
            final(self).outcomes() == if old(self).complete() {
                old(self).outcomes()
            } else {
                old(self).outcomes().push(outcome)
            },
            action == if final(self).complete() {
                ProbeAction::Done
            } else {
                ProbeAction::Send
            },
    {
        if self.outcomes.len() < self.wanted as usize {
            self.outcomes.push(outcome);
        }
        if self.outcomes.len() < self.wanted as usize {
            ProbeAction::Send
        } else {
            ProbeAction::Done
        }
    }

    /// How many of the recorded probes failed.
    pub fn failures(&self) -> (count: usize)
        ensures
            count == failure_count(self.outcomes()),
    {
        let n: usize = self.outcomes.len();
        let mut count: usize = 0;
        let mut i: usize = 0;
        while i < n
            invariant
                n == self.outcomes@.len(),
                i <= n,
                count <= i,
                count == failure_count(self.outcomes@.take(i as int)),
            decreases n - i,
        {
            proof {
                let next = self.outcomes@.take(i + 1);
                assert(next.drop_last() =~= self.outcomes@.take(i as int));
                assert(next.last() == self.outcomes@[i as int]);
            }
            match self.outcomes[i] {
                ProbeOutcome::Failed => {
                    count = count + 1;
                },
                ProbeOutcome::Rtt(_) => {},
            }
            i = i + 1;
        }
        proof {
            assert(self.outcomes@.take(n as int) =~= self.outcomes@);
        }
        count
    }

    /// The host's score, once all its probes are in: the mean of their
    /// effective values, rounded down. `None` before that, and for a host
    /// that gets no probe at all.
    pub fn ping(&self) -> (ping: Option<u32>)
        ensures
            ping == if self.complete() && self.outcomes().len() >= 1 {
                Some(mean_rtt(self.outcomes()) as u32)
            } else {
                None
            },
            mean_rtt(self.outcomes()) <= u32::MAX,
    {
        proof {
            lemma_mean_rtt_bound(self.outcomes@);
        }
        if self.outcomes.len() >= 1 && self.outcomes.len() >= self.wanted as usize {
            Some(score(&self.outcomes))
        } else {
            None
        }
    }

    /// Ends the probing and hands out the report on the host.
    pub fn finish(self) -> (report: HostReport)
        ensures
            report matches HostReport::Probed { server, outcomes }
                && server == self.server()
                && outcomes@ == self.outcomes(),
    {
        HostReport::Probed { server: self.server, outcomes: self.outcomes }
    }
}

} // verus!

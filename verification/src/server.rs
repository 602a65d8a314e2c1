//! The records that the relay directory lists, and the score of one of them.

use vstd::prelude::*;

verus! {

/// A notice that the directory attaches to a server.
#[derive(Default, Debug, Clone, PartialEq)]
pub struct StatusMessage {
    pub message: String,
    pub timestamp: String,
}

/// One relay server as the directory describes it.
#[derive(Default, Debug, Clone, PartialEq)]
pub struct Server {
    pub hostname: String,
    pub country_code: String,
    pub country_name: String,
    pub city_code: String,
    pub city_name: String,
    pub active: bool,
    pub owned: bool,
    pub provider: String,
    pub ipv4_addr_in: String,
    pub ipv6_addr_in: Option<String>,
    pub type_field: String,
    pub status_messages: Vec<StatusMessage>,
    pub pubkey: Option<String>,
    pub multihop_port: Option<i64>,
    pub socks_name: Option<String>,
    pub ssh_fingerprint_sha256: Option<String>,
    pub ssh_fingerprint_md5: Option<String>,
}

/// A server's name with its score: the mean round-trip time of its probes.
#[derive(Default, Debug, PartialEq)]
pub struct ServerPing {
    pub hostname: String,
    pub ping: u32,
}

impl Clone for ServerPing {
    fn clone(&self) -> (copy: Self)
        ensures
            copy == *self,
    {
        ServerPing { hostname: self.hostname.clone(), ping: self.ping }
    }
}

impl Server {
    /// The server is in service and offers the given kind of tunnel.
    pub open spec fn offers(self, vpn_type: Seq<char>) -> bool {
        self.type_field@ == vpn_type && self.active
    }

    /// Tells whether the server is in service and offers the given kind of
    /// tunnel.
    pub fn is_candidate(&self, vpn_type: &String) -> (wanted: bool)
        ensures
            wanted == self.offers(vpn_type@),
    {
        self.type_field == *vpn_type && self.active
    }
}

/// The servers of `servers` that are in service and offer the given kind of
/// tunnel, in the order of the list.
pub open spec fn candidates(servers: Seq<Server>, vpn_type: Seq<char>) -> Seq<Server>
    decreases servers.len(),
{
    if servers.len() == 0 {
        Seq::empty()
    } else if servers.last().offers(vpn_type) {
        candidates(servers.drop_last(), vpn_type).push(servers.last())
    } else {
        candidates(servers.drop_last(), vpn_type)
    }
}

/// Selecting keeps only servers of the list that are wanted, and all of them.
pub proof fn lemma_candidates(servers: Seq<Server>, vpn_type: Seq<char>)
    ensures
        candidates(servers, vpn_type).len() <= servers.len(),
        forall|i: int|
            0 <= i < candidates(servers, vpn_type).len() ==> (#[trigger] candidates(
                servers,
                vpn_type,
            )[i]).offers(vpn_type) && servers.contains(candidates(servers, vpn_type)[i]),
        forall|i: int|
            0 <= i < servers.len() && (#[trigger] servers[i]).offers(vpn_type) ==> candidates(
                servers,
                vpn_type,
            ).contains(servers[i]),
    decreases servers.len(),
{
    if servers.len() > 0 {
        let front = servers.drop_last();
        let kept = candidates(servers, vpn_type);
        lemma_candidates(front, vpn_type);
        assert forall|i: int| 0 <= i < kept.len() implies (#[trigger] kept[i]).offers(vpn_type)
            && servers.contains(kept[i]) by {
            if i < candidates(front, vpn_type).len() {
                let found = candidates(front, vpn_type)[i];
                assert(kept[i] == found);
                assert(front.contains(found));
                let k = choose|k: int| 0 <= k < front.len() && front[k] == found;
                assert(servers[k] == found);
            } else {
                assert(kept[i] == servers[servers.len() - 1]);
            }
        }
        assert forall|i: int|
            0 <= i < servers.len() && (#[trigger] servers[i]).offers(vpn_type) implies kept.contains(
            servers[i],
        ) by {
            if i < front.len() {
                assert(front[i] == servers[i]);
                assert(candidates(front, vpn_type).contains(servers[i]));
                let k = choose|k: int|
                    0 <= k < candidates(front, vpn_type).len() && candidates(front, vpn_type)[k]
                        == servers[i];
                assert(kept[k] == servers[i]);
            } else {
                assert(kept[kept.len() - 1] == servers[i]);
            }
        }
    }
}

/// Keeps the servers that are in service and offer the given kind of
/// tunnel, in the order of the list.
pub fn select_servers(servers: Vec<Server>, vpn_type: &String) -> (kept: Vec<Server>)
    ensures
        kept@ == candidates(servers@, vpn_type@),
{
    let mut kept: Vec<Server> = Vec::new();
    for server in it: servers
        invariant
            it.seq() == servers@,
            kept@ == candidates(servers@.take(it.index() as int), vpn_type@),
    {
        proof {
            let next = servers@.take(it.index() + 1);
            assert(next.drop_last() =~= servers@.take(it.index() as int));
            assert(next.last() == servers@[it.index() as int]);
        }
        if server.is_candidate(vpn_type) {
            kept.push(server);
        }
    }
    proof {
        assert(servers@.take(servers@.len() as int) =~= servers@);
    }
    kept
}

} // verus!

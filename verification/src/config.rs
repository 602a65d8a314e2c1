//! The options of one run.

use vstd::prelude::*;

verus! {

/// What the user asked for: how many probes each server gets, which kind of
/// tunnel the servers must offer, and how many of the best to show.
#[derive(Debug, Clone, PartialEq, Eq)]
pub struct Config {
    ping_count: u32,
    vpn_type: String,
    display: u32,
}

/// The kinds of tunnel that the directory knows.
pub open spec fn known_vpn_type(name: Seq<char>) -> bool {
    name == "wireguard"@ || name == "openvpn"@
}

impl Config {
    /// The number of echo requests to send to each server.
    pub closed spec fn probes(&self) -> u32 {
        self.ping_count
    }

    /// The kind of tunnel asked for.
    pub closed spec fn tunnel(&self) -> Seq<char> {
        self.vpn_type@
    }

    /// How many of the best servers to show.
    pub closed spec fn shown(&self) -> u32 {
        self.display
    }

    /// The options as given.
    pub fn new(ping_count: u32, vpn_type: String, display: u32) -> (config: Self)
        ensures
            config.probes() == ping_count,
            config.tunnel() == vpn_type@,
            config.shown() == display,
    {
        Config { ping_count, vpn_type, display }
    }

    /// The number of echo requests to send to each server.
    pub fn ping_count(&self) -> (count: u32)
        ensures
            count == self.probes(),
    {
        self.ping_count
    }

    /// The kind of tunnel asked for.
    pub fn vpn_type(&self) -> (name: &String)
        ensures
            name@ == self.tunnel(),
    {
        &self.vpn_type
    }

    /// How many of the best servers to show.
    pub fn display(&self) -> (count: u32)
        ensures
            count == self.shown(),
    {
        self.display
    }

    /// Tells whether the kind of tunnel asked for is one that the directory
    /// knows: `wireguard` or `openvpn`.
    pub fn vpn_type_known(&self) -> (known: bool)
        ensures
            known == known_vpn_type(self.tunnel()),
    {
        let wireguard: String = "wireguard".to_owned();
        let openvpn: String = "openvpn".to_owned();
        self.vpn_type == wireguard || self.vpn_type == openvpn
    }
}

} // verus!

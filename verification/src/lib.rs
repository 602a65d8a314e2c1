//! Latency ranking for a list of relay servers: each server is probed a fixed
//! number of times, the probes are reduced to one score, and the scores are
//! ranked from best to worst.

pub mod config;
pub mod pinger;
pub mod probe;
pub mod prober;
pub mod rank;
pub mod server;

use mullvad_serverlist_ping::config::Config;
use mullvad_serverlist_ping::pinger::{AsyncPinger, PingError};
use mullvad_serverlist_ping::probe::ProbeOutcome;
use mullvad_serverlist_ping::prober::HostReport;
use mullvad_serverlist_ping::rank::rank;
use mullvad_serverlist_ping::server::{select_servers, Server, ServerPing};

fn server(hostname: &str, vpn_type: &str, active: bool) -> Server {
    Server {
        hostname: hostname.to_string(),
        ipv4_addr_in: "10.0.0.1".to_string(),
        type_field: vpn_type.to_string(),
        active,
        ..Server::default()
    }
}

fn servers(names: &[&str]) -> Vec<Server> {
    names.iter().map(|n| server(n, "wireguard", true)).collect()
}

fn probed(server: usize, rtts: &[Option<u32>]) -> HostReport {
    let outcomes = rtts
        .iter()
        .map(|r| match r {
            Some(t) => ProbeOutcome::Rtt(*t),
            None => ProbeOutcome::Failed,
        })
        .collect();
    HostReport::Probed { server, outcomes }
}

fn entry(hostname: &str, ping: u32) -> ServerPing {
    ServerPing { hostname: hostname.to_string(), ping }
}

#[test]
fn three_servers_are_ranked_by_mean() {
    let mut pinger = AsyncPinger::new(servers(&["a", "b", "c"]), 4);
    let reports = vec![
        probed(0, &[Some(10), Some(10), Some(10), Some(10)]),
        probed(1, &[Some(50), None, Some(50), Some(50)]),
        probed(2, &[Some(5), Some(5), Some(5), Some(5)]),
    ];
    assert!(pinger.ping_servers(reports).is_ok());
    assert_eq!(
        pinger.result(),
        &Some(vec![entry("a", 10), entry("b", 25037), entry("c", 5)])
    );
    pinger.sort_best();
    assert_eq!(
        pinger.result(),
        &Some(vec![entry("c", 5), entry("a", 10), entry("b", 25037)])
    );
}

#[test]
fn calls_chain() {
    let mut pinger = AsyncPinger::new(servers(&["a", "b"]), 1);
    let reports = vec![probed(1, &[Some(9)]), probed(0, &[Some(3)])];
    let ranked = pinger.ping_servers(reports).unwrap().sort_best().result().clone();
    assert_eq!(ranked, Some(vec![entry("a", 3), entry("b", 9)]));
}

#[test]
fn server_with_no_answer_scores_the_penalty() {
    let mut pinger = AsyncPinger::new(servers(&["dead"]), 4);
    assert!(pinger.ping_servers(vec![probed(0, &[None, None, None, None])]).is_ok());
    assert_eq!(pinger.result(), &Some(vec![entry("dead", 99999)]));
    assert!(pinger.rejected().is_empty());
}

#[test]
fn single_server_single_probe() {
    let mut pinger = AsyncPinger::new(servers(&["only"]), 1);
    assert!(pinger.ping_servers(vec![probed(0, &[Some(23)])]).is_ok());
    pinger.sort_best();
    assert_eq!(pinger.result(), &Some(vec![entry("only", 23)]));
}

#[test]
fn scores_come_in_the_order_of_the_reports() {
    let mut pinger = AsyncPinger::new(servers(&["a", "b", "c"]), 2);
    let reports = vec![
        probed(2, &[Some(8), Some(9)]),
        probed(0, &[Some(30), Some(31)]),
        probed(1, &[Some(1), Some(2)]),
    ];
    assert!(pinger.ping_servers(reports).is_ok());
    assert_eq!(pinger.result(), &Some(vec![entry("c", 8), entry("a", 30), entry("b", 1)]));
}

#[test]
fn every_server_gets_one_score() {
    let names: Vec<String> = (0..25).map(|i| format!("host{}", i)).collect();
    let list: Vec<Server> = names.iter().map(|n| server(n, "wireguard", true)).collect();
    let reports: Vec<HostReport> =
        (0..25).rev().map(|i| probed(i, &[Some((i as u32 * 7) % 11), Some(3)])).collect();
    let mut pinger = AsyncPinger::new(list, 2);
    assert!(pinger.ping_servers(reports).is_ok());
    assert_eq!(pinger.result().as_ref().unwrap().len(), 25);
    pinger.sort_best();
    let ranked = pinger.result().as_ref().unwrap();
    assert_eq!(ranked.len(), 25);
    for name in &names {
        assert_eq!(ranked.iter().filter(|e| &e.hostname == name).count(), 1);
    }
    for i in 0..ranked.len() - 1 {
        assert!(ranked[i].ping <= ranked[i + 1].ping);
    }
}

#[test]
fn ranking_twice_changes_nothing() {
    let mut pinger = AsyncPinger::new(servers(&["a", "b", "c", "d"]), 1);
    let reports = vec![
        probed(0, &[Some(40)]),
        probed(1, &[Some(7)]),
        probed(2, &[None]),
        probed(3, &[Some(7)]),
    ];
    assert!(pinger.ping_servers(reports).is_ok());
    pinger.sort_best();
    let once = pinger.result().clone();
    pinger.sort_best();
    assert_eq!(pinger.result(), &once);
    assert_eq!(
        once,
        Some(vec![entry("b", 7), entry("d", 7), entry("a", 40), entry("c", 99999)])
    );
}

#[test]
fn equal_pings_keep_their_order() {
    let mut scores = vec![
        entry("x", 5),
        entry("y", 3),
        entry("z", 5),
        entry("w", 3),
        entry("v", 5),
        entry("u", 1),
    ];
    rank(&mut scores);
    assert_eq!(
        scores,
        vec![
            entry("u", 1),
            entry("y", 3),
            entry("w", 3),
            entry("x", 5),
            entry("z", 5),
            entry("v", 5),
        ]
    );
}

#[test]
fn rank_handles_short_lists() {
    let mut none: Vec<ServerPing> = vec![];
    rank(&mut none);
    assert!(none.is_empty());
    let mut one = vec![entry("a", 9)];
    rank(&mut one);
    assert_eq!(one, vec![entry("a", 9)]);
    let mut two = vec![entry("a", 9), entry("b", 2)];
    rank(&mut two);
    assert_eq!(two, vec![entry("b", 2), entry("a", 9)]);
    let mut reversed: Vec<ServerPing> = (0..10u32).rev().map(|i| entry("h", i)).collect();
    rank(&mut reversed);
    assert_eq!(reversed, (0..10u32).map(|i| entry("h", i)).collect::<Vec<_>>());
}

#[test]
fn take_gives_the_best() {
    let mut pinger = AsyncPinger::new(servers(&["a", "b", "c"]), 1);
    assert_eq!(pinger.take(2), None);
    let reports = vec![probed(0, &[Some(30)]), probed(1, &[Some(10)]), probed(2, &[Some(20)])];
    assert!(pinger.ping_servers(reports).is_ok());
    pinger.sort_best();
    assert_eq!(pinger.take(0), Some(vec![]));
    assert_eq!(pinger.take(1), Some(vec![entry("b", 10)]));
    assert_eq!(pinger.take(2), Some(vec![entry("b", 10), entry("c", 20)]));
    assert_eq!(pinger.take(3), Some(vec![entry("b", 10), entry("c", 20), entry("a", 30)]));
    assert_eq!(pinger.take(10), Some(vec![entry("b", 10), entry("c", 20), entry("a", 30)]));
    assert_eq!(pinger.take(usize::MAX), pinger.result().clone());
}

#[test]
fn new_pinger_has_not_run() {
    let mut pinger = AsyncPinger::new(servers(&["a"]), 4);
    assert_eq!(pinger.ping_count(), 4);
    assert_eq!(pinger.servers().len(), 1);
    assert_eq!(pinger.servers()[0].hostname, "a");
    assert_eq!(pinger.result(), &None);
    assert!(pinger.rejected().is_empty());
    pinger.sort_best();
    assert_eq!(pinger.result(), &None);
    assert_eq!(pinger.take(3), None);
}

#[test]
fn bad_address_is_left_out_and_named() {
    let mut pinger = AsyncPinger::new(servers(&["a", "broken", "c"]), 2);
    let reports = vec![
        probed(2, &[Some(4), Some(6)]),
        HostReport::BadAddress { server: 1 },
        probed(0, &[Some(1), Some(1)]),
    ];
    assert!(pinger.ping_servers(reports).is_ok());
    assert_eq!(pinger.result(), &Some(vec![entry("c", 5), entry("a", 1)]));
    assert_eq!(pinger.rejected(), &vec!["broken".to_string()]);
    assert_eq!(pinger.result().as_ref().unwrap().len() + pinger.rejected().len(), 3);
}

#[test]
fn no_probes_is_an_error() {
    let mut pinger = AsyncPinger::new(servers(&["a"]), 0);
    let outcome = pinger.ping_servers(vec![probed(0, &[])]).map(|_| ());
    assert_eq!(outcome, Err(PingError::NoProbes));
    assert_eq!(pinger.result(), &None);
}

#[test]
fn empty_list_runs_with_any_count() {
    let mut pinger = AsyncPinger::new(vec![], 0);
    assert!(pinger.ping_servers(vec![]).is_ok());
    assert_eq!(pinger.result(), &Some(vec![]));
    pinger.sort_best();
    assert_eq!(pinger.take(5), Some(vec![]));
}

#[test]
fn missing_report_is_an_error() {
    let mut pinger = AsyncPinger::new(servers(&["a", "b"]), 1);
    let outcome = pinger.ping_servers(vec![probed(0, &[Some(1)])]).map(|_| ());
    assert_eq!(outcome, Err(PingError::Incomplete));
    let outcome = pinger
        .ping_servers(vec![probed(0, &[Some(1)]), probed(1, &[Some(1)]), probed(1, &[Some(1)])])
        .map(|_| ());
    assert_eq!(outcome, Err(PingError::Incomplete));
    assert_eq!(pinger.result(), &None);
}

#[test]
fn unusable_report_is_an_error() {
    let mut pinger = AsyncPinger::new(servers(&["a", "b", "c"]), 2);
    let unknown = vec![
        probed(0, &[Some(1), Some(1)]),
        probed(3, &[Some(1), Some(1)]),
        probed(2, &[Some(1), Some(1)]),
    ];
    assert_eq!(pinger.ping_servers(unknown).map(|_| ()), Err(PingError::BadReport(1)));
    let twice = vec![
        probed(0, &[Some(1), Some(1)]),
        probed(1, &[Some(1), Some(1)]),
        HostReport::BadAddress { server: 0 },
    ];
    assert_eq!(pinger.ping_servers(twice).map(|_| ()), Err(PingError::BadReport(2)));
    let short = vec![
        probed(0, &[Some(1)]),
        probed(1, &[Some(1), Some(1)]),
        probed(2, &[Some(1), Some(1)]),
    ];
    assert_eq!(pinger.ping_servers(short).map(|_| ()), Err(PingError::BadReport(0)));
    let first_of_two = vec![
        probed(1, &[Some(1), Some(1)]),
        probed(1, &[Some(1), Some(1), Some(1)]),
        probed(7, &[Some(1), Some(1)]),
    ];
    assert_eq!(pinger.ping_servers(first_of_two).map(|_| ()), Err(PingError::BadReport(1)));
    assert_eq!(pinger.result(), &None);
    assert!(pinger.rejected().is_empty());
}

#[test]
fn failed_run_keeps_the_last_scores() {
    let mut pinger = AsyncPinger::new(servers(&["a", "b"]), 1);
    assert!(pinger.ping_servers(vec![probed(1, &[Some(2)]), probed(0, &[Some(1)])]).is_ok());
    let before = pinger.result().clone();
    assert!(pinger.ping_servers(vec![probed(1, &[Some(2)])]).is_err());
    assert_eq!(pinger.result(), &before);
}

#[test]
fn only_active_servers_of_the_wanted_type_are_kept() {
    let list = vec![
        server("w1", "wireguard", true),
        server("o1", "openvpn", true),
        server("w2", "wireguard", false),
        server("w3", "wireguard", true),
        server("b1", "bridge", true),
    ];
    let kept = select_servers(list.clone(), &"wireguard".to_string());
    assert_eq!(kept, vec![list[0].clone(), list[3].clone()]);
    let kept = select_servers(list.clone(), &"openvpn".to_string());
    assert_eq!(kept, vec![list[1].clone()]);
    assert!(select_servers(list.clone(), &"ssh".to_string()).is_empty());
    assert!(select_servers(vec![], &"wireguard".to_string()).is_empty());
    assert!(list[0].is_candidate(&"wireguard".to_string()));
    assert!(!list[2].is_candidate(&"wireguard".to_string()));
    assert!(!list[0].is_candidate(&"openvpn".to_string()));
}

#[test]
fn config_knows_two_vpn_types() {
    let config = Config::new(4, "wireguard".to_string(), 10);
    assert_eq!(config.ping_count(), 4);
    assert_eq!(config.vpn_type(), "wireguard");
    assert_eq!(config.display(), 10);
    assert!(config.vpn_type_known());
    assert!(Config::new(1, "openvpn".to_string(), 1).vpn_type_known());
    assert!(!Config::new(1, "bridge".to_string(), 1).vpn_type_known());
    assert!(!Config::new(1, "".to_string(), 1).vpn_type_known());
    assert!(!Config::new(1, "Wireguard".to_string(), 1).vpn_type_known());
}

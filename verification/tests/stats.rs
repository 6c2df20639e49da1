use mnic_cli::cli::RuntimeOptions;
use mnic_cli::clock::Duration;
use mnic_cli::config::{Config, NicConfig, ProxyConfig};
use mnic_cli::net::{Ipv4Addr, SocketAddr};
use mnic_cli::stats::{SharedStats, StatsSnapshot};

fn test_config() -> Config {
    Config {
        nics: vec![
            NicConfig { ip: Ipv4Addr::new(192, 168, 1, 10) },
            NicConfig { ip: Ipv4Addr::new(192, 168, 1, 11) },
        ],
        proxy: ProxyConfig { listen: peer(8080) },
    }
}

fn peer(port: u16) -> SocketAddr {
    SocketAddr::V4 { ip: Ipv4Addr::new(127, 0, 0, 1), port }
}

fn at(secs: u64) -> Duration {
    Duration::from_secs(secs)
}

fn new_stats() -> SharedStats {
    SharedStats::new(&test_config(), RuntimeOptions::default(), at(100))
}

#[test]
fn accumulates_tx_and_rx() {
    let mut stats = new_stats();
    stats.record_inbound(1, &peer(5000), 0, at(100));
    stats.add_tx(1, 0, 10);
    stats.add_rx(1, 0, 20);

    let snapshot = stats.snapshot(at(100));
    assert_eq!(snapshot.nics[0].total_tx, 10);
    assert_eq!(snapshot.nics[0].total_rx, 20);
}

#[test]
fn failed_connections_keep_counted_bytes() {
    let mut stats = new_stats();
    stats.record_inbound(1, &peer(5000), 1, at(100));
    stats.add_rx(1, 1, 99);
    stats.fail_connection(1, "boom", at(100));

    let snapshot = stats.snapshot(at(100));
    assert_eq!(snapshot.nics[1].total_rx, 99);
    assert_eq!(snapshot.nics[1].failed_connections, 1);
    assert!(snapshot.active_connections.is_empty());
}

#[test]
fn closes_only_pending_tcp_connections() {
    let mut stats = new_stats();
    stats.record_inbound(1, &peer(5000), 0, at(100));
    stats.record_inbound(2, &peer(5001), 1, at(100));
    stats.start_connection(2, 1, "CONNECT", "example.com:443", "open", at(100));

    stats.finish_pending_tcp(1);
    stats.finish_pending_tcp(2);

    let snapshot = stats.snapshot(at(100));
    assert_eq!(snapshot.active_connections.len(), 1);
    assert_eq!(snapshot.active_connections[0].id, 2);
}

#[test]
fn starts_with_nothing() {
    let mut stats = new_stats();
    let snapshot = stats.snapshot(at(103));
    assert_eq!(snapshot.listen.to_text(), "127.0.0.1:8080");
    assert!(!snapshot.range_split_enabled);
    assert_eq!(snapshot.elapsed.as_secs(), 3);
    assert_eq!(snapshot.nics[0].ip.to_text(), "192.168.1.10");
    assert_eq!(snapshot.nics[1].ip.to_text(), "192.168.1.11");
    assert_eq!(snapshot.nics[1].index, 1);
    assert_eq!(snapshot.nics[0].opened_connections, 0);
    assert!(snapshot.active_connections.is_empty());
    assert!(snapshot.recent_events.is_empty());
}

#[test]
fn records_events_with_the_time_since_start() {
    let mut stats = new_stats();
    stats.record_inbound(42, &peer(51902), 1, at(105));
    stats.start_connection(42, 1, "CONNECT", "www.example.com:443", "open", at(110));
    stats.add_tx(42, 1, 2048);
    stats.finish_connection(42, "closed", at(128));
    stats.fail_connection(42, "gone", at(100 + 3661));
    stats.record_event("done", at(90));
    let snapshot = stats.snapshot(at(130));
    assert_eq!(
        snapshot.recent_events,
        vec![
            "+00:05  inbound #42 from 127.0.0.1:51902 assigned NIC[1] 192.168.1.11",
            "+00:10  CONNECT #42 www.example.com:443 open via NIC[1]",
            "+00:28  CONNECT #42 closed after 00:23 tx 2.00 KB rx 0 B",
            "+01:01:01  connection #42 failed: gone",
            "+00:00  done",
        ]
    );
}

#[test]
fn records_failures_of_active_connections() {
    let mut stats = new_stats();
    stats.start_connection(7, 0, "POST", "http://h/", "request", at(100));
    stats.add_rx(7, 0, 5);
    stats.fail_connection(7, "reset", at(160));
    let snapshot = stats.snapshot(at(160));
    assert_eq!(
        snapshot.recent_events[1],
        "+01:00  POST #7 failed after 01:00 tx 0 B rx 5 B: reset"
    );
    assert_eq!(snapshot.nics[0].failed_connections, 1);
    assert_eq!(snapshot.nics[1].failed_connections, 0);
}

#[test]
fn remembers_only_the_latest_events() {
    let mut stats = new_stats();
    for number in 0..25 {
        stats.record_event(&format!("event {number}"), at(100));
    }
    let snapshot = stats.snapshot(at(100));
    assert_eq!(snapshot.recent_events.len(), 10);
    assert_eq!(snapshot.recent_events[0], "+00:00  event 15");
    assert_eq!(snapshot.recent_events[9], "+00:00  event 24");
}

#[test]
fn requests_keep_bytes_and_start() {
    let mut stats = new_stats();
    stats.record_inbound(1, &peer(5000), 0, at(101));
    stats.add_tx(1, 0, 3);
    stats.start_connection(1, 0, "HTTP GET", "http://h/", "head", at(150));
    stats.set_state(1, "full");
    stats.set_state(9, "full");
    let snapshot = stats.snapshot(at(161));
    let shown = &snapshot.active_connections[0];
    assert_eq!((shown.tx, shown.rx, shown.age.as_secs()), (3, 0, 60));
    assert_eq!(shown.kind, "HTTP GET");
    assert_eq!(shown.target, "http://h/");
    assert_eq!(shown.state, "full");
    assert_eq!(snapshot.active_connections.len(), 1);
}

#[test]
fn counts_bytes_of_connections_that_are_gone() {
    let mut stats = new_stats();
    stats.add_tx(77, 1, 4);
    stats.add_rx(77, 1, 0);
    let snapshot = stats.snapshot(at(100));
    assert_eq!(snapshot.nics[1].total_tx, 4);
    assert_eq!(snapshot.nics[0].total_tx, 0);
    assert!(snapshot.active_connections.is_empty());
}

#[test]
fn shows_the_connections_with_the_lowest_numbers() {
    let mut stats = new_stats();
    for id in (1..=12).rev() {
        stats.record_inbound(id, &peer(5000), (id % 2) as usize, at(100));
    }
    let snapshot = stats.snapshot(at(100));
    let ids: Vec<u64> = snapshot.active_connections.iter().map(|shown| shown.id).collect();
    assert_eq!(ids, (1..=10).collect::<Vec<u64>>());
    assert_eq!(snapshot.nics[0].active_connections, 6);
    assert_eq!(snapshot.nics[1].active_connections, 6);
    assert_eq!(snapshot.nics[0].opened_connections, 6);
}

fn rates(snapshot: &StatsSnapshot) -> [(u64, u64); 2] {
    [0, 1].map(|nic: usize| (snapshot.nics[nic].tx_per_sec, snapshot.nics[nic].rx_per_sec))
}

#[test]
fn averages_over_recent_traffic_only() {
    let mut stats = new_stats();
    stats.add_rx(1, 0, 1000);
    assert_eq!(rates(&stats.snapshot(at(100))), [(0, 1000), (0, 0)]);

    stats.add_rx(1, 0, 500);
    stats.add_tx(1, 1, 70);
    assert_eq!(rates(&stats.snapshot(at(108))), [(0, 1500 / 8), (70 / 8, 0)]);

    stats.add_rx(1, 0, 9);
    assert_eq!(rates(&stats.snapshot(at(115))), [(0, 9 / 7), (0, 0)]);

    assert_eq!(rates(&stats.snapshot(at(300))), [(0, 0), (0, 0)]);
}

#[test]
fn samples_exactly_as_old_as_the_window_count() {
    let mut stats = new_stats();
    stats.add_rx(1, 0, 100);
    assert_eq!(rates(&stats.snapshot(at(110)))[0], (0, 10));
    let mut stats = new_stats();
    stats.add_rx(1, 0, 100);
    assert_eq!(rates(&stats.snapshot(Duration::new(110, 1)))[0], (0, 0));
}

#[test]
fn recent_traffic_does_not_depend_on_totals() {
    for before in [0, 5, 1_000_000_000_000] {
        let mut stats = new_stats();
        stats.add_tx(1, 0, before);
        stats.snapshot(at(120));
        stats.add_tx(1, 0, 33);
        assert_eq!(rates(&stats.snapshot(at(123)))[0], (11, 0));
    }
}

#[test]
fn knows_when_counters_are_full() {
    let mut stats = new_stats();
    stats.add_tx(1, 0, u64::MAX);
    assert!(!stats.accepts_tx(1, 0, 1));
    assert!(stats.accepts_tx(1, 0, 0));
    assert!(stats.accepts_tx(1, 1, 1));
    assert!(!stats.accepts_tx(1, 2, 1));
    assert!(stats.accepts_rx(1, 0, u64::MAX));
    assert!(!stats.accepts_rx(1, 2, 1));
    assert!(stats.accepts_failure(1));
    stats.start_connection(3, 9, "GET", "t", "s", at(100));
    assert!(!stats.accepts_failure(3));
    assert!(stats.accepts_inbound(1));
    assert!(!stats.accepts_inbound(2));
}

#[test]
fn totals_account_for_active_connections() {
    let mut stats = new_stats();
    stats.record_inbound(1, &peer(5000), 0, at(100));
    stats.record_inbound(2, &peer(5001), 1, at(100));
    stats.add_rx(1, 0, 30);
    stats.add_rx(1, 1, 12);
    stats.add_rx(2, 1, 5);
    stats.finish_connection(2, "closed", at(101));
    stats.record_inbound(1, &peer(5002), 0, at(102));
    stats.add_rx(1, 0, 8);
    let snapshot = stats.snapshot(at(102));
    let active: u64 = snapshot.active_connections.iter().map(|shown| shown.rx).sum();
    assert_eq!(active, 8);
    assert_eq!(snapshot.nics[0].total_rx + snapshot.nics[1].total_rx, 55);
}

#[test]
fn shown_connections_stay_within_shown_totals() {
    let mut stats = new_stats();
    for id in 1..=15 {
        stats.record_inbound(id, &peer(5000), (id % 2) as usize, at(100));
        stats.add_tx(id, 0, id);
        stats.add_rx(id, 1, 2 * id);
        if id % 4 == 0 {
            stats.fail_connection(id, "gone", at(100));
        }
        let snapshot = stats.snapshot(at(100 + id));
        let tx: u64 = snapshot.active_connections.iter().map(|shown| shown.tx).sum();
        let rx: u64 = snapshot.active_connections.iter().map(|shown| shown.rx).sum();
        assert!(tx <= snapshot.nics[0].total_tx + snapshot.nics[1].total_tx);
        assert!(rx <= snapshot.nics[0].total_rx + snapshot.nics[1].total_rx);
    }
}

#[test]
fn later_snapshots_show_no_less_than_earlier_ones() {
    let mut stats = new_stats();
    let mut before = stats.snapshot(at(100));
    for id in 1..=9 {
        stats.record_inbound(id, &peer(5000), (id % 2) as usize, at(100));
        stats.add_rx(id, (id % 2) as usize, 10);
        match id % 3 {
            0 => stats.fail_connection(id, "gone", at(100)),
            1 => stats.finish_connection(id, "closed", at(100)),
            _ => stats.finish_pending_tcp(id),
        }
        let after = stats.snapshot(at(100 + 20 * id));
        for nic in [0, 1] {
            assert!(after.nics[nic].total_tx >= before.nics[nic].total_tx);
            assert!(after.nics[nic].total_rx >= before.nics[nic].total_rx);
            assert!(after.nics[nic].opened_connections >= before.nics[nic].opened_connections);
            assert!(after.nics[nic].failed_connections >= before.nics[nic].failed_connections);
        }
        before = after;
    }
    assert_eq!(before.nics[0].total_rx + before.nics[1].total_rx, 90);
}

#[test]
fn throughput_covers_the_last_ten_seconds() {
    let mut stats = new_stats();
    for second in 101..=130 {
        stats.add_tx(1, 0, second);
        let shown = stats.snapshot(at(second));
        let first = if second < 110 { 101 } else { second - 9 };
        let bytes: u64 = (first..=second).sum();
        assert_eq!(rates(&shown)[0], (bytes / (second + 1 - first), 0));
    }
}

use mnic_cli::clock::Duration;
use mnic_cli::net::{Ipv4Addr, SocketAddr};
use mnic_cli::output::{render_snapshot, truncate};
use mnic_cli::stats::{ConnectionSnapshot, NicSnapshot, StatsSnapshot};

fn nic(index: usize) -> NicSnapshot {
    NicSnapshot {
        index,
        ip: Ipv4Addr::new(192, 168, 1, 10 + index as u8),
        tx_per_sec: 0,
        rx_per_sec: 0,
        total_tx: 0,
        total_rx: 0,
        active_connections: 0,
        opened_connections: 0,
        failed_connections: 0,
    }
}

fn connection(id: u64) -> ConnectionSnapshot {
    ConnectionSnapshot {
        id,
        nic_index: 0,
        kind: "HTTP GET".to_string(),
        target: "http://raspberrypi.local/file.bin".to_string(),
        age: Duration::from_secs(1),
        tx: 0,
        rx: 10,
        state: "full".to_string(),
    }
}

fn snapshot() -> StatsSnapshot {
    StatsSnapshot {
        listen: SocketAddr::V4 { ip: Ipv4Addr::new(127, 0, 0, 1), port: 8080 },
        range_split_enabled: false,
        elapsed: Duration::from_secs(2),
        nics: [nic(0), nic(1)],
        active_connections: vec![],
        recent_events: vec![],
    }
}

#[test]
fn renders_range_split_off_status() {
    let snapshot = StatsSnapshot {
        listen: SocketAddr::V4 { ip: Ipv4Addr::new(127, 0, 0, 1), port: 8080 },
        range_split_enabled: false,
        elapsed: Duration::from_secs(2),
        nics: [
            NicSnapshot {
                index: 0,
                ip: Ipv4Addr::new(192, 168, 1, 10),
                tx_per_sec: 0,
                rx_per_sec: 10,
                total_tx: 0,
                total_rx: 10,
                active_connections: 0,
                opened_connections: 1,
                failed_connections: 0,
            },
            NicSnapshot {
                index: 1,
                ip: Ipv4Addr::new(192, 168, 1, 11),
                tx_per_sec: 0,
                rx_per_sec: 0,
                total_tx: 0,
                total_rx: 0,
                active_connections: 0,
                opened_connections: 0,
                failed_connections: 0,
            },
        ],
        active_connections: vec![ConnectionSnapshot {
            id: 1,
            nic_index: 0,
            kind: "HTTP GET".to_string(),
            target: "http://raspberrypi.local/file.bin".to_string(),
            age: Duration::from_secs(1),
            tx: 0,
            rx: 10,
            state: "full".to_string(),
        }],
        recent_events: vec!["event".to_string()],
    };

    let screen = render_snapshot(&snapshot);
    assert!(screen.contains("Range split: OFF"));
    assert!(screen.contains("Recent events"));
}

#[test]
fn renders_an_idle_screen() {
    assert_eq!(
        render_snapshot(&snapshot()),
        [
            "mNIC-CLI live status",
            "Listen: 127.0.0.1:8080    Range split: OFF   Elapsed: 00:00:02",
            "",
            "NIC throughput, last 10s average",
            "NIC  IP                      TX/s         RX/s  Active  Opened  Failed",
            "[0]  192.168.1.10           0 B/s        0 B/s       0       0       0",
            "[1]  192.168.1.11           0 B/s        0 B/s       0       0       0",
            "",
            "NIC totals since start",
            "NIC  IP                  TX total     RX total",
            "[0]  192.168.1.10             0 B          0 B",
            "[1]  192.168.1.11             0 B          0 B",
            "",
            "Active connections",
            "ID    NIC  Kind      Target                                     Age         TX         RX State     ",
            "(none)",
            "",
            "Recent events",
            "(none)",
        ]
        .join("\n")
    );
}

/// The screen written with the formatting of the standard library.
fn formatted(snapshot: &StatsSnapshot) -> String {
    let mut lines = vec![
        format!(
            "{:<4} {:<15} {:>12} {:>12} {:>7} {:>7} {:>7}",
            "NIC", "IP", "TX/s", "RX/s", "Active", "Opened", "Failed"
        ),
    ];
    for nic in &snapshot.nics {
        lines.push(format!(
            "[{}]  {:<15} {:>12} {:>12} {:>7} {:>7} {:>7}",
            nic.index,
            nic.ip.to_text(),
            format!("{} B/s", nic.tx_per_sec),
            format!("{} B/s", nic.rx_per_sec),
            nic.active_connections,
            nic.opened_connections,
            nic.failed_connections
        ));
    }
    lines.join("\n")
}

#[test]
fn renders_throughput_rows_in_columns() {
    let mut busy = snapshot();
    busy.nics[0].tx_per_sec = 12;
    busy.nics[0].rx_per_sec = 999;
    busy.nics[1].active_connections = 3;
    busy.nics[1].opened_connections = 12345678;
    busy.nics[1].failed_connections = 1;
    assert!(render_snapshot(&busy).contains(&formatted(&busy)));
}

#[test]
fn renders_the_first_connections_and_the_last_events() {
    let mut busy = snapshot();
    busy.range_split_enabled = true;
    busy.active_connections = (1..=12).map(connection).collect();
    busy.active_connections[0].kind = "0123456789".to_string();
    busy.active_connections[0].target = "t".repeat(39);
    busy.active_connections[0].state = "connecting!".to_string();
    busy.active_connections[1].tx = 2048;
    busy.recent_events = (1..=6).map(|number| format!("event {number}")).collect();
    let screen = render_snapshot(&busy);
    let lines: Vec<&str> = screen.split('\n').collect();
    assert_eq!(
        lines[1],
        "Listen: 127.0.0.1:8080    Range split: ON    Elapsed: 00:00:02"
    );
    assert_eq!(
        lines[15],
        format!(
            "{:<5} [{:<1}]  {:<9} {:<38} {:>7} {:>10} {:>10} {:<10}",
            1,
            0,
            "01234567~",
            format!("{}~", "t".repeat(37)),
            "00:01",
            "0 B",
            "10 B",
            "connectin~"
        )
    );
    assert_eq!(
        lines[16],
        format!(
            "{:<5} [{:<1}]  {:<9} {:<38} {:>7} {:>10} {:>10} {:<10}",
            2, 0, "HTTP GET", "http://raspberrypi.local/file.bin", "00:01", "2.00 KB", "10 B", "full"
        )
    );
    assert!(lines[24].starts_with("10 "));
    assert_eq!(lines[25], "... 2 more active connection(s)");
    assert_eq!(lines[26], "");
    assert_eq!(
        lines[27..],
        ["Recent events", "event 2", "event 3", "event 4", "event 5", "event 6"]
    );
    assert_eq!(lines.len(), 33);
}

#[test]
fn ten_connections_leave_no_more() {
    let mut busy = snapshot();
    busy.active_connections = (1..=10).map(connection).collect();
    let screen = render_snapshot(&busy);
    assert!(screen.contains("\n10    [0]  HTTP GET"));
    assert!(!screen.contains("more active"));
    assert!(!screen.contains("(none)\n\nRecent"));
}

#[test]
fn shows_the_running_time_with_hours() {
    let mut running = snapshot();
    running.elapsed = Duration::from_secs(192);
    assert!(render_snapshot(&running)
        .contains("\nListen: 127.0.0.1:8080    Range split: OFF   Elapsed: 00:03:12\n"));
    running.elapsed = Duration::from_secs(100 * 3600 + 59);
    assert!(render_snapshot(&running).contains("Elapsed: 100:00:59\n"));
}

#[test]
fn shows_five_events() {
    let mut busy = snapshot();
    busy.recent_events = (1..=5).map(|number| format!("e{number}")).collect();
    assert!(render_snapshot(&busy).ends_with("Recent events\ne1\ne2\ne3\ne4\ne5"));
}

#[test]
fn cuts_texts_to_a_width() {
    assert_eq!(truncate("abc", 3), "abc");
    assert_eq!(truncate("abcd", 3), "ab~");
    assert_eq!(truncate("äöüß", 3), "äö~");
    assert_eq!(truncate("abcd", 1), "~");
    assert_eq!(truncate("abcd", 0), "~");
    assert_eq!(truncate("", 0), "");
}

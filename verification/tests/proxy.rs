use mnic_cli::cli::RuntimeOptions;
use mnic_cli::clock::Duration;
use mnic_cli::config::{Config, NicConfig, ProxyConfig};
use mnic_cli::net::{Ipv4Addr, SocketAddr};
use mnic_cli::proxy::ProxyState;

fn now() -> Duration {
    Duration::from_secs(50)
}

fn peer() -> SocketAddr {
    SocketAddr::V4 { ip: Ipv4Addr::new(127, 0, 0, 1), port: 5000 }
}

fn test_state() -> ProxyState {
    let config = Config {
        nics: vec![
            NicConfig { ip: Ipv4Addr::new(192, 168, 1, 10) },
            NicConfig { ip: Ipv4Addr::new(192, 168, 1, 11) },
        ],
        proxy: ProxyConfig {
            listen: SocketAddr::V4 { ip: Ipv4Addr::new(127, 0, 0, 1), port: 8080 },
        },
    };
    ProxyState::new(config, RuntimeOptions::default(), now())
}

fn events(state: &mut ProxyState) -> Vec<String> {
    state.stats.snapshot(now()).recent_events
}

#[test]
fn assigns_nics_round_robin() {
    let mut state = test_state();

    assert_eq!(state.next_connection(peer(), now()).nic_index, 0);
    assert_eq!(state.next_connection(peer(), now()).nic_index, 1);
    assert_eq!(state.next_connection(peer(), now()).nic_index, 0);
    assert_eq!(state.next_connection(peer(), now()).nic_index, 1);
}

#[test]
fn numbers_connections_from_one() {
    let mut state = test_state();
    assert!(state.accepts_connection());
    let first = state.next_connection(peer(), now());
    let second = state.next_connection(peer(), now());
    assert_eq!((first.id, second.id), (1, 2));
    assert_eq!(first.peer.to_text(), "127.0.0.1:5000");
    assert_eq!(
        events(&mut state),
        [
            "+00:00  inbound #1 from 127.0.0.1:5000 assigned NIC[0] 192.168.1.10",
            "+00:00  inbound #2 from 127.0.0.1:5000 assigned NIC[1] 192.168.1.11",
        ]
    );
}

#[test]
fn forgets_clients_that_made_no_request() {
    let mut state = test_state();
    let idle = state.next_connection(peer(), now());
    let busy = state.next_connection(peer(), now());
    state.stats.start_connection(busy.id, busy.nic_index, "CONNECT", "h:443", "open", now());
    state.connection_ended(&idle, None, now());
    state.connection_ended(&busy, Some("early eof"), now());
    let snapshot = state.stats.snapshot(now());
    assert_eq!(snapshot.active_connections.len(), 1);
    assert_eq!(snapshot.active_connections[0].id, busy.id);
    assert_eq!(
        snapshot.recent_events.last().unwrap(),
        "+00:00  connection #2 from 127.0.0.1:5000 failed: early eof"
    );
    assert_eq!(snapshot.recent_events.len(), 4);
}

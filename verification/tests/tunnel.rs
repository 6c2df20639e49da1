use mnic_cli::cli::RuntimeOptions;
use mnic_cli::clock::Duration;
use mnic_cli::config::{Config, NicConfig, ProxyConfig};
use mnic_cli::dial::{endpoint_of, first_ipv4, split_host_port, DialFault};
use mnic_cli::net::{Ipv4Addr, SocketAddr};
use mnic_cli::proxy::ProxyState;
use mnic_cli::tunnel::{
    copy_metered, relay_tunnel, tunnel_is_over, CopyEvent, CopyFault, CopyPhase, Direction,
    COPY_BUFFER_LEN,
};

fn local() -> Ipv4Addr {
    Ipv4Addr::new(192, 168, 1, 10)
}

fn four(last: u8) -> SocketAddr {
    SocketAddr::V4 { ip: Ipv4Addr::new(10, 0, 0, last), port: 443 }
}

fn six() -> SocketAddr {
    SocketAddr::V6 { printed: "[::1]:443".to_string(), loopback: true }
}

#[test]
fn splits_targets_into_host_and_port() {
    assert_eq!(split_host_port("example.com:8443"), Ok(("example.com".to_string(), 8443)));
    assert_eq!(split_host_port("example.com"), Ok(("example.com".to_string(), 443)));
    assert_eq!(split_host_port("10.0.0.1:0"), Ok(("10.0.0.1".to_string(), 0)));
    assert_eq!(split_host_port("Example-1.COM:65535"), Ok(("Example-1.COM".to_string(), 65535)));
    assert_eq!(split_host_port("[::1]:80"), Ok(("[::1]".to_string(), 80)));
    assert_eq!(split_host_port("h:65536"), Ok(("h".to_string(), 443)));
    let long = "h".repeat(65000);
    assert_eq!(split_host_port(&format!("{long}:65535")), Ok((long, 65535)));
}

#[test]
fn refuses_targets_that_are_no_authority() {
    for target in ["", "a b", "a:1:2", "h%", "[::1"] {
        assert_eq!(
            split_host_port(target),
            Err(format!("invalid CONNECT target: {target}"))
        );
    }
}

#[test]
fn decides_on_what_a_target_reads_as() {
    assert_eq!(endpoint_of("t", None), Err("invalid CONNECT target: t".to_string()));
    assert_eq!(
        endpoint_of("t", Some(None)),
        Err("CONNECT target missing authority: t".to_string())
    );
    assert_eq!(
        endpoint_of("t", Some(Some(("h".to_string(), None)))),
        Ok(("h".to_string(), 443))
    );
    assert_eq!(
        endpoint_of("t", Some(Some(("h".to_string(), Some(1))))),
        Ok(("h".to_string(), 1))
    );
}

#[test]
fn takes_the_first_ipv4_address() {
    assert_eq!(first_ipv4("h", &vec![six(), four(1), four(2)]), Ok(1));
    assert_eq!(first_ipv4("h", &vec![four(1)]), Ok(0));
    for found in [vec![], vec![six()]] {
        assert_eq!(
            first_ipv4("h:443", &found),
            Err("no IPv4 address found for h:443".to_string())
        );
    }
}

#[test]
fn reports_why_a_target_is_not_reached() {
    let report = |fault: DialFault| fault.report("h:443", local());
    assert_eq!(report(DialFault::Lookup), "DNS lookup failed for h:443");
    assert_eq!(report(DialFault::Socket), "failed to create IPv4 socket");
    assert_eq!(report(DialFault::Bind), "failed to bind local NIC address 192.168.1.10");
    assert_eq!(report(DialFault::TimedOut), "CONNECT timed out for h:443");
    assert_eq!(
        report(DialFault::Refused { address: four(9) }),
        "failed to connect to 10.0.0.9:443"
    );
}

fn run(events: &[CopyEvent]) -> (CopyPhase, u64) {
    let mut phase = CopyPhase::Reading;
    let mut carried = 0;
    for event in events {
        carried += phase.advance(*event);
    }
    (phase, carried)
}

#[test]
fn copies_until_the_end() {
    assert_eq!(
        run(&[
            CopyEvent::Read { len: 5 },
            CopyEvent::Written,
            CopyEvent::Read { len: 7 },
            CopyEvent::Written,
            CopyEvent::Read { len: 0 },
            CopyEvent::Closed,
        ]),
        (CopyPhase::Done, 12)
    );
    assert_eq!(COPY_BUFFER_LEN, 16 * 1024);
}

#[test]
fn counts_only_what_was_written() {
    let first = [CopyEvent::Read { len: 5 }, CopyEvent::Written];
    assert_eq!(run(&first), (CopyPhase::Reading, 5));
    let pending = [first[0], first[1], CopyEvent::Read { len: 3 }];
    assert_eq!(run(&pending), (CopyPhase::Writing { len: 3 }, 5));
    let failed = [pending[0], pending[1], pending[2], CopyEvent::Broken];
    assert_eq!(run(&failed), (CopyPhase::Failed { fault: CopyFault::Write }, 5));
    assert_eq!(
        run(&[first[0], first[1], CopyEvent::Broken]),
        (CopyPhase::Failed { fault: CopyFault::Read }, 5)
    );
    assert_eq!(
        run(&[first[0], first[1], CopyEvent::Read { len: 0 }, CopyEvent::Broken]),
        (CopyPhase::Failed { fault: CopyFault::Shutdown }, 5)
    );
}

#[test]
fn ignores_events_out_of_place() {
    assert_eq!(run(&[CopyEvent::Written]), (CopyPhase::Reading, 0));
    assert_eq!(
        run(&[CopyEvent::Read { len: 0 }, CopyEvent::Closed, CopyEvent::Broken]),
        (CopyPhase::Done, 0)
    );
}

#[test]
fn reports_the_upstream_fault_first() {
    let read = CopyPhase::Failed { fault: CopyFault::Read };
    let write = CopyPhase::Failed { fault: CopyFault::Write };
    assert_eq!(relay_tunnel(CopyPhase::Done, CopyPhase::Done), Ok(()));
    assert_eq!(relay_tunnel(read, write), Err(CopyFault::Read));
    assert_eq!(relay_tunnel(CopyPhase::Done, write), Err(CopyFault::Write));
    assert_eq!(relay_tunnel(write, CopyPhase::Done), Err(CopyFault::Write));
    assert_eq!(CopyFault::Read.report(), "tunnel read failed");
    assert_eq!(CopyFault::Write.report(), "tunnel write failed");
    assert_eq!(CopyFault::Shutdown.report(), "tunnel shutdown failed");
}

#[test]
fn a_tunnel_is_over_once_a_direction_ends() {
    let failed = CopyPhase::Failed { fault: CopyFault::Read };
    let open = [CopyPhase::Reading, CopyPhase::Writing { len: 1 }, CopyPhase::Closing];
    for other in open {
        for ended in [CopyPhase::Done, failed] {
            assert!(tunnel_is_over(other, ended));
            assert!(tunnel_is_over(ended, other));
        }
        assert!(!tunnel_is_over(other, CopyPhase::Closing));
        assert_eq!(relay_tunnel(CopyPhase::Done, other), Ok(()));
        assert_eq!(relay_tunnel(other, CopyPhase::Done), Ok(()));
        assert_eq!(relay_tunnel(other, failed), Err(CopyFault::Read));
    }
}

#[test]
fn counts_tunnelled_bytes_by_direction() {
    let config = Config {
        nics: vec![NicConfig { ip: local() }, NicConfig { ip: Ipv4Addr::new(192, 168, 1, 11) }],
        proxy: ProxyConfig { listen: four(1) },
    };
    let now = Duration::from_secs(1);
    let mut state = ProxyState::new(config, RuntimeOptions::default(), now);
    let connection = state.next_connection(four(2), now);
    let mut up = CopyPhase::Writing { len: 10 };
    let mut down = CopyPhase::Writing { len: 20 };
    for (direction, phase) in [(Direction::Upstream, &mut up), (Direction::Downstream, &mut down)] {
        assert!(direction.accepts(&state.stats, &connection, *phase, CopyEvent::Written));
        copy_metered(&mut state.stats, &connection, direction, phase, CopyEvent::Written);
        assert_eq!(*phase, CopyPhase::Reading);
        copy_metered(&mut state.stats, &connection, direction, phase, CopyEvent::Broken);
    }
    let shown = state.stats.snapshot(now);
    assert_eq!((shown.nics[0].total_tx, shown.nics[0].total_rx), (10, 20));
    assert_eq!((shown.nics[1].total_tx, shown.nics[1].total_rx), (0, 0));
    assert_eq!((shown.active_connections[0].tx, shown.active_connections[0].rx), (10, 20));
}

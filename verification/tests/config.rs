use mnic_cli::config::{validate_config, Config, NicConfig, ProxyConfig};
use mnic_cli::net::{Ipv4Addr, SocketAddr};

fn config_with(nics: usize, listen: SocketAddr) -> Config {
    Config {
        nics: (0..nics)
            .map(|index| NicConfig { ip: Ipv4Addr::new(192, 168, 1, 10 + index as u8) })
            .collect(),
        proxy: ProxyConfig { listen },
    }
}

fn v4(ip: Ipv4Addr, port: u16) -> SocketAddr {
    SocketAddr::V4 { ip, port }
}

#[test]
fn accepts_exactly_two_nics() {
    let loopback = v4(Ipv4Addr::new(127, 0, 0, 1), 8080);
    assert_eq!(validate_config(&config_with(2, loopback.clone())), Ok(None));
    for count in [0, 1, 3] {
        assert_eq!(
            validate_config(&config_with(count, loopback.clone())),
            Err(format!(
                "config must contain exactly 2 [[nics]] entries, got {count}"
            ))
        );
    }
}

#[test]
fn warns_of_a_public_listener() {
    assert_eq!(
        validate_config(&config_with(2, v4(Ipv4Addr::new(0, 0, 0, 0), 8080))),
        Ok(Some("[WARN] proxy.listen is not loopback: 0.0.0.0:8080".to_string()))
    );
    assert_eq!(
        validate_config(&config_with(2, v4(Ipv4Addr::new(127, 9, 9, 9), 1))),
        Ok(None)
    );
    assert_eq!(
        validate_config(&config_with(
            2,
            SocketAddr::V6 { printed: "[::1]:8080".to_string(), loopback: true }
        )),
        Ok(None)
    );
    assert_eq!(
        validate_config(&config_with(
            2,
            SocketAddr::V6 { printed: "[::]:8080".to_string(), loopback: false }
        )),
        Ok(Some("[WARN] proxy.listen is not loopback: [::]:8080".to_string()))
    );
}

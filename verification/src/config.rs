//! The configuration of the proxy.

use vstd::prelude::*;

use crate::net::{Ipv4Addr, SocketAddr};
use crate::text;
use crate::text::decimal_text;

verus! {

/// What the configuration file holds.
#[derive(Debug, Clone)]
pub struct Config {
    pub nics: Vec<NicConfig>,
    pub proxy: ProxyConfig,
}

/// A network interface, by the address that connections over it are made from.
#[derive(Debug, Clone, Copy)]
pub struct NicConfig {
    pub ip: Ipv4Addr,
}

/// Where the proxy waits for clients.
#[derive(Debug, Clone)]
pub struct ProxyConfig {
    pub listen: SocketAddr,
}

impl Config {
    /// Whether the proxy can run with this configuration.
    pub open spec fn is_valid(self) -> bool {
        self.nics@.len() == 2
    }
}

/// What the user is warned of: a listener that other hosts can reach.
pub open spec fn warning(config: Config) -> Option<Seq<char>> {
    if config.proxy.listen.names_loopback() {
        None
    } else {
        Some("[WARN] proxy.listen is not loopback: "@ + config.proxy.listen.printed_form())
    }
}

/// Checks that there are exactly two interfaces, and returns what to warn the user of, if
/// anything.
pub fn validate_config(config: &Config) -> (checked: Result<Option<String>, String>)
    ensures
        match checked {
            Ok(Some(line)) => config.is_valid() && warning(*config) == Some(line@),
            Ok(None) => config.is_valid() && warning(*config) is None,
            Err(error) => !config.is_valid() && error@
                == "config must contain exactly 2 [[nics]] entries, got "@ + text::decimal(
                config.nics@.len(),
            ),
        },
{
    if config.nics.len() != 2 {
        let mut error = "config must contain exactly 2 [[nics]] entries, got ".to_owned();
        error.append(decimal_text(config.nics.len() as u64).as_str());
        return Err(error);
    }
    if config.proxy.listen.is_loopback() {
        Ok(None)
    } else {
        let mut line = "[WARN] proxy.listen is not loopback: ".to_owned();
        line.append(config.proxy.listen.to_text().as_str());
        Ok(Some(line))
    }
}

} // verus!

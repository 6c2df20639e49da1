//! Decision logic of an HTTP proxy that spreads its traffic over two network
//! interfaces.

pub mod body;
pub mod chunk;
pub mod cli;
pub mod clock;
pub mod config;
pub mod count_laws;
pub mod dial;
pub mod fields;
pub mod handler;
pub mod http;
pub mod laws;
pub mod net;
pub mod output;
pub mod proxy;
pub mod rate;
pub mod reading;
pub mod reply_laws;
pub mod request_laws;
pub mod response;
pub mod screen_laws;
pub mod setup_laws;
pub mod stats;
pub mod status;
pub mod step_laws;
pub mod text;
pub mod tunnel;
pub mod tunnel_laws;
pub mod units;

//! Network addresses.

use vstd::prelude::*;

use crate::text;
use crate::text::decimal_text;

verus! {

/// An IPv4 address: its four bytes.
#[derive(Debug, Clone, Copy, PartialEq, Eq)]
pub struct Ipv4Addr {
    pub octets: [u8; 4],
}

/// An address with a port. The printed form of an IPv6 address is taken from whoever resolved or
/// accepted it, together with whether it is the loopback address.
#[derive(Debug, Clone)]
pub enum SocketAddr {
    V4 { ip: Ipv4Addr, port: u16 },
    V6 { printed: String, loopback: bool },
}

impl Ipv4Addr {
    /// The address `a.b.c.d`.
    pub fn new(a: u8, b: u8, c: u8, d: u8) -> (ip: Self)
        ensures
            ip.octets@ == seq![a, b, c, d],
    {
        let octets = [a, b, c, d];
        assert(octets@ =~= seq![a, b, c, d]);
        Ipv4Addr { octets }
    }

    /// The four bytes in base ten, with dots between them.
    pub open spec fn dotted(self) -> Seq<char> {
        text::decimal(self.octets[0] as nat) + "."@ + text::decimal(self.octets[1] as nat) + "."@
            + text::decimal(self.octets[2] as nat) + "."@ + text::decimal(self.octets[3] as nat)
    }

    /// Writes the address in dotted form.
    pub fn to_text(&self) -> (text: String)
        ensures
            text@ == self.dotted(),
    {
        let mut text = decimal_text(self.octets[0] as u64);
        text.append(".");
        text.append(decimal_text(self.octets[1] as u64).as_str());
        text.append(".");
        text.append(decimal_text(self.octets[2] as u64).as_str());
        text.append(".");
        text.append(decimal_text(self.octets[3] as u64).as_str());
        text
    }
}

impl SocketAddr {
    /// The printed form: for IPv4 the dotted address, a colon and the port.
    pub open spec fn printed_form(self) -> Seq<char> {
        match self {
            SocketAddr::V4 { ip, port } => ip.dotted() + ":"@ + text::decimal(port as nat),
            SocketAddr::V6 { printed, .. } => printed@,
        }
    }

    /// Whether the address belongs to the host itself: for IPv4 all that begin with 127.
    pub open spec fn names_loopback(self) -> bool {
        match self {
            SocketAddr::V4 { ip, .. } => ip.octets[0] == 127,
            SocketAddr::V6 { loopback, .. } => loopback,
        }
    }

    /// Writes the printed form.
    pub fn to_text(&self) -> (text: String)
        ensures
            text@ == self.printed_form(),
    {
        match self {
            SocketAddr::V4 { ip, port } => {
                let mut text = ip.to_text();
                text.append(":");
                text.append(decimal_text(*port as u64).as_str());
                text
            },
            SocketAddr::V6 { printed, .. } => printed.clone(),
        }
    }

    /// Whether the address belongs to the host itself.
    pub fn is_loopback(&self) -> (loopback: bool)
        ensures
            loopback == self.names_loopback(),
    {
        match self {
            SocketAddr::V4 { ip, .. } => ip.octets[0] == 127,
            SocketAddr::V6 { loopback, .. } => *loopback,
        }
    }

    /// Whether this is an IPv4 address.
    pub fn is_ipv4(&self) -> (v4: bool)
        ensures
            v4 == (self is V4),
    {
        match self {
            SocketAddr::V4 { .. } => true,
            SocketAddr::V6 { .. } => false,
        }
    }

    /// The same address once more.
    pub fn duplicate(&self) -> (copy: Self)
        ensures
            copy == *self,
    {
        match self {
            SocketAddr::V4 { ip, port } => SocketAddr::V4 { ip: *ip, port: *port },
            SocketAddr::V6 { printed, loopback } => SocketAddr::V6 {
                printed: printed.clone(),
                loopback: *loopback,
            },
        }
    }
}

} // verus!

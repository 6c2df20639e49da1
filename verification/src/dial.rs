//! Where a tunnel leads, and why it may not come about.

use hyper::Uri;
use vstd::prelude::*;

use crate::net::{Ipv4Addr, SocketAddr};
use crate::text;

verus! {

/// The port of a target that names none.
pub const DEFAULT_PORT: u16 = 443;

/// What `text` is as a URI: nothing where it is none, and else its authority, where it has one,
/// as the host and the port, where one is given that is a 16-bit number.
pub uninterp spec fn uri_authority(text: Seq<char>) -> Option<Option<(Seq<char>, Option<u16>)>>;

/// The host and the port of an authority.
pub open spec fn authority_view(parsed: Option<Option<(String, Option<u16>)>>) -> Option<
    Option<(Seq<char>, Option<u16>)>,
> {
    match parsed {
        None => None,
        Some(None) => Some(None),
        Some(Some((host, port))) => Some(Some((host@, port))),
    }
}

/// Whether `host` is a plain host name or IPv4 address: letters, digits, dots and hyphens.
pub open spec fn is_plain_host(host: Seq<char>) -> bool {
    &&& 0 < host.len() <= 65000
    &&& forall|i: int|
        0 <= i < host.len() ==> {
            ||| 'a' <= #[trigger] host[i] && host[i] <= 'z'
            ||| 'A' <= host[i] && host[i] <= 'Z'
            ||| '0' <= host[i] && host[i] <= '9'
            ||| host[i] == '.' || host[i] == '-'
        }
}

/// A host with a colon and the port behind it, or alone where there is no port.
pub open spec fn host_and_port(host: Seq<char>, port: Option<u16>) -> Seq<char> {
    match port {
        Some(port) => host + ":"@ + text::decimal(port as nat),
        None => host,
    }
}

/// The address of the root of a target.
pub open spec fn root_url(target: Seq<char>) -> Seq<char> {
    "http://"@ + target
}

/// Whether what was read from `text` is right in case it is the root of a plain host, with or
/// without a port.
pub open spec fn reads_plain_hosts(
    text: Seq<char>,
    parsed: Option<Option<(Seq<char>, Option<u16>)>>,
) -> bool {
    forall|host: Seq<char>, port: Option<u16>|
        is_plain_host(host) && text == root_url(#[trigger] host_and_port(host, port)) ==> parsed
            == Some(Some((host, port)))
}

/// `Uri` read from a text, with `Uri::authority`, `Authority::host` and `Authority::port_u16` of
/// the result. What they make of any text is only given a name. It is also claimed that the root
/// of a plain host reads as that host with the port that stands behind it.
#[verifier::external_body]
pub(crate) fn parse_authority(text: &str) -> (parsed: Option<Option<(String, Option<u16>)>>)
    ensures
        authority_view(parsed) == uri_authority(text@),
        reads_plain_hosts(text@, authority_view(parsed)),
{
    let uri = text.parse::<Uri>().ok()?;
    Some(uri.authority().map(|authority| (authority.host().to_string(), authority.port_u16())))
}

/// The host and the port to connect to for `target`, or why there are none.
pub open spec fn endpoint(
    target: Seq<char>,
    parsed: Option<Option<(Seq<char>, Option<u16>)>>,
) -> Result<(Seq<char>, u16), Seq<char>> {
    match parsed {
        None => Err("invalid CONNECT target: "@ + target),
        Some(None) => Err("CONNECT target missing authority: "@ + target),
        Some(Some((host, Some(port)))) => Ok((host, port)),
        Some(Some((host, None))) => Ok((host, DEFAULT_PORT)),
    }
}

/// An endpoint or an error by the texts in it.
pub open spec fn endpoint_view(outcome: Result<(String, u16), String>) -> Result<
    (Seq<char>, u16),
    Seq<char>,
> {
    match outcome {
        Ok((host, port)) => Ok((host@, port)),
        Err(error) => Err(error@),
    }
}

/// The host and the port to connect to for `target`, given what it reads as.
pub fn endpoint_of(target: &str, parsed: Option<Option<(String, Option<u16>)>>) -> (outcome: Result<
    (String, u16),
    String,
>)
    ensures
        endpoint_view(outcome) == endpoint(target@, authority_view(parsed)),
{
    match parsed {
        None => {
            let mut error = "invalid CONNECT target: ".to_owned();
            error.append(target);
            Err(error)
        },
        Some(None) => {
            let mut error = "CONNECT target missing authority: ".to_owned();
            error.append(target);
            Err(error)
        },
        Some(Some((host, Some(port)))) => Ok((host, port)),
        Some(Some((host, None))) => Ok((host, DEFAULT_PORT)),
    }
}

/// The host and the port to connect to for `target`. A plain host with a port is just that, and
/// one without has the default port.
pub fn split_host_port(target: &str) -> (outcome: Result<(String, u16), String>)
    ensures
        endpoint_view(outcome) == endpoint(target@, uri_authority(root_url(target@))),
        forall|host: Seq<char>, port: Option<u16>|
            is_plain_host(host) && target@ == #[trigger] host_and_port(host, port)
                ==> endpoint_view(outcome) == Ok::<(Seq<char>, u16), Seq<char>>(
                (
                    host,
                    match port {
                        Some(port) => port,
                        None => DEFAULT_PORT,
                    },
                ),
            ),
{
    let mut url = "http://".to_owned();
    url.append(target);
    endpoint_of(target, parse_authority(url.as_str()))
}

/// Whether `at` is the place of the first IPv4 address.
pub open spec fn is_first_ipv4(addresses: Seq<SocketAddr>, at: int) -> bool {
    &&& 0 <= at < addresses.len()
    &&& addresses[at] is V4
    &&& forall|i: int| 0 <= i < at ==> !((#[trigger] addresses[i]) is V4)
}

/// Whether there is no IPv4 address.
pub open spec fn has_no_ipv4(addresses: Seq<SocketAddr>) -> bool {
    forall|i: int| 0 <= i < addresses.len() ==> !((#[trigger] addresses[i]) is V4)
}

/// The place of the first IPv4 address among those found for `target`.
pub fn first_ipv4(target: &str, addresses: &Vec<SocketAddr>) -> (found: Result<usize, String>)
    ensures
        match found {
            Ok(at) => is_first_ipv4(addresses@, at as int),
            Err(error) => has_no_ipv4(addresses@) && error@ == "no IPv4 address found for "@
                + target@,
        },
{
    let mut at: usize = 0;
    while at < addresses.len()
        invariant
            at <= addresses@.len(),
            forall|i: int| 0 <= i < at ==> !((#[trigger] addresses@[i]) is V4),
        decreases addresses@.len() - at,
    {
        if addresses[at].is_ipv4() {
            return Ok(at);
        }
        at = at + 1;
    }
    let mut error = "no IPv4 address found for ".to_owned();
    error.append(target);
    Err(error)
}

/// What went wrong on the way to a target.
#[derive(Debug)]
pub enum DialFault {
    /// The name could not be looked up.
    Lookup,
    /// There was no socket to be had.
    Socket,
    /// The socket could not be bound to the interface.
    Bind,
    /// No answer came in time.
    TimedOut,
    /// The connection to this address failed.
    Refused { address: SocketAddr },
}

impl DialFault {
    /// What is reported where a tunnel to `target` over the interface `local_ip` fails so.
    pub open spec fn message(self, target: Seq<char>, local_ip: Ipv4Addr) -> Seq<char> {
        match self {
            DialFault::Lookup => "DNS lookup failed for "@ + target,
            DialFault::Socket => "failed to create IPv4 socket"@,
            DialFault::Bind => "failed to bind local NIC address "@ + local_ip.dotted(),
            DialFault::TimedOut => "CONNECT timed out for "@ + target,
            DialFault::Refused { address } => "failed to connect to "@ + address.printed_form(),
        }
    }

    /// Writes what is reported where a tunnel to `target` over the interface `local_ip` fails so.
    pub fn report(&self, target: &str, local_ip: Ipv4Addr) -> (error: String)
        ensures
            error@ == self.message(target@, local_ip),
    {
        match self {
            DialFault::Lookup => {
                let mut error = "DNS lookup failed for ".to_owned();
                error.append(target);
                error
            },
            DialFault::Socket => "failed to create IPv4 socket".to_owned(),
            DialFault::Bind => {
                let mut error = "failed to bind local NIC address ".to_owned();
                error.append(local_ip.to_text().as_str());
                error
            },
            DialFault::TimedOut => {
                let mut error = "CONNECT timed out for ".to_owned();
                error.append(target);
                error
            },
            DialFault::Refused { address } => {
                let mut error = "failed to connect to ".to_owned();
                error.append(address.to_text().as_str());
                error
            },
        }
    }
}

} // verus!

//! What holds of tunnels: when they open, what goes through them and when they end.

use vstd::prelude::*;

use crate::count_laws;
use crate::dial;
use crate::dial::{endpoint_of, first_ipv4, split_host_port, DialFault};
use crate::net::{Ipv4Addr, SocketAddr};
use crate::proxy::ConnectionContext;
use crate::stats;
use crate::stats::SharedStats;
use crate::text;
use crate::tunnel;
use crate::tunnel::{
    copy_metered, relay_tunnel, tunnel_is_over, CopyEvent, CopyFault, CopyPhase, Direction,
};

verus! {

/// One direction of a tunnel goes round: what is read is written, whatever its length, and then
/// the next piece is read. Only where nothing more comes is the receiving side shut down, and only
/// then is the direction done.
pub proof fn only_an_empty_read_closes(phase: &mut CopyPhase, event: CopyEvent, bytes: u64)
    requires
        call_ensures(CopyPhase::advance, (phase, event), bytes),
    ensures
        *old(phase) is Writing && event is Written ==> *final(phase) is Reading,
        *old(phase) is Reading && event is Read ==> if event->len == 0 {
            *final(phase) is Closing
        } else {
            *final(phase) is Writing && final(phase)->len == event->len
        },
        *old(phase) is Closing && event is Closed ==> *final(phase) is Done,
        *final(phase) is Closing && !(*old(phase) is Closing) ==> *old(phase) is Reading
            && event is Read && event->len == 0,
        *final(phase) is Done && !(*old(phase) is Done) ==> *old(phase) is Closing && event is Closed,
        *final(phase) is Writing && !(*old(phase) is Writing) ==> *old(phase) is Reading
            && event is Read && event->len == final(phase)->len,
{
}

/// The bytes of a piece go through when it is written, all of them, and with nothing else that
/// happens.
pub proof fn bytes_go_through_when_written(phase: &mut CopyPhase, event: CopyEvent, bytes: u64)
    requires
        call_ensures(CopyPhase::advance, (phase, event), bytes),
    ensures
        *old(phase) is Writing && event is Written ==> bytes == old(phase)->len,
        !(*old(phase) is Writing && event is Written) ==> bytes == 0,
{
}

/// A direction fails where what it has to do breaks, with the fault of just that, and never
/// otherwise. Once it is done or has failed nothing changes it.
pub proof fn only_what_breaks_fails(phase: &mut CopyPhase, event: CopyEvent, bytes: u64)
    requires
        call_ensures(CopyPhase::advance, (phase, event), bytes),
    ensures
        event is Broken ==> match *old(phase) {
            CopyPhase::Reading => *final(phase) is Failed && final(phase)->fault is Read,
            CopyPhase::Writing { .. } => *final(phase) is Failed && final(phase)->fault is Write,
            CopyPhase::Closing => *final(phase) is Failed && final(phase)->fault is Shutdown,
            _ => *final(phase) == *old(phase),
        },
        *old(phase) is Done || *old(phase) is Failed ==> *final(phase) == *old(phase),
        *final(phase) is Failed && !(*old(phase) is Failed) ==> event is Broken,
{
}

/// A direction of a tunnel comes to the shutting down of the receiving side with an empty read and
/// nothing else, whatever was read before.
pub proof fn directions_close_after_an_empty_read(events: Seq<CopyEvent>)
    requires
        tunnel::all_expected(CopyPhase::Reading, events),
    ensures
        tunnel::phase_after(CopyPhase::Reading, events) is Closing ==> events.len() > 0
            && events.last() is Read && events.last()->len == 0,
        tunnel::phase_after(CopyPhase::Reading, events) is Done ==> events.len() > 1
            && events.last() is Closed && events[events.len() - 2] is Read && events[events.len()
            - 2]->len == 0,
    decreases events.len(),
{
    reveal_with_fuel(tunnel::all_expected, 3);
    reveal_with_fuel(tunnel::phase_after, 3);
    if events.len() > 0 {
        directions_close_after_an_empty_read(events.drop_last());
        if events.len() > 1 {
            assert(events.drop_last().last() == events[events.len() - 2]);
        }
    }
}

/// As long as pieces come and are written, a direction goes on reading, however many and however
/// long they are.
pub proof fn directions_go_on_while_pieces_come(lens: Seq<u64>)
    requires
        forall|i: int| 0 <= i < lens.len() ==> 0 < #[trigger] lens[i] <= 16384,
    ensures
        ({
            let events = pieces_copied(lens);
            &&& tunnel::all_expected(CopyPhase::Reading, events)
            &&& tunnel::phase_after(CopyPhase::Reading, events) is Reading
        }),
    decreases lens.len(),
{
    reveal_with_fuel(tunnel::all_expected, 3);
    reveal_with_fuel(tunnel::phase_after, 3);
    if lens.len() > 0 {
        let front = lens.drop_last();
        assert forall|i: int| 0 <= i < front.len() implies 0 < #[trigger] front[i] <= 16384 by {
            assert(lens[i] == front[i]);
        }
        directions_go_on_while_pieces_come(front);
        let events = pieces_copied(lens);
        let before = pieces_copied(front);
        let read = before.push(CopyEvent::Read { len: lens[lens.len() - 1] });
        assert(events.drop_last() =~= read);
        assert(read.drop_last() =~= before);
    }
}

/// What happens while pieces of the given lengths are copied: each is read and then written.
pub open spec fn pieces_copied(lens: Seq<u64>) -> Seq<CopyEvent>
    decreases lens.len(),
{
    if lens.len() == 0 {
        seq![]
    } else {
        pieces_copied(lens.drop_last()).push(CopyEvent::Read { len: lens.last() }).push(
            CopyEvent::Written,
        )
    }
}

/// What goes through a tunnel is counted as it is written: towards the server as sent, towards the
/// client as received, over the interface of the connection, and nothing else is counted.
pub proof fn tunnels_are_counted_by_direction(
    stats: &mut SharedStats,
    connection: &ConnectionContext,
    direction: Direction,
    phase: &mut CopyPhase,
    event: CopyEvent,
)
    requires
        call_ensures(copy_metered, (stats, connection, direction, phase, event), ()),
        stats::is_kept(old(stats)@),
        connection.nic_index < 2,
        direction.can_count(old(stats)@, *connection, old(phase).carried(event)),
    ensures
        ({
            let bytes = if *old(phase) is Writing && event is Written {
                old(phase)->len as nat
            } else {
                0
            };
            count_laws::counts(
                old(stats)@,
                final(stats)@,
                connection.id,
                connection.nic_index,
                if direction is Upstream {
                    bytes
                } else {
                    0
                },
                if direction is Upstream {
                    0
                } else {
                    bytes
                },
            )
        }),
{
    count_laws::lemma_counts(
        old(stats)@,
        connection.id,
        connection.nic_index,
        old(phase).carried(event),
    );
}

/// Counting what goes through does not change what a direction has to do next.
pub proof fn counting_does_not_disturb_the_copying(
    stats: &mut SharedStats,
    connection: &ConnectionContext,
    direction: Direction,
    phase: &mut CopyPhase,
    uncounted: &mut CopyPhase,
    event: CopyEvent,
    bytes: u64,
)
    requires
        call_ensures(copy_metered, (stats, connection, direction, phase, event), ()),
        call_ensures(CopyPhase::advance, (uncounted, event), bytes),
        *old(uncounted) == *old(phase),
    ensures
        *final(phase) == *final(uncounted),
{
}

/// Bytes that go through can be counted exactly where the counters of their direction take them.
pub proof fn tunnels_ask_the_counters_of_their_direction(
    direction: Direction,
    stats: &SharedStats,
    connection: &ConnectionContext,
    phase: CopyPhase,
    event: CopyEvent,
    accepts: bool,
    bytes: u64,
    sends: bool,
    receives: bool,
)
    requires
        call_ensures(Direction::accepts, (direction, stats, connection, phase, event), accepts),
        bytes == if phase is Writing && event is Written {
            phase->len
        } else {
            0
        },
        call_ensures(
            SharedStats::accepts_tx,
            (stats, connection.id, connection.nic_index, bytes),
            sends,
        ),
        call_ensures(
            SharedStats::accepts_rx,
            (stats, connection.id, connection.nic_index, bytes),
            receives,
        ),
    ensures
        direction is Upstream ==> accepts == sends,
        direction is Downstream ==> accepts == receives,
{
}

/// A tunnel is over as soon as one of its directions is done or has failed, and not before.
pub proof fn tunnels_end_with_their_first_direction(
    upstream: CopyPhase,
    downstream: CopyPhase,
    over: bool,
    turned: bool,
)
    requires
        call_ensures(tunnel_is_over, (upstream, downstream), over),
        call_ensures(tunnel_is_over, (downstream, upstream), turned),
    ensures
        over == turned,
        over <==> upstream is Done || upstream is Failed || downstream is Done || downstream is Failed,
{
}

/// A tunnel is reported as failed exactly where one of its directions failed: with the fault of
/// the direction towards the server, or else with that of the other.
pub proof fn tunnels_fail_with_a_direction(
    upstream: CopyPhase,
    downstream: CopyPhase,
    outcome: Result<(), CopyFault>,
)
    requires
        call_ensures(relay_tunnel, (upstream, downstream), outcome),
    ensures
        outcome is Ok <==> !(upstream is Failed) && !(downstream is Failed),
        upstream is Failed ==> outcome is Err && outcome->Err_0 == upstream->fault,
        !(upstream is Failed) && downstream is Failed ==> outcome is Err && outcome->Err_0
            == downstream->fault,
{
}

/// The faults of a tunnel are reported by what failed.
pub proof fn tunnel_faults_are_told_apart(fault: CopyFault, error: String)
    requires
        call_ensures(CopyFault::report, (fault,), error),
    ensures
        fault is Read ==> error@ == "tunnel read failed"@,
        fault is Write ==> error@ == "tunnel write failed"@,
        fault is Shutdown ==> error@ == "tunnel shutdown failed"@,
{
}

/// Whether a connection is to be made to the given host and port.
pub open spec fn leads_to(outcome: Result<(String, u16), String>, host: Seq<char>, port: u16) -> bool {
    match outcome {
        Ok((name, number)) => name@ == host && number == port,
        Err(_) => false,
    }
}

/// A tunnel leads to the host that the target names, at the port that it names, or at port 443
/// where it names none. A target that reads as nothing is refused by name.
pub proof fn tunnels_lead_where_the_target_says(
    target: &str,
    parsed: Option<Option<(String, Option<u16>)>>,
    outcome: Result<(String, u16), String>,
)
    requires
        call_ensures(endpoint_of, (target, parsed), outcome),
    ensures
        match parsed {
            None => outcome is Err && outcome->Err_0@ == "invalid CONNECT target: "@ + target@,
            Some(None) => outcome is Err && outcome->Err_0@
                == "CONNECT target missing authority: "@ + target@,
            Some(Some((host, port))) => leads_to(
                outcome,
                host@,
                match port {
                    Some(port) => port,
                    None => 443,
                },
            ),
        },
{
    let view = dial::endpoint_view(outcome);
    assert(view == dial::endpoint(target@, dial::authority_view(parsed)));
}

/// A plain host with a port behind it is connected to at that port, and without one at port 443.
pub proof fn plain_hosts_are_connected_to(
    target: &str,
    outcome: Result<(String, u16), String>,
    host: Seq<char>,
    port: u16,
)
    requires
        call_ensures(split_host_port, (target,), outcome),
        dial::is_plain_host(host),
    ensures
        target@ == host + ":"@ + text::decimal(port as nat) ==> leads_to(outcome, host, port),
        target@ == host ==> leads_to(outcome, host, 443),
{
    assert(dial::host_and_port(host, Some(port)) == host + ":"@ + text::decimal(
        port as nat,
    ));
    assert(dial::host_and_port(host, None) == host);
    let view = dial::endpoint_view(outcome);
}

/// Of the addresses that were found, the first IPv4 address is taken, and where there is none the
/// target is refused by name.
pub proof fn the_first_ipv4_address_is_taken(
    target: &str,
    addresses: &Vec<SocketAddr>,
    found: Result<usize, String>,
    other: int,
)
    requires
        call_ensures(first_ipv4, (target, addresses), found),
        0 <= other < addresses@.len(),
        addresses@[other] is V4,
    ensures
        found is Ok,
        found->Ok_0 <= other,
        addresses@[found->Ok_0 as int] is V4,
{
    match found {
        Ok(at) => {
            assert(dial::is_first_ipv4(addresses@, at as int));
        },
        Err(_) => {
            assert(dial::has_no_ipv4(addresses@));
        },
    }
}

/// Without an IPv4 address the target is refused by name.
pub proof fn targets_without_ipv4_are_refused(
    target: &str,
    addresses: &Vec<SocketAddr>,
    found: Result<usize, String>,
)
    requires
        call_ensures(first_ipv4, (target, addresses), found),
        forall|i: int| 0 <= i < addresses@.len() ==> (#[trigger] addresses@[i]) is V6,
    ensures
        found is Err,
        found->Err_0@ == "no IPv4 address found for "@ + target@,
{
}

/// What keeps a tunnel from being made is told apart: the look-up, the socket, the interface, the
/// time and the address, each with what it was about.
pub proof fn dial_faults_are_told_apart(
    fault: &DialFault,
    target: &str,
    local_ip: Ipv4Addr,
    error: String,
)
    requires
        call_ensures(DialFault::report, (fault, target, local_ip), error),
    ensures
        *fault is Lookup ==> error@ == "DNS lookup failed for "@ + target@,
        *fault is Socket ==> error@ == "failed to create IPv4 socket"@,
        *fault is Bind ==> error@ == "failed to bind local NIC address "@ + local_ip.dotted(),
        *fault is TimedOut ==> error@ == "CONNECT timed out for "@ + target@,
        *fault is Refused ==> error@ == "failed to connect to "@ + fault->address.printed_form(),
{
}

} // verus!

//! Tunnels: bytes that go to and fro unread, but counted.

use vstd::prelude::*;

use crate::proxy::ConnectionContext;
use crate::stats::{SharedStats, StatsView};

verus! {

/// How many bytes are read at once.
pub const COPY_BUFFER_LEN: usize = 16384;

/// What went wrong while one direction of a tunnel was copied.
#[derive(Debug, Clone, Copy, PartialEq, Eq, Structural)]
pub enum CopyFault {
    Read,
    Write,
    Shutdown,
}

impl CopyFault {
    /// What is reported.
    pub open spec fn message(self) -> Seq<char> {
        match self {
            CopyFault::Read => "tunnel read failed"@,
            CopyFault::Write => "tunnel write failed"@,
            CopyFault::Shutdown => "tunnel shutdown failed"@,
        }
    }

    /// Writes what is reported.
    pub fn report(self) -> (error: String)
        ensures
            error@ == self.message(),
    {
        match self {
            CopyFault::Read => "tunnel read failed".to_owned(),
            CopyFault::Write => "tunnel write failed".to_owned(),
            CopyFault::Shutdown => "tunnel shutdown failed".to_owned(),
        }
    }
}

/// What one direction of a tunnel has to do next.
#[derive(Debug, Clone, Copy, PartialEq, Eq, Structural)]
pub enum CopyPhase {
    /// To read the next piece.
    Reading,
    /// To write the piece of `len` bytes that was read.
    Writing { len: u64 },
    /// To shut the receiving side down, because nothing more comes.
    Closing,
    /// Nothing: everything was copied.
    Done,
    /// Nothing: the copying failed.
    Failed { fault: CopyFault },
}

/// How that went.
#[derive(Debug, Clone, Copy, PartialEq, Eq, Structural)]
pub enum CopyEvent {
    /// A piece of `len` bytes was read. With no bytes the sending side has ended.
    Read { len: u64 },
    /// The piece was written.
    Written,
    /// The receiving side was shut down.
    Closed,
    /// It failed.
    Broken,
}

impl CopyPhase {
    /// Whether `event` can come of what is to be done. What is read at once fits into the buffer.
    pub open spec fn expects(self, event: CopyEvent) -> bool {
        match self {
            CopyPhase::Reading => match event {
                CopyEvent::Read { len } => len <= COPY_BUFFER_LEN,
                _ => event is Broken,
            },
            CopyPhase::Writing { .. } => event is Written || event is Broken,
            CopyPhase::Closing => event is Closed || event is Broken,
            CopyPhase::Done => false,
            CopyPhase::Failed { .. } => false,
        }
    }

    /// What is to be done after `event`.
    pub open spec fn after(self, event: CopyEvent) -> CopyPhase {
        match (self, event) {
            (CopyPhase::Reading, CopyEvent::Read { len }) => if len == 0 {
                CopyPhase::Closing
            } else {
                CopyPhase::Writing { len }
            },
            (CopyPhase::Reading, CopyEvent::Broken) => CopyPhase::Failed { fault: CopyFault::Read },
            (CopyPhase::Writing { .. }, CopyEvent::Written) => CopyPhase::Reading,
            (CopyPhase::Writing { .. }, CopyEvent::Broken) => CopyPhase::Failed {
                fault: CopyFault::Write,
            },
            (CopyPhase::Closing, CopyEvent::Closed) => CopyPhase::Done,
            (CopyPhase::Closing, CopyEvent::Broken) => CopyPhase::Failed {
                fault: CopyFault::Shutdown,
            },
            _ => self,
        }
    }

    /// How many bytes went through with `event`: those of a piece once it is written.
    pub open spec fn carried(self, event: CopyEvent) -> u64 {
        match (self, event) {
            (CopyPhase::Writing { len }, CopyEvent::Written) => len,
            _ => 0,
        }
    }

    /// Takes in how it went, and returns how many bytes went through with it.
    pub fn advance(&mut self, event: CopyEvent) -> (bytes: u64)
        ensures
            *final(self) == old(self).after(event),
            bytes == old(self).carried(event),
    {
        match (*self, event) {
            (CopyPhase::Reading, CopyEvent::Read { len }) => {
                *self = if len == 0 {
                    CopyPhase::Closing
                } else {
                    CopyPhase::Writing { len }
                };
                0
            },
            (CopyPhase::Reading, CopyEvent::Broken) => {
                *self = CopyPhase::Failed { fault: CopyFault::Read };
                0
            },
            (CopyPhase::Writing { len }, CopyEvent::Written) => {
                *self = CopyPhase::Reading;
                len
            },
            (CopyPhase::Writing { .. }, CopyEvent::Broken) => {
                *self = CopyPhase::Failed { fault: CopyFault::Write };
                0
            },
            (CopyPhase::Closing, CopyEvent::Closed) => {
                *self = CopyPhase::Done;
                0
            },
            (CopyPhase::Closing, CopyEvent::Broken) => {
                *self = CopyPhase::Failed { fault: CopyFault::Shutdown };
                0
            },
            _ => 0,
        }
    }
}

/// A direction of a tunnel.
#[derive(Debug, Clone, Copy, PartialEq, Eq, Structural)]
pub enum Direction {
    /// From the client to the server.
    Upstream,
    /// From the server to the client.
    Downstream,
}

impl Direction {
    /// The statistics after `bytes` went this way for a connection, over its interface.
    pub open spec fn counted(
        self,
        stats: StatsView,
        connection: ConnectionContext,
        bytes: u64,
    ) -> StatsView {
        match self {
            Direction::Upstream => stats.sent(connection.id, connection.nic_index, bytes),
            Direction::Downstream => stats.received(connection.id, connection.nic_index, bytes),
        }
    }

    /// Whether `bytes` more bytes can be counted this way.
    pub open spec fn can_count(
        self,
        stats: StatsView,
        connection: ConnectionContext,
        bytes: u64,
    ) -> bool {
        match self {
            Direction::Upstream => stats.can_send(connection.id, connection.nic_index, bytes),
            Direction::Downstream => stats.can_receive(connection.id, connection.nic_index, bytes),
        }
    }

    /// Whether what goes through with `event` can be counted.
    pub fn accepts(
        self,
        stats: &SharedStats,
        connection: &ConnectionContext,
        phase: CopyPhase,
        event: CopyEvent,
    ) -> (accepts: bool)
        ensures
            accepts == self.can_count(stats@, *connection, phase.carried(event)),
    {
        let mut next = phase;
        let bytes: u64 = next.advance(event);
        match self {
            Direction::Upstream => stats.accepts_tx(connection.id, connection.nic_index, bytes),
            Direction::Downstream => stats.accepts_rx(connection.id, connection.nic_index, bytes),
        }
    }
}

/// Takes in how one direction of a tunnel fared, and counts what went through at once.
pub fn copy_metered(
    stats: &mut SharedStats,
    connection: &ConnectionContext,
    direction: Direction,
    phase: &mut CopyPhase,
    event: CopyEvent,
)
    requires
        direction.can_count(old(stats)@, *connection, old(phase).carried(event)),
    ensures
        *final(phase) == old(phase).after(event),
        final(stats)@ == direction.counted(old(stats)@, *connection, old(phase).carried(event)),
{
    let bytes: u64 = phase.advance(event);
    match direction {
        Direction::Upstream => stats.add_tx(connection.id, connection.nic_index, bytes),
        Direction::Downstream => stats.add_rx(connection.id, connection.nic_index, bytes),
    }
}

/// How the relaying between a client and a server ended.
#[derive(Debug)]
pub enum TunnelEnd {
    /// The client's connection did not become a tunnel.
    NotUpgraded { error: String },
    /// One of the directions, or both, came to an end.
    Relayed { upstream: CopyPhase, downstream: CopyPhase },
}

impl CopyPhase {
    /// The fault that ended the copying, if one did.
    pub open spec fn fault(self) -> Option<CopyFault> {
        match self {
            CopyPhase::Failed { fault } => Some(fault),
            _ => None,
        }
    }
}

/// What one of the two directions failed with: the upstream one where both did.
pub open spec fn relay_fault(upstream: CopyPhase, downstream: CopyPhase) -> Option<CopyFault> {
    match upstream.fault() {
        Some(fault) => Some(fault),
        None => downstream.fault(),
    }
}

impl CopyPhase {
    /// Whether a direction came to its end, well or not.
    pub open spec fn has_ended(self) -> bool {
        self is Done || self is Failed
    }
}

/// Whether a tunnel is over: as soon as one of its directions has ended or failed.
pub fn tunnel_is_over(upstream: CopyPhase, downstream: CopyPhase) -> (over: bool)
    ensures
        over == (upstream.has_ended() || downstream.has_ended()),
{
    match upstream {
        CopyPhase::Done | CopyPhase::Failed { .. } => true,
        _ => match downstream {
            CopyPhase::Done | CopyPhase::Failed { .. } => true,
            _ => false,
        },
    }
}

/// The fault that a relay is reported with, if any.
pub fn relay_tunnel(upstream: CopyPhase, downstream: CopyPhase) -> (outcome: Result<(), CopyFault>)
    ensures
        match outcome {
            Ok(_) => relay_fault(upstream, downstream) is None,
            Err(fault) => relay_fault(upstream, downstream) == Some(fault),
        },
{
    match upstream {
        CopyPhase::Failed { fault } => Err(fault),
        _ => match downstream {
            CopyPhase::Failed { fault } => Err(fault),
            _ => Ok(()),
        },
    }
}

impl TunnelEnd {
    /// Why a tunnel failed, if it did.
    pub open spec fn fault(self) -> Option<Seq<char>> {
        match self {
            TunnelEnd::NotUpgraded { error } => Some("upgrade failed: "@ + error@),
            TunnelEnd::Relayed { upstream, downstream } => match relay_fault(upstream, downstream) {
                Some(fault) => Some(fault.message()),
                None => None,
            },
        }
    }
}

/// The statistics once a tunnel is over.
pub open spec fn after_tunnel(
    stats: StatsView,
    connection: ConnectionContext,
    end: TunnelEnd,
    now: nat,
) -> StatsView {
    match end.fault() {
        Some(error) => stats.failed(connection.id, error, now),
        None => stats.finished(connection.id, "closed"@, now),
    }
}

/// What is to be done after some events.
pub open spec fn phase_after(phase: CopyPhase, events: Seq<CopyEvent>) -> CopyPhase
    decreases events.len(),
{
    if events.len() == 0 {
        phase
    } else {
        phase_after(phase, events.drop_last()).after(events.last())
    }
}

/// Whether each of some events can come of what is to be done at that point.
pub open spec fn all_expected(phase: CopyPhase, events: Seq<CopyEvent>) -> bool
    decreases events.len(),
{
    events.len() > 0 ==> all_expected(phase, events.drop_last()) && phase_after(
        phase,
        events.drop_last(),
    ).expects(events.last())
}

/// How many bytes went through with some events.
pub open spec fn total_carried(phase: CopyPhase, events: Seq<CopyEvent>) -> nat
    decreases events.len(),
{
    if events.len() == 0 {
        0
    } else {
        total_carried(phase, events.drop_last()) + phase_after(phase, events.drop_last()).carried(
            events.last(),
        ) as nat
    }
}

/// How many bytes were read with some events.
pub open spec fn total_read(events: Seq<CopyEvent>) -> nat
    decreases events.len(),
{
    if events.len() == 0 {
        0
    } else {
        total_read(events.drop_last()) + match events.last() {
            CopyEvent::Read { len } => len as nat,
            _ => 0,
        }
    }
}

/// Every byte that one direction of a tunnel reads is carried, except for the piece that is just
/// being written or whose writing failed. Bytes carried before a failure stay counted.
pub proof fn read_bytes_are_carried(events: Seq<CopyEvent>)
    requires
        all_expected(CopyPhase::Reading, events),
    ensures
        match phase_after(CopyPhase::Reading, events) {
            CopyPhase::Writing { len } => total_carried(CopyPhase::Reading, events) + len
                == total_read(events),
            CopyPhase::Failed { fault: CopyFault::Write } => total_carried(
                CopyPhase::Reading,
                events,
            ) + total_read(seq![events[events.len() - 2]]) == total_read(events),
            _ => total_carried(CopyPhase::Reading, events) == total_read(events),
        },
    decreases events.len(),
{
    if events.len() > 0 {
        let before = events.drop_last();
        read_bytes_are_carried(before);
        reveal_with_fuel(all_expected, 2);
        if phase_after(CopyPhase::Reading, before) is Writing {
            assert(before.len() > 0);
            assert(before.last() == events[events.len() - 2]);
            let one = seq![before.last()];
            assert(one.drop_last() =~= seq![]);
            assert(total_read(one.drop_last()) == 0);
            assert(one.last() == before.last());
            let earlier = phase_after(CopyPhase::Reading, before.drop_last());
            assert(earlier.after(before.last()) is Writing);
            assert(earlier.expects(before.last()));
        }
    }
}

} // verus!

//! The state that all connections share, and what each connection is given.

use vstd::prelude::*;

use crate::cli::RuntimeOptions;
use crate::clock::Duration;
use crate::config::Config;
use crate::net::SocketAddr;
use crate::stats::{SharedStats, StatsView};
use crate::text;
use crate::text::decimal_text;

verus! {

/// What the proxy runs with, its statistics, and whose turn it is.
#[derive(Debug)]
pub struct ProxyState {
    pub config: Config,
    pub options: RuntimeOptions,
    pub stats: SharedStats,
    pub turns: Turns,
}

/// Which number and which interface the next client is given.
#[derive(Debug)]
pub struct Turns {
    next_nic_index: usize,
    next_connection_id: u64,
}

/// A client connection: its number, the interface it was assigned and where it came from.
#[derive(Debug, Clone)]
pub struct ConnectionContext {
    pub id: u64,
    pub nic_index: usize,
    pub peer: SocketAddr,
}

/// The interface that comes after `nic_index` in turn.
pub open spec fn other_nic(nic_index: usize) -> usize {
    if nic_index == 0 {
        1
    } else {
        0
    }
}

/// The number that comes after `id`. Behind the last number the count begins again.
pub open spec fn following_id(id: u64) -> u64 {
    if id == u64::MAX {
        0
    } else {
        (id + 1) as u64
    }
}

/// The statistics once a client is gone: with the error that ended its connection, if one did,
/// and without the connection where its client made no request.
pub open spec fn after_connection(
    stats: StatsView,
    connection: ConnectionContext,
    error: Option<Seq<char>>,
    now: nat,
) -> StatsView {
    match error {
        Some(error) => stats.with_event(
            "connection #"@ + text::decimal(connection.id as nat) + " from "@
                + connection.peer.printed_form() + " failed: "@ + error,
            now,
        ),
        None => stats,
    }.tcp_closed(connection.id)
}

impl Turns {
    /// The interface that the next client is assigned.
    pub closed spec fn next_nic(self) -> usize {
        (self.next_nic_index % 2) as usize
    }

    /// The number that the next client is given.
    pub closed spec fn next_id(self) -> u64 {
        self.next_connection_id
    }

    /// The turns at the start: the first client has the number one and the first interface.
    fn new() -> (turns: Self)
        ensures
            turns.next_nic() == 0,
            turns.next_id() == 1,
    {
        Turns { next_nic_index: 0, next_connection_id: 1 }
    }

    /// Takes a turn: the number and the interface that it gives.
    fn take(&mut self) -> (turn: (u64, usize))
        ensures
            turn.0 == old(self).next_id(),
            turn.1 == old(self).next_nic(),
            turn.1 < 2,
            final(self).next_id() == following_id(old(self).next_id()),
            final(self).next_nic() == other_nic(old(self).next_nic()),
    {
        let id: u64 = self.next_connection_id;
        let nic_index: usize = self.next_nic_index % 2;
        self.next_connection_id = id.wrapping_add(1);
        self.next_nic_index = self.next_nic_index.wrapping_add(1);
        (id, nic_index)
    }
}

impl ProxyState {
    /// The state of a proxy that starts now.
    pub fn new(config: Config, options: RuntimeOptions, now: Duration) -> (state: Self)
        requires
            config.is_valid(),
        ensures
            state.config == config,
            state.options == options,
            state.stats@ == StatsView::initial(config, options, now@),
            state.turns.next_nic() == 0,
            state.turns.next_id() == 1,
    {
        let stats = SharedStats::new(&config, options, now);
        ProxyState { config, options, stats, turns: Turns::new() }
    }

    /// Whether the next client can be counted on the interface it will be assigned.
    pub open spec fn has_room(self) -> bool {
        self.stats@.nics[self.turns.next_nic() as int].opened_connections < u64::MAX
    }

    /// Whether the next client can be counted on the interface it will be assigned.
    pub fn accepts_connection(&self) -> (accepts: bool)
        ensures
            accepts == self.has_room(),
    {
        self.stats.accepts_inbound(self.turns.next_nic_index % 2)
    }

    /// Takes in a client: gives it a number and the interface whose turn it is.
    pub fn next_connection(&mut self, peer: SocketAddr, now: Duration) -> (connection:
        ConnectionContext)
        requires
            old(self).has_room(),
        ensures
            connection.id == old(self).turns.next_id(),
            connection.nic_index == old(self).turns.next_nic(),
            connection.nic_index < 2,
            connection.peer == peer,
            final(self).config == old(self).config,
            final(self).options == old(self).options,
            final(self).turns.next_id() == following_id(old(self).turns.next_id()),
            final(self).turns.next_nic() == other_nic(old(self).turns.next_nic()),
            final(self).stats@ == old(self).stats@.inbound(
                connection.id,
                peer,
                connection.nic_index,
                now@,
            ),
    {
        let (id, nic_index): (u64, usize) = self.turns.take();
        self.stats.record_inbound(id, &peer, nic_index, now);
        ConnectionContext { id, nic_index, peer }
    }

    /// Records that a client is gone, with the error that ended its connection, if one did.
    pub fn connection_ended(
        &mut self,
        connection: &ConnectionContext,
        error: Option<&str>,
        now: Duration,
    )
        ensures
            final(self).config == old(self).config,
            final(self).options == old(self).options,
            final(self).turns == old(self).turns,
            final(self).stats@ == after_connection(
                old(self).stats@,
                *connection,
                match error {
                    Some(error) => Some(error@),
                    None => None,
                },
                now@,
            ),
    {
        if let Some(error) = error {
            let mut event = "connection #".to_owned();
            event.append(decimal_text(connection.id).as_str());
            event.append(" from ");
            event.append(connection.peer.to_text().as_str());
            event.append(" failed: ");
            event.append(error);
            self.stats.record_event(event.as_str(), now);
        }
        self.stats.finish_pending_tcp(connection.id);
    }
}

/// The interface that the client number `turn`, counted from zero, is assigned after a start.
pub open spec fn nic_of_turn(turn: nat) -> usize
    decreases turn,
{
    if turn == 0 {
        0
    } else {
        other_nic(nic_of_turn((turn - 1) as nat))
    }
}

/// The number that the client number `turn`, counted from zero, is given after a start.
pub open spec fn id_of_turn(turn: nat) -> u64
    decreases turn,
{
    if turn == 0 {
        1
    } else {
        following_id(id_of_turn((turn - 1) as nat))
    }
}

/// Clients are numbered from one on, and no number comes twice before all are used up.
pub proof fn numbers_do_not_repeat(turn: nat)
    requires
        turn < u64::MAX,
    ensures
        id_of_turn(turn) == turn + 1,
    decreases turn,
{
    if turn > 0 {
        numbers_do_not_repeat((turn - 1) as nat);
    }
}

/// Clients are assigned the two interfaces in turn: the first, third, fifth client the first
/// interface and all others the second.
pub proof fn nics_take_turns(turn: nat)
    ensures
        nic_of_turn(turn) == turn % 2,
    decreases turn,
{
    if turn > 0 {
        nics_take_turns((turn - 1) as nat);
    }
}

} // verus!

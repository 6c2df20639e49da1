//! What the proxy counts and remembers about its traffic.

use std::collections::{BTreeMap, VecDeque};

use vstd::prelude::*;

use crate::cli::RuntimeOptions;
use crate::clock;
use crate::clock::{format_compact_duration, Duration};
use crate::config::Config;
use crate::net::{Ipv4Addr, SocketAddr};
use crate::rate;
use crate::rate::rate_of;
use crate::text;
use crate::text::{decimal_text, same_text};
use crate::units;
use crate::units::human_bytes;

verus! {

broadcast use {vstd::std_specs::btree::group_btree_axioms, vstd::laws_cmp::group_laws_cmp};

/// How many of the latest events are remembered.
pub const RECENT_EVENT_LIMIT: usize = 10;

/// Over how many seconds throughput is averaged at most.
pub const THROUGHPUT_WINDOW_SECS: u64 = 10;

/// How many active connections a snapshot shows at most.
pub const SHOWN_CONNECTION_LIMIT: usize = 10;

/// The counters of one interface.
#[derive(Debug, Clone, Copy)]
pub struct NicStats {
    pub ip: Ipv4Addr,
    pub total_tx: u64,
    pub total_rx: u64,
    pub opened_connections: u64,
    pub failed_connections: u64,
}

/// Bytes sent and bytes received.
#[derive(Debug, Clone, Copy)]
pub struct NicTotals {
    pub tx: u64,
    pub rx: u64,
}

/// The totals of both interfaces at one moment.
#[derive(Debug)]
struct TrafficSample {
    sampled_at: Duration,
    nics: [NicTotals; 2],
}

/// One active connection.
#[derive(Debug)]
struct ConnectionStats {
    id: u64,
    nic_index: usize,
    kind: String,
    target: String,
    started_at: Duration,
    tx: u64,
    rx: u64,
    state: String,
}

/// The statistics that all connections of the proxy share. Every operation that depends on the
/// time takes the reading of the clock as an argument.
#[derive(Debug)]
pub struct SharedStats {
    started_at: Duration,
    listen: SocketAddr,
    range_split_enabled: bool,
    nics: [NicStats; 2],
    traffic_samples: VecDeque<TrafficSample>,
    active_connections: BTreeMap<u64, ConnectionStats>,
    recent_events: VecDeque<String>,
}

/// The totals of both interfaces at one moment.
#[verifier::ext_equal]
pub struct SampleView {
    pub at: nat,
    pub nics: Seq<NicTotals>,
}

/// One active connection.
#[verifier::ext_equal]
pub struct ConnectionView {
    pub id: u64,
    pub nic_index: usize,
    pub kind: Seq<char>,
    pub target: Seq<char>,
    pub started_at: nat,
    pub tx: u64,
    pub rx: u64,
    pub state: Seq<char>,
}

/// The statistics as a value: clock readings as numbers of nanoseconds, the active connections
/// under their numbers, and the latest events, the oldest first.
#[verifier::ext_equal]
pub struct StatsView {
    pub started_at: nat,
    pub listen: SocketAddr,
    pub range_split_enabled: bool,
    pub nics: Seq<NicStats>,
    pub samples: Seq<SampleView>,
    pub active: Map<u64, ConnectionView>,
    pub events: Seq<Seq<char>>,
}

impl View for TrafficSample {
    type V = SampleView;

    closed spec fn view(&self) -> SampleView {
        SampleView { at: self.sampled_at@, nics: self.nics@ }
    }
}

impl View for ConnectionStats {
    type V = ConnectionView;

    closed spec fn view(&self) -> ConnectionView {
        ConnectionView {
            id: self.id,
            nic_index: self.nic_index,
            kind: self.kind@,
            target: self.target@,
            started_at: self.started_at@,
            tx: self.tx,
            rx: self.rx,
            state: self.state@,
        }
    }
}

impl View for SharedStats {
    type V = StatsView;

    closed spec fn view(&self) -> StatsView {
        StatsView {
            started_at: self.started_at@,
            listen: self.listen,
            range_split_enabled: self.range_split_enabled,
            nics: self.nics@,
            samples: sample_views(self.traffic_samples@),
            active: connection_views(self.active_connections@),
            events: text::texts(self.recent_events@),
        }
    }
}

/// The views of some samples.
spec fn sample_views(samples: Seq<TrafficSample>) -> Seq<SampleView> {
    samples.map_values(|sample: TrafficSample| sample@)
}

/// The views of some connections.
spec fn connection_views(connections: Map<u64, ConnectionStats>) -> Map<u64, ConnectionView> {
    connections.map_values(|connection: ConnectionStats| connection@)
}

/// Whether there are finitely many connections, each under its own number.
spec fn is_filed(connections: Map<u64, ConnectionStats>) -> bool {
    &&& connections.dom().finite()
    &&& forall|id: u64| #[trigger]
        connections.contains_key(id) ==> connections[id].id == id
}

/// The last events of a list, as many as are remembered.
pub open spec fn latest(events: Seq<Seq<char>>) -> Seq<Seq<char>> {
    if events.len() > RECENT_EVENT_LIMIT {
        events.skip(events.len() - RECENT_EVENT_LIMIT)
    } else {
        events
    }
}

impl StatsView {
    /// The statistics with one more event, marked with the time since the start.
    pub open spec fn with_event(self, event: Seq<char>, now: nat) -> StatsView {
        StatsView {
            events: latest(
                self.events.push(
                    "+"@ + clock::compact(clock::elapsed(now, self.started_at)) + "  "@ + event,
                ),
            ),
            ..self
        }
    }

    /// The statistics with another set of counters for one interface.
    pub open spec fn with_nic(self, nic_index: int, nic: NicStats) -> StatsView {
        StatsView { nics: self.nics.update(nic_index, nic), ..self }
    }

    /// The statistics with `connection` active under the number `id`.
    pub open spec fn with_connection(self, id: u64, connection: ConnectionView) -> StatsView {
        StatsView { active: self.active.insert(id, connection), ..self }
    }

    /// The statistics without an active connection under the number `id`.
    pub open spec fn without_connection(self, id: u64) -> StatsView {
        StatsView { active: self.active.remove(id), ..self }
    }

    /// After a client connected from `peer` and was assigned an interface.
    pub open spec fn inbound(
        self,
        id: u64,
        peer: SocketAddr,
        nic_index: usize,
        now: nat,
    ) -> StatsView {
        let nic = self.nics[nic_index as int];
        self.with_nic(
            nic_index as int,
            NicStats { opened_connections: (nic.opened_connections + 1) as u64, ..nic },
        ).with_connection(
            id,
            ConnectionView {
                id,
                nic_index,
                kind: "TCP"@,
                target: peer.printed_form(),
                started_at: now,
                tx: 0,
                rx: 0,
                state: "accepted"@,
            },
        ).with_event(
            "inbound #"@ + text::decimal(id as nat) + " from "@ + peer.printed_form()
                + " assigned NIC["@ + text::decimal(nic_index as nat) + "] "@ + nic.ip.dotted(),
            now,
        )
    }

    /// After the connection `id` took up what `kind`, `target` and `state` say over an interface.
    /// A connection that was active keeps its counters and its start.
    pub open spec fn started(
        self,
        id: u64,
        nic_index: usize,
        kind: Seq<char>,
        target: Seq<char>,
        state: Seq<char>,
        now: nat,
    ) -> StatsView {
        self.with_connection(
            id,
            if self.active.contains_key(id) {
                ConnectionView { nic_index, kind, target, state, ..self.active[id] }
            } else {
                ConnectionView { id, nic_index, kind, target, started_at: now, tx: 0, rx: 0, state }
            },
        ).with_event(
            kind + " #"@ + text::decimal(id as nat) + " "@ + target + " "@ + state + " via NIC["@
                + text::decimal(nic_index as nat) + "]"@,
            now,
        )
    }

    /// After the connection `id`, where it is active, moved to another state.
    pub open spec fn in_state(self, id: u64, state: Seq<char>) -> StatsView {
        if self.active.contains_key(id) {
            self.with_connection(id, ConnectionView { state, ..self.active[id] })
        } else {
            self
        }
    }

    /// After `bytes` were sent over an interface for the connection `id`.
    pub open spec fn sent(self, id: u64, nic_index: usize, bytes: u64) -> StatsView {
        if bytes == 0 {
            self
        } else {
            let nic = self.nics[nic_index as int];
            let counted = self.with_nic(
                nic_index as int,
                NicStats { total_tx: (nic.total_tx + bytes) as u64, ..nic },
            );
            if self.active.contains_key(id) {
                let connection = self.active[id];
                counted.with_connection(
                    id,
                    ConnectionView { tx: (connection.tx + bytes) as u64, ..connection },
                )
            } else {
                counted
            }
        }
    }

    /// After `bytes` were received over an interface for the connection `id`.
    pub open spec fn received(self, id: u64, nic_index: usize, bytes: u64) -> StatsView {
        if bytes == 0 {
            self
        } else {
            let nic = self.nics[nic_index as int];
            let counted = self.with_nic(
                nic_index as int,
                NicStats { total_rx: (nic.total_rx + bytes) as u64, ..nic },
            );
            if self.active.contains_key(id) {
                let connection = self.active[id];
                counted.with_connection(
                    id,
                    ConnectionView { rx: (connection.rx + bytes) as u64, ..connection },
                )
            } else {
                counted
            }
        }
    }

    /// Whether `bytes` more sent bytes can be counted.
    pub open spec fn can_send(self, id: u64, nic_index: usize, bytes: u64) -> bool {
        bytes > 0 ==> {
            &&& nic_index < 2
            &&& self.nics[nic_index as int].total_tx + bytes <= u64::MAX
            &&& self.active.contains_key(id) ==> self.active[id].tx + bytes <= u64::MAX
        }
    }

    /// Whether `bytes` more received bytes can be counted.
    pub open spec fn can_receive(self, id: u64, nic_index: usize, bytes: u64) -> bool {
        bytes > 0 ==> {
            &&& nic_index < 2
            &&& self.nics[nic_index as int].total_rx + bytes <= u64::MAX
            &&& self.active.contains_key(id) ==> self.active[id].rx + bytes <= u64::MAX
        }
    }

    /// After the connection `id`, where it was active, ended in the given state.
    pub open spec fn finished(self, id: u64, state: Seq<char>, now: nat) -> StatsView {
        if self.active.contains_key(id) {
            let connection = self.active[id];
            self.without_connection(id).with_event(
                connection.kind + " #"@ + text::decimal(connection.id as nat) + " "@ + state
                    + " after "@ + clock::compact(clock::elapsed(now, connection.started_at))
                    + " tx "@ + units::human(connection.tx) + " rx "@ + units::human(connection.rx),
                now,
            )
        } else {
            self
        }
    }

    /// After a client that made no request, where `id` is one, went away.
    pub open spec fn tcp_closed(self, id: u64) -> StatsView {
        if self.active.contains_key(id) && self.active[id].kind == "TCP"@ {
            self.without_connection(id)
        } else {
            self
        }
    }

    /// After the connection `id` failed.
    pub open spec fn failed(self, id: u64, error: Seq<char>, now: nat) -> StatsView {
        if self.active.contains_key(id) {
            let connection = self.active[id];
            let nic = self.nics[connection.nic_index as int];
            self.without_connection(id).with_nic(
                connection.nic_index as int,
                NicStats { failed_connections: (nic.failed_connections + 1) as u64, ..nic },
            ).with_event(
                connection.kind + " #"@ + text::decimal(connection.id as nat) + " failed after "@
                    + clock::compact(clock::elapsed(now, connection.started_at)) + " tx "@
                    + units::human(connection.tx) + " rx "@ + units::human(connection.rx) + ": "@
                    + error,
                now,
            )
        } else {
            self.with_event(
                "connection #"@ + text::decimal(id as nat) + " failed: "@ + error,
                now,
            )
        }
    }

    /// Whether a failure of the connection `id` can be counted.
    pub open spec fn can_fail(self, id: u64) -> bool {
        self.active.contains_key(id) ==> {
            &&& self.active[id].nic_index < 2
            &&& self.nics[self.active[id].nic_index as int].failed_connections < u64::MAX
        }
    }
}

/// What holds of the statistics of every proxy at any time: there are two interfaces, samples of
/// both, few events, and each active connection stands under its own number.
pub open spec fn is_kept(stats: StatsView) -> bool {
    &&& stats.nics.len() == 2
    &&& stats.samples.len() > 0
    &&& forall|i: int| 0 <= i < stats.samples.len() ==> (#[trigger] stats.samples[i]).nics.len() == 2
    &&& stats.events.len() <= RECENT_EVENT_LIMIT
    &&& stats.active.dom().finite()
    &&& forall|id: u64| #[trigger]
        stats.active.contains_key(id) ==> stats.active[id].id == id
}

impl SharedStats {
    /// The invariant of the type.
    #[verifier::type_invariant]
    pub open spec fn keeps_order(self) -> bool {
        is_kept(self@)
    }

    /// Takes the active connections out, to put them back changed.
    fn take_active(&mut self) -> (active: BTreeMap<u64, ConnectionStats>)
        ensures
            active@ == old(self).active_connections@,
            connection_views(active@) == old(self)@.active,
            is_filed(active@),
            final(self)@ == (StatsView { active: Map::empty(), ..old(self)@ }),
    {
        proof {
            use_type_invariant(&*self);
            let known = self.active_connections@;
            assert(connection_views(known).dom() =~= known.dom());
            assert forall|id: u64| known.contains_key(id) implies #[trigger] known[id].id == id by {
                assert(self@.active.contains_key(id));
            }
        }
        let mut active = BTreeMap::new();
        assert(connection_views(active@) =~= Map::empty());
        std::mem::swap(&mut active, &mut self.active_connections);
        active
    }

    /// Puts the active connections back.
    fn put_active(&mut self, active: BTreeMap<u64, ConnectionStats>)
        requires
            is_filed(active@),
        ensures
            final(self)@ == (StatsView { active: connection_views(active@), ..old(self)@ }),
    {
        proof {
            use_type_invariant(&*self);
            let views = connection_views(active@);
            assert(views.dom() =~= active@.dom());
            assert forall|id: u64| #[trigger] views.contains_key(id) implies views[id].id == id by {
                assert(active@.contains_key(id));
            }
        }
        self.active_connections = active;
    }

    /// Remembers an event, and forgets the oldest once there are too many.
    fn push_event(&mut self, event: &str, now: Duration)
        ensures
            final(self)@ == old(self)@.with_event(event@, now@),
    {
        proof {
            use_type_invariant(&*self);
        }
        let mut line = "+".to_owned();
        line.append(format_compact_duration(now.since(&self.started_at)).as_str());
        line.append("  ");
        line.append(event);
        let mut events = VecDeque::new();
        std::mem::swap(&mut events, &mut self.recent_events);
        let ghost known = events@;
        events.push_back(line);
        let ghost all = known.push(line);
        assert(events@ =~= all);
        while events.len() > RECENT_EVENT_LIMIT
            invariant
                events@.len() <= all.len(),
                events@ == all.skip(all.len() - events@.len()),
                events@.len() == all.len() || events@.len() >= RECENT_EVENT_LIMIT,
            decreases events@.len(),
        {
            let ghost before = events@;
            events.pop_front();
            assert(events@ =~= before.skip(1));
            assert(events@ =~= all.skip(all.len() - events@.len()));
        }
        assert(text::texts(events@) =~= latest(old(self)@.events.push(line@)));
        self.recent_events = events;
        assert(self@ =~= old(self)@.with_event(event@, now@));
    }

    /// Records that a client connected from `peer` and was assigned an interface.
    pub fn record_inbound(&mut self, id: u64, peer: &SocketAddr, nic_index: usize, now: Duration)
        requires
            nic_index < 2,
            old(self)@.nics[nic_index as int].opened_connections < u64::MAX,
        ensures
            final(self)@ == old(self)@.inbound(id, *peer, nic_index, now@),
    {
        proof {
            use_type_invariant(&*self);
        }
        let nic_ip = self.nics[nic_index].ip.to_text();
        self.nics[nic_index].opened_connections = self.nics[nic_index].opened_connections + 1;
        let peer_text = peer.to_text();
        let mut event = "inbound #".to_owned();
        event.append(decimal_text(id).as_str());
        event.append(" from ");
        event.append(peer_text.as_str());
        event.append(" assigned NIC[");
        event.append(decimal_text(nic_index as u64).as_str());
        event.append("] ");
        event.append(nic_ip.as_str());
        let mut active = self.take_active();
        active.insert(
            id,
            ConnectionStats {
                id,
                nic_index,
                kind: "TCP".to_owned(),
                target: peer_text,
                started_at: now,
                tx: 0,
                rx: 0,
                state: "accepted".to_owned(),
            },
        );
        self.put_active(active);
        self.push_event(event.as_str(), now);
    }

    /// Records that the connection `id` took up what `kind`, `target` and `state` say.
    pub fn start_connection(
        &mut self,
        id: u64,
        nic_index: usize,
        kind: &str,
        target: &str,
        state: &str,
        now: Duration,
    )
        ensures
            final(self)@ == old(self)@.started(id, nic_index, kind@, target@, state@, now@),
    {
        let mut active = self.take_active();
        let mut entry = match active.remove(&id) {
            Some(entry) => entry,
            None => ConnectionStats {
                id,
                nic_index,
                kind: kind.to_owned(),
                target: target.to_owned(),
                started_at: now,
                tx: 0,
                rx: 0,
                state: state.to_owned(),
            },
        };
        entry.nic_index = nic_index;
        entry.kind = kind.to_owned();
        entry.target = target.to_owned();
        entry.state = state.to_owned();
        active.insert(id, entry);
        self.put_active(active);
        let mut event = kind.to_owned();
        event.append(" #");
        event.append(decimal_text(id).as_str());
        event.append(" ");
        event.append(target);
        event.append(" ");
        event.append(state);
        event.append(" via NIC[");
        event.append(decimal_text(nic_index as u64).as_str());
        event.append("]");
        self.push_event(event.as_str(), now);
    }

    /// Moves the connection `id`, where it is active, to another state.
    pub fn set_state(&mut self, id: u64, state: &str)
        ensures
            final(self)@ == old(self)@.in_state(id, state@),
    {
        let mut active = self.take_active();
        if let Some(mut connection) = active.remove(&id) {
            connection.state = state.to_owned();
            active.insert(id, connection);
        }
        self.put_active(active);
    }

    /// Remembers an event.
    pub fn record_event(&mut self, event: &str, now: Duration)
        ensures
            final(self)@ == old(self)@.with_event(event@, now@),
    {
        self.push_event(event, now);
    }

    /// Counts bytes that were sent for the connection `id` over an interface.
    pub fn add_tx(&mut self, id: u64, nic_index: usize, bytes: u64)
        requires
            old(self)@.can_send(id, nic_index, bytes),
        ensures
            final(self)@ == old(self)@.sent(id, nic_index, bytes),
    {
        proof {
            use_type_invariant(&*self);
        }
        if bytes == 0 {
            return;
        }
        self.nics[nic_index].total_tx = self.nics[nic_index].total_tx + bytes;
        let mut active = self.take_active();
        if let Some(mut connection) = active.remove(&id) {
            connection.tx = connection.tx + bytes;
            active.insert(id, connection);
        }
        self.put_active(active);
    }

    /// Counts bytes that were received for the connection `id` over an interface.
    pub fn add_rx(&mut self, id: u64, nic_index: usize, bytes: u64)
        requires
            old(self)@.can_receive(id, nic_index, bytes),
        ensures
            final(self)@ == old(self)@.received(id, nic_index, bytes),
    {
        proof {
            use_type_invariant(&*self);
        }
        if bytes == 0 {
            return;
        }
        self.nics[nic_index].total_rx = self.nics[nic_index].total_rx + bytes;
        let mut active = self.take_active();
        if let Some(mut connection) = active.remove(&id) {
            connection.rx = connection.rx + bytes;
            active.insert(id, connection);
        }
        self.put_active(active);
    }

    /// Records that the connection `id`, where it is active, ended in the given state.
    pub fn finish_connection(&mut self, id: u64, state: &str, now: Duration)
        ensures
            final(self)@ == old(self)@.finished(id, state@, now@),
    {
        let mut active = self.take_active();
        let ended = active.remove(&id);
        self.put_active(active);
        let connection = match ended {
            Some(connection) => connection,
            None => {
                assert(self@ =~= old(self)@);
                return;
            },
        };
        let mut event = connection.kind.clone();
        event.append(" #");
        event.append(decimal_text(connection.id).as_str());
        event.append(" ");
        event.append(state);
        event.append(" after ");
        event.append(format_compact_duration(now.since(&connection.started_at)).as_str());
        event.append(" tx ");
        event.append(human_bytes(connection.tx).as_str());
        event.append(" rx ");
        event.append(human_bytes(connection.rx).as_str());
        self.push_event(event.as_str(), now);
    }

    /// Forgets the connection `id` where its client made no request.
    pub fn finish_pending_tcp(&mut self, id: u64)
        ensures
            final(self)@ == old(self)@.tcp_closed(id),
    {
        proof {
            use_type_invariant(&*self);
        }
        let pending = match self.active_connections.get(&id) {
            Some(connection) => same_text(connection.kind.as_str(), "TCP"),
            None => false,
        };
        if pending {
            let mut active = self.take_active();
            active.remove(&id);
            self.put_active(active);
        }
    }

    /// Records that the connection `id` failed.
    pub fn fail_connection(&mut self, id: u64, error: &str, now: Duration)
        requires
            old(self)@.can_fail(id),
        ensures
            final(self)@ == old(self)@.failed(id, error@, now@),
    {
        proof {
            use_type_invariant(&*self);
        }
        let mut active = self.take_active();
        let ended = active.remove(&id);
        self.put_active(active);
        match ended {
            Some(connection) => {
                let nic_index: usize = connection.nic_index;
                proof {
                    use_type_invariant(&*self);
                }
                self.nics[nic_index].failed_connections = self.nics[nic_index].failed_connections
                    + 1;
                let mut event = connection.kind.clone();
                event.append(" #");
                event.append(decimal_text(connection.id).as_str());
                event.append(" failed after ");
                event.append(format_compact_duration(now.since(&connection.started_at)).as_str());
                event.append(" tx ");
                event.append(human_bytes(connection.tx).as_str());
                event.append(" rx ");
                event.append(human_bytes(connection.rx).as_str());
                event.append(": ");
                event.append(error);
                self.push_event(event.as_str(), now);
            },
            None => {
                assert(self@ =~= old(self)@);
                let mut event = "connection #".to_owned();
                event.append(decimal_text(id).as_str());
                event.append(" failed: ");
                event.append(error);
                self.push_event(event.as_str(), now);
            },
        }
    }
}

/// Whether numbers stand in ascending order, each once.
pub open spec fn ascending(ids: Seq<u64>) -> bool {
    forall|i: int, j: int| 0 <= i < j < ids.len() ==> ids[i] < ids[j]
}

/// The numbers of a set in ascending order.
pub open spec fn in_order(ids: Set<u64>) -> Seq<u64> {
    choose|list: Seq<u64>| #[trigger] ascending(list) && list.to_set() == ids
}

/// Keys that increase by their own order are in ascending order.
proof fn lemma_keys_ascend(keys: Seq<u64>)
    requires
        vstd::std_specs::btree::increasing_seq(keys),
    ensures
        ascending(keys),
{
    assert forall|i: int, j: int| 0 <= i < j < keys.len() implies keys[i] < keys[j] by {
        assert(vstd::std_specs::cmp::OrdSpec::cmp_spec(&keys[i], &keys[j]) is Less);
    }
}

/// A set has only one list of its numbers in ascending order.
proof fn lemma_one_order(left: Seq<u64>, right: Seq<u64>)
    requires
        ascending(left),
        ascending(right),
        left.to_set() == right.to_set(),
    ensures
        left == right,
    decreases left.len(),
{
    if left.len() == 0 {
        if right.len() > 0 {
            assert(right.to_set().contains(right[0]));
        }
        assert(left =~= right);
    } else {
        assert(left.to_set().contains(left.last()));
        assert(right.contains(left.last()));
        assert(right.to_set().contains(right.last()));
        assert(left.contains(right.last()));
        assert(left.last() == right.last());
        let last = left.last();
        assert forall|id: u64| left.drop_last().to_set().contains(id)
            == right.drop_last().to_set().contains(id) by {
            if left.drop_last().contains(id) {
                let i = left.drop_last().index_of(id);
                assert(left[i] == id);
                assert(left.to_set().contains(id));
                assert(right.contains(id));
                let j = right.index_of(id);
                assert(right.drop_last()[j] == id);
            }
            if right.drop_last().contains(id) {
                let i = right.drop_last().index_of(id);
                assert(right[i] == id);
                assert(right.to_set().contains(id));
                assert(left.contains(id));
                let j = left.index_of(id);
                assert(left.drop_last()[j] == id);
            }
        }
        assert(left.drop_last().to_set() =~= right.drop_last().to_set());
        lemma_one_order(left.drop_last(), right.drop_last());
        assert(left =~= left.drop_last().push(last));
        assert(right =~= right.drop_last().push(last));
    }
}

/// The greatest number of a set.
proof fn greatest(ids: Set<u64>) -> (top: u64)
    requires
        ids.finite(),
        ids.len() > 0,
    ensures
        ids.contains(top),
        forall|id: u64| ids.contains(id) ==> id <= top,
    decreases ids.len(),
{
    let some = ids.choose();
    let rest = ids.remove(some);
    if rest.len() == 0 {
        assert forall|id: u64| ids.contains(id) implies id <= some by {
            if id != some {
                assert(rest.contains(id));
            }
        }
        some
    } else {
        let other = greatest(rest);
        let top = if other > some {
            other
        } else {
            some
        };
        assert forall|id: u64| ids.contains(id) implies id <= top by {
            if id != some {
                assert(rest.contains(id));
            }
        }
        top
    }
}

/// A finite set has a list of its numbers in ascending order.
proof fn lemma_order_exists(ids: Set<u64>) -> (list: Seq<u64>)
    requires
        ids.finite(),
    ensures
        ascending(list),
        list.to_set() == ids,
    decreases ids.len(),
{
    if ids.len() == 0 {
        assert(Seq::<u64>::empty().to_set() =~= ids);
        Seq::empty()
    } else {
        let top = greatest(ids);
        let rest = lemma_order_exists(ids.remove(top));
        let list = rest.push(top);
        assert forall|i: int, j: int| 0 <= i < j < list.len() implies list[i] < list[j] by {
            assert(rest.to_set().contains(rest[i]));
            assert(ids.remove(top).contains(rest[i]));
        }
        assert forall|id: u64| list.to_set().contains(id) == ids.contains(id) by {
            if list.contains(id) {
                let i = list.index_of(id);
                if i < rest.len() {
                    assert(rest[i] == id);
                    assert(rest.to_set().contains(id));
                }
            }
            if ids.contains(id) && id != top {
                assert(rest.to_set().contains(id));
                let i = rest.index_of(id);
                assert(list[i] == id);
            }
            assert(list[rest.len() as int] == top);
        }
        assert(list.to_set() =~= ids);
        list
    }
}

/// The numbers of a finite set in ascending order are all its numbers, in ascending order.
pub proof fn order_lists_all(ids: Set<u64>)
    requires
        ids.finite(),
    ensures
        ascending(in_order(ids)),
        in_order(ids).to_set() == ids,
        in_order(ids).len() == ids.len(),
{
    let list = lemma_order_exists(ids);
    assert(ascending(list) && list.to_set() == ids);
    lemma_ascending_is_distinct(in_order(ids));
    in_order(ids).unique_seq_to_set();
}

impl SharedStats {
    /// The active connections in the order of their numbers.
    fn active_in_order(&self) -> (list: Vec<&ConnectionStats>)
        ensures
            ascending(in_order(self@.active.dom())),
            in_order(self@.active.dom()).to_set() == self@.active.dom(),
            list@.len() == in_order(self@.active.dom()).len(),
            forall|i: int|
                0 <= i < list@.len() ==> (#[trigger] list@[i])@ == self@.active[in_order(
                    self@.active.dom(),
                )[i]],
    {
        let mut list: Vec<&ConnectionStats> = Vec::new();
        let values = self.active_connections.values();
        let ghost map = self.active_connections@;
        let ghost all = vstd::std_specs::iter::IteratorSpec::remaining(&values);
        let ghost keys = choose|keys: Seq<u64>|
            {
                &&& vstd::std_specs::btree::increasing_seq(keys)
                &&& keys.to_set() == map.dom()
                &&& keys.no_duplicates()
                &&& all == keys.map(|i: int, k: u64| &map[k])
            };
        for connection in them: values
            invariant
                them.seq() == all,
                list@ == all.take(them.index()),
        {
            list.push(connection);
            assert(list@ =~= all.take(them.index() + 1));
        }
        proof {
            assert(all.take(all.len() as int) =~= all);
            lemma_keys_ascend(keys);
            assert(self@.active.dom() =~= map.dom());
            lemma_one_order(keys, in_order(self@.active.dom()));
        }
        list
    }
}

/// What each interface carried since some moment, and how long ago that moment is.
#[derive(Debug)]
struct TrafficWindow {
    duration: Duration,
    nics: [NicTotals; 2],
}

/// Everything that is shown of the statistics at one moment.
#[derive(Debug, Clone)]
pub struct StatsSnapshot {
    pub listen: SocketAddr,
    pub range_split_enabled: bool,
    pub elapsed: Duration,
    pub nics: [NicSnapshot; 2],
    pub active_connections: Vec<ConnectionSnapshot>,
    pub recent_events: Vec<String>,
}

/// What is shown of one interface.
#[derive(Debug, Clone, Copy)]
pub struct NicSnapshot {
    pub index: usize,
    pub ip: Ipv4Addr,
    pub tx_per_sec: u64,
    pub rx_per_sec: u64,
    pub total_tx: u64,
    pub total_rx: u64,
    pub active_connections: usize,
    pub opened_connections: u64,
    pub failed_connections: u64,
}

/// What is shown of one active connection.
#[derive(Debug, Clone)]
pub struct ConnectionSnapshot {
    pub id: u64,
    pub nic_index: usize,
    pub kind: String,
    pub target: String,
    pub age: Duration,
    pub tx: u64,
    pub rx: u64,
    pub state: String,
}

/// What is shown of one active connection.
#[verifier::ext_equal]
pub struct ConnectionSnapshotView {
    pub id: u64,
    pub nic_index: usize,
    pub kind: Seq<char>,
    pub target: Seq<char>,
    pub age: nat,
    pub tx: u64,
    pub rx: u64,
    pub state: Seq<char>,
}

/// Everything that is shown of the statistics at one moment.
#[verifier::ext_equal]
pub struct SnapshotView {
    pub listen: SocketAddr,
    pub range_split_enabled: bool,
    pub elapsed: nat,
    pub nics: Seq<NicSnapshot>,
    pub active: Seq<ConnectionSnapshotView>,
    pub events: Seq<Seq<char>>,
}

impl View for ConnectionSnapshot {
    type V = ConnectionSnapshotView;

    open spec fn view(&self) -> ConnectionSnapshotView {
        ConnectionSnapshotView {
            id: self.id,
            nic_index: self.nic_index,
            kind: self.kind@,
            target: self.target@,
            age: self.age@,
            tx: self.tx,
            rx: self.rx,
            state: self.state@,
        }
    }
}

impl View for StatsSnapshot {
    type V = SnapshotView;

    open spec fn view(&self) -> SnapshotView {
        SnapshotView {
            listen: self.listen,
            range_split_enabled: self.range_split_enabled,
            elapsed: self.elapsed@,
            nics: self.nics@,
            active: self.active_connections@.map_values(
                |connection: ConnectionSnapshot| connection@,
            ),
            events: self.recent_events@.map_values(|event: String| event@),
        }
    }
}

impl NicStats {
    /// The counters of an interface that carried nothing yet.
    pub open spec fn fresh(ip: Ipv4Addr) -> NicStats {
        NicStats { ip, total_tx: 0, total_rx: 0, opened_connections: 0, failed_connections: 0 }
    }

    /// The totals of an interface.
    pub open spec fn totals(self) -> NicTotals {
        NicTotals { tx: self.total_tx, rx: self.total_rx }
    }

    /// The counters of an interface that carried nothing yet.
    fn new(ip: Ipv4Addr) -> (nic: Self)
        ensures
            nic == NicStats::fresh(ip),
    {
        NicStats { ip, total_tx: 0, total_rx: 0, opened_connections: 0, failed_connections: 0 }
    }
}

impl TrafficSample {
    /// The totals of both interfaces at one moment.
    fn from_nics(sampled_at: Duration, nics: &[NicStats; 2]) -> (sample: Self)
        ensures
            sample@ == sample_of(nics@, sampled_at@),
    {
        let totals = [
            NicTotals { tx: nics[0].total_tx, rx: nics[0].total_rx },
            NicTotals { tx: nics[1].total_tx, rx: nics[1].total_rx },
        ];
        assert(totals@ =~= nics@.map_values(|nic: NicStats| nic.totals()));
        TrafficSample { sampled_at, nics: totals }
    }
}

impl ConnectionView {
    /// What is shown of a connection.
    pub open spec fn shown(self, now: nat) -> ConnectionSnapshotView {
        ConnectionSnapshotView {
            id: self.id,
            nic_index: self.nic_index,
            kind: self.kind,
            target: self.target,
            age: clock::elapsed(now, self.started_at),
            tx: self.tx,
            rx: self.rx,
            state: self.state,
        }
    }
}

impl ConnectionStats {
    /// What is shown of the connection.
    fn snapshot(&self, now: Duration) -> (shown: ConnectionSnapshot)
        ensures
            shown@ == self@.shown(now@),
    {
        ConnectionSnapshot {
            id: self.id,
            nic_index: self.nic_index,
            kind: self.kind.clone(),
            target: self.target.clone(),
            age: now.since(&self.started_at),
            tx: self.tx,
            rx: self.rx,
            state: self.state.clone(),
        }
    }
}

/// The totals of both interfaces at one moment.
pub open spec fn sample_of(nics: Seq<NicStats>, now: nat) -> SampleView {
    SampleView { at: now, nics: nics.map_values(|nic: NicStats| nic.totals()) }
}

/// The longest time over which throughput is averaged.
pub open spec fn window_nanos() -> nat {
    THROUGHPUT_WINDOW_SECS as nat * clock::NANOS_PER_SEC as nat
}

/// The samples without those at the front that are too old, but never without the last.
pub open spec fn within_window(samples: Seq<SampleView>, now: nat) -> Seq<SampleView>
    decreases samples.len(),
{
    if samples.len() > 1 && clock::elapsed(now, samples[0].at) > window_nanos() {
        within_window(samples.drop_first(), now)
    } else {
        samples
    }
}

/// The samples that are kept are the last ones.
pub(crate) proof fn lemma_window_is_part(samples: Seq<SampleView>, now: nat)
    requires
        samples.len() > 0,
    ensures
        0 < within_window(samples, now).len() <= samples.len(),
        within_window(samples, now) == samples.skip(
            samples.len() - within_window(samples, now).len(),
        ),
    decreases samples.len(),
{
    if samples.len() > 1 && clock::elapsed(now, samples[0].at) > window_nanos() {
        lemma_window_is_part(samples.drop_first(), now);
        let kept = within_window(samples, now);
        assert(samples.drop_first().skip(samples.len() - 1 - kept.len()) =~= samples.skip(
            samples.len() - kept.len(),
        ));
    } else {
        assert(samples.skip(0) =~= samples);
    }
}

/// The first sample that is kept is recent, or it is the only one.
pub(crate) proof fn lemma_window_front(samples: Seq<SampleView>, now: nat)
    requires
        samples.len() > 0,
    ensures
        ({
            let kept = within_window(samples, now);
            kept.len() == 1 || clock::elapsed(now, kept[0].at) <= window_nanos()
        }),
    decreases samples.len(),
{
    if samples.len() > 1 && clock::elapsed(now, samples[0].at) > window_nanos() {
        lemma_window_front(samples.drop_first(), now);
    }
}

/// How much a counter grew, nothing where it did not grow.
pub open spec fn growth(now: u64, before: u64) -> u64 {
    if now > before {
        (now - before) as u64
    } else {
        0
    }
}

/// How many active connections use an interface.
pub open spec fn users(active: Map<u64, ConnectionView>, nic_index: usize) -> nat {
    active.dom().filter(|id: u64| active[id].nic_index == nic_index).len()
}

impl StatsView {
    /// The statistics of a proxy that just started.
    pub open spec fn initial(config: Config, options: RuntimeOptions, now: nat) -> StatsView {
        let nics = seq![
            NicStats::fresh(config.nics@[0].ip),
            NicStats::fresh(config.nics@[1].ip),
        ];
        StatsView {
            started_at: now,
            listen: config.proxy.listen,
            range_split_enabled: options.range_split_enabled,
            nics,
            samples: seq![sample_of(nics, now)],
            active: Map::empty(),
            events: seq![],
        }
    }

    /// The statistics with a fresh sample of the totals and without samples that are too old.
    pub open spec fn sampled(self, now: nat) -> StatsView {
        StatsView {
            samples: within_window(self.samples.push(sample_of(self.nics, now)), now),
            ..self
        }
    }

    /// What an interface carried since the oldest sample.
    pub open spec fn carried(self, nic_index: int) -> NicTotals {
        NicTotals {
            tx: growth(self.nics[nic_index].total_tx, self.samples[0].nics[nic_index].tx),
            rx: growth(self.nics[nic_index].total_rx, self.samples[0].nics[nic_index].rx),
        }
    }

    /// The time over which throughput is averaged: since the oldest sample, but at least a second.
    pub open spec fn averaged_over(self, now: nat) -> nat {
        let age = clock::elapsed(now, self.samples[0].at);
        if age > clock::NANOS_PER_SEC {
            age
        } else {
            clock::NANOS_PER_SEC as nat
        }
    }

    /// What is shown of one interface: its throughput since the oldest sample, and its counters.
    pub open spec fn nic_shown(self, nic_index: usize, now: nat) -> NicSnapshot {
        let nic = self.nics[nic_index as int];
        NicSnapshot {
            index: nic_index,
            ip: nic.ip,
            tx_per_sec: rate::rate(self.carried(nic_index as int).tx, self.averaged_over(now)),
            rx_per_sec: rate::rate(self.carried(nic_index as int).rx, self.averaged_over(now)),
            total_tx: nic.total_tx,
            total_rx: nic.total_rx,
            active_connections: users(self.active, nic_index) as usize,
            opened_connections: nic.opened_connections,
            failed_connections: nic.failed_connections,
        }
    }

    /// The active connections that are shown: those with the lowest numbers.
    pub open spec fn connections_shown(self, now: nat) -> Seq<ConnectionSnapshotView> {
        let ids = in_order(self.active.dom());
        let count = if ids.len() > SHOWN_CONNECTION_LIMIT {
            SHOWN_CONNECTION_LIMIT as int
        } else {
            ids.len() as int
        };
        ids.take(count).map_values(|id: u64| self.active[id].shown(now))
    }

    /// Everything that is shown, where a sample was just taken.
    pub open spec fn shown(self, now: nat) -> SnapshotView {
        SnapshotView {
            listen: self.listen,
            range_split_enabled: self.range_split_enabled,
            elapsed: clock::elapsed(now, self.started_at),
            nics: seq![self.nic_shown(0, now), self.nic_shown(1, now)],
            active: self.connections_shown(now),
            events: self.events,
        }
    }
}

impl SharedStats {
    /// The statistics of a proxy that starts now.
    pub fn new(config: &Config, options: RuntimeOptions, now: Duration) -> (stats: Self)
        requires
            config.nics@.len() >= 2,
        ensures
            stats@ == StatsView::initial(*config, options, now@),
    {
        let nics = [NicStats::new(config.nics[0].ip), NicStats::new(config.nics[1].ip)];
        let mut traffic_samples = VecDeque::new();
        traffic_samples.push_back(TrafficSample::from_nics(now, &nics));
        proof {
            let initial = StatsView::initial(*config, options, now@);
            assert(nics@ =~= initial.nics);
            assert(sample_views(traffic_samples@) =~= initial.samples);
        }
        let active_connections = BTreeMap::new();
        assert(connection_views(active_connections@) =~= Map::empty());
        let stats = SharedStats {
            started_at: now,
            listen: config.proxy.listen.duplicate(),
            range_split_enabled: options.range_split_enabled,
            nics,
            traffic_samples,
            active_connections,
            recent_events: VecDeque::new(),
        };
        assert(stats@ =~= StatsView::initial(*config, options, now@));
        stats
    }

    /// Takes a sample of the totals and returns what each interface carried since the oldest
    /// sample that is recent enough.
    fn sample(&mut self, now: Duration) -> (window: TrafficWindow)
        ensures
            final(self)@ == old(self)@.sampled(now@),
            window.duration@ == final(self)@.averaged_over(now@),
            clock::NANOS_PER_SEC <= window.duration@ <= window_nanos(),
            window.nics@ == seq![final(self)@.carried(0), final(self)@.carried(1)],
    {
        proof {
            use_type_invariant(&*self);
        }
        let limit = Duration::from_secs(THROUGHPUT_WINDOW_SECS);
        let mut samples = VecDeque::new();
        samples.push_back(TrafficSample::from_nics(now, &self.nics));
        let ghost fresh = samples@[0]@;
        assert(sample_views(samples@) =~= seq![fresh]);
        std::mem::swap(&mut samples, &mut self.traffic_samples);
        samples.push_back(TrafficSample::from_nics(now, &self.nics));
        let ghost all = old(self)@.samples.push(sample_of(old(self)@.nics, now@));
        assert(sample_views(samples@) =~= all);
        while samples.len() > 1 && now.since(&samples[0].sampled_at).exceeds(&limit)
            invariant
                limit@ == window_nanos(),
                samples@.len() >= 1,
                within_window(sample_views(samples@), now@) == within_window(all, now@),
            decreases samples@.len(),
        {
            let ghost before = samples@;
            samples.pop_front();
            assert(samples@ =~= before.skip(1));
            assert(sample_views(samples@) =~= sample_views(before).drop_first());
        }
        proof {
            lemma_window_is_part(all, now@);
            lemma_window_front(all, now@);
        }
        let ghost kept = sample_views(samples@);
        assert(kept == within_window(all, now@));
        assert forall|i: int| 0 <= i < kept.len() implies (#[trigger] kept[i]).nics.len() == 2 by {
            assert(kept[i] == all[i + all.len() - kept.len()]);
        }
        self.traffic_samples = samples;
        let age = now.since(&self.traffic_samples[0].sampled_at);
        let second = Duration::from_secs(1);
        let duration = if age.exceeds(&second) {
            age
        } else {
            second
        };
        let nics = [
            NicTotals {
                tx: self.nics[0].total_tx.saturating_sub(self.traffic_samples[0].nics[0].tx),
                rx: self.nics[0].total_rx.saturating_sub(self.traffic_samples[0].nics[0].rx),
            },
            NicTotals {
                tx: self.nics[1].total_tx.saturating_sub(self.traffic_samples[0].nics[1].tx),
                rx: self.nics[1].total_rx.saturating_sub(self.traffic_samples[0].nics[1].rx),
            },
        ];
        assert(nics@ =~= seq![self@.carried(0), self@.carried(1)]);
        TrafficWindow { duration, nics }
    }
}

/// How many of the listed connections use an interface.
spec fn users_among(ids: Seq<u64>, active: Map<u64, ConnectionView>, nic_index: usize) -> nat
    decreases ids.len(),
{
    if ids.len() == 0 {
        0
    } else {
        users_among(ids.drop_last(), active, nic_index) + if active[ids.last()].nic_index
            == nic_index {
            1nat
        } else {
            0
        }
    }
}

/// Counting along a list without repetition counts the members of its set.
proof fn lemma_users_among(ids: Seq<u64>, active: Map<u64, ConnectionView>, nic_index: usize)
    requires
        ids.no_duplicates(),
    ensures
        ids.to_set().filter(|id: u64| active[id].nic_index == nic_index).finite(),
        users_among(ids, active, nic_index) == ids.to_set().filter(
            |id: u64| active[id].nic_index == nic_index,
        ).len(),
        users_among(ids, active, nic_index) <= ids.len(),
    decreases ids.len(),
{
    let uses = |id: u64| active[id].nic_index == nic_index;
    let chosen = ids.to_set().filter(uses);
    if ids.len() == 0 {
        assert(chosen =~= Set::<u64>::empty());
    } else {
        let rest = ids.drop_last();
        let last = ids.last();
        lemma_users_among(rest, active, nic_index);
        assert(!rest.contains(last));
        assert forall|id: u64| ids.contains(id) == (rest.contains(id) || id == last) by {
            if ids.contains(id) {
                let i = ids.index_of(id);
                if i < rest.len() {
                    assert(rest[i] == id);
                }
            }
            if rest.contains(id) {
                assert(ids[rest.index_of(id)] == id);
            }
            assert(ids[ids.len() - 1] == last);
        }
        if uses(last) {
            assert(chosen =~= rest.to_set().filter(uses).insert(last));
        } else {
            assert(chosen =~= rest.to_set().filter(uses));
        }
    }
}

/// A list in ascending order has no repetition.
proof fn lemma_ascending_is_distinct(ids: Seq<u64>)
    requires
        ascending(ids),
    ensures
        ids.no_duplicates(),
{
}

impl SharedStats {
    /// How many active connections use each interface.
    fn active_by_nic(&self) -> (active: [usize; 2])
        ensures
            active@[0] as nat == users(self@.active, 0),
            active@[1] as nat == users(self@.active, 1),
    {
        let list = self.active_in_order();
        let ghost ids = in_order(self@.active.dom());
        let mut first: usize = 0;
        let mut second: usize = 0;
        let mut done: usize = 0;
        while done < list.len()
            invariant
                done <= list@.len(),
                ids == in_order(self@.active.dom()),
                list@.len() == ids.len(),
                forall|i: int|
                    0 <= i < list@.len() ==> (#[trigger] list@[i])@ == self@.active[ids[i]],
                first <= done,
                second <= done,
                first as nat == users_among(ids.take(done as int), self@.active, 0),
                second as nat == users_among(ids.take(done as int), self@.active, 1),
            decreases list@.len() - done,
        {
            let nic_index: usize = list[done].nic_index;
            assert(ids.take(done + 1).drop_last() =~= ids.take(done as int));
            assert(list@[done as int]@.nic_index == nic_index);
            if nic_index == 0 {
                first = first + 1;
            } else if nic_index == 1 {
                second = second + 1;
            }
            done = done + 1;
        }
        proof {
            assert(ids.take(ids.len() as int) =~= ids);
            lemma_ascending_is_distinct(ids);
            lemma_users_among(ids, self@.active, 0);
            lemma_users_among(ids, self@.active, 1);
        }
        [first, second]
    }

    /// Takes a sample of the totals and returns everything that is shown now.
    pub fn snapshot(&mut self, now: Duration) -> (snapshot: StatsSnapshot)
        ensures
            final(self)@ == old(self)@.sampled(now@),
            snapshot@ == final(self)@.shown(now@),
            users(final(self)@.active, 0) <= usize::MAX,
            users(final(self)@.active, 1) <= usize::MAX,
    {
        let window = self.sample(now);
        let active_by_nic = self.active_by_nic();
        let list = self.active_in_order();
        let ghost ids = in_order(self@.active.dom());
        let mut connections: Vec<ConnectionSnapshot> = Vec::new();
        let mut done: usize = 0;
        while done < list.len() && done < SHOWN_CONNECTION_LIMIT
            invariant
                done <= list@.len(),
                done <= SHOWN_CONNECTION_LIMIT,
                ids == in_order(self@.active.dom()),
                list@.len() == ids.len(),
                forall|i: int|
                    0 <= i < list@.len() ==> (#[trigger] list@[i])@ == self@.active[ids[i]],
                connections@.len() == done,
                forall|i: int|
                    0 <= i < done ==> (#[trigger] connections@[i])@ == self@.active[ids[i]].shown(
                        now@,
                    ),
            decreases list@.len() - done,
        {
            connections.push(list[done].snapshot(now));
            done = done + 1;
        }
        let mut events: Vec<String> = Vec::new();
        let mut copied: usize = 0;
        while copied < self.recent_events.len()
            invariant
                copied <= self.recent_events@.len(),
                events@.len() == copied,
                forall|i: int|
                    0 <= i < copied ==> (#[trigger] events@[i])@ == self.recent_events@[i]@,
            decreases self.recent_events@.len() - copied,
        {
            events.push(self.recent_events[copied].clone());
            copied = copied + 1;
        }
        let nics = [
            NicSnapshot {
                index: 0,
                ip: self.nics[0].ip,
                tx_per_sec: rate_of(window.nics[0].tx, &window.duration),
                rx_per_sec: rate_of(window.nics[0].rx, &window.duration),
                total_tx: self.nics[0].total_tx,
                total_rx: self.nics[0].total_rx,
                active_connections: active_by_nic[0],
                opened_connections: self.nics[0].opened_connections,
                failed_connections: self.nics[0].failed_connections,
            },
            NicSnapshot {
                index: 1,
                ip: self.nics[1].ip,
                tx_per_sec: rate_of(window.nics[1].tx, &window.duration),
                rx_per_sec: rate_of(window.nics[1].rx, &window.duration),
                total_tx: self.nics[1].total_tx,
                total_rx: self.nics[1].total_rx,
                active_connections: active_by_nic[1],
                opened_connections: self.nics[1].opened_connections,
                failed_connections: self.nics[1].failed_connections,
            },
        ];
        let snapshot = StatsSnapshot {
            listen: self.listen.duplicate(),
            range_split_enabled: self.range_split_enabled,
            elapsed: now.since(&self.started_at),
            nics,
            active_connections: connections,
            recent_events: events,
        };
        proof {
            assert(window.nics@[0] == self@.carried(0));
            assert(window.nics@[1] == self@.carried(1));
            assert(snapshot@.nics =~= self@.shown(now@).nics);
            assert(snapshot@.active =~= self@.connections_shown(now@));
            assert(snapshot@.events =~= self@.events);
        }
        snapshot
    }

    /// Whether a client can be counted on an interface.
    pub fn accepts_inbound(&self, nic_index: usize) -> (accepts: bool)
        ensures
            accepts == (nic_index < 2 && self@.nics[nic_index as int].opened_connections
                < u64::MAX),
    {
        nic_index < 2 && self.nics[nic_index].opened_connections < u64::MAX
    }

    /// Whether `bytes` more sent bytes can be counted.
    pub fn accepts_tx(&self, id: u64, nic_index: usize, bytes: u64) -> (accepts: bool)
        ensures
            accepts == self@.can_send(id, nic_index, bytes),
    {
        if bytes == 0 {
            return true;
        }
        nic_index < 2 && self.nics[nic_index].total_tx <= u64::MAX - bytes
            && match self.active_connections.get(&id) {
            Some(connection) => connection.tx <= u64::MAX - bytes,
            None => true,
        }
    }

    /// Whether `bytes` more received bytes can be counted.
    pub fn accepts_rx(&self, id: u64, nic_index: usize, bytes: u64) -> (accepts: bool)
        ensures
            accepts == self@.can_receive(id, nic_index, bytes),
    {
        if bytes == 0 {
            return true;
        }
        nic_index < 2 && self.nics[nic_index].total_rx <= u64::MAX - bytes
            && match self.active_connections.get(&id) {
            Some(connection) => connection.rx <= u64::MAX - bytes,
            None => true,
        }
    }

    /// Whether a failure of the connection `id` can be counted.
    pub fn accepts_failure(&self, id: u64) -> (accepts: bool)
        ensures
            accepts == self@.can_fail(id),
    {
        match self.active_connections.get(&id) {
            Some(connection) => connection.nic_index < 2
                && self.nics[connection.nic_index].failed_connections < u64::MAX,
            None => true,
        }
    }
}

} // verus!

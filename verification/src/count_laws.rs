//! What holds of the counters, of the list of events and of what a snapshot shows.

use vstd::prelude::*;

use crate::cli::RuntimeOptions;
use crate::clock;
use crate::clock::Duration;
use crate::config::Config;
use crate::net::SocketAddr;
use crate::proxy::{ConnectionContext, ProxyState};
use crate::rate::rate_of;
use crate::stats;
use crate::stats::{ConnectionView, SharedStats, StatsSnapshot, StatsView};
use crate::text;
use crate::units;

verus! {

/// Whether statistics are those of the same proxy, with the same samples.
pub open spec fn same_proxy(before: StatsView, after: StatsView) -> bool {
    &&& after.started_at == before.started_at
    &&& after.listen == before.listen
    &&& after.range_split_enabled == before.range_split_enabled
    &&& after.samples == before.samples
}

/// Whether nothing changed but possibly the connection `id`.
pub open spec fn same_others(before: StatsView, after: StatsView, id: u64) -> bool {
    after.active.remove(id) == before.active.remove(id)
}

/// Whether an event was added behind the latest ones, with the time since the start in front, and
/// at most ten are remembered.
pub open spec fn remembers(before: StatsView, after: StatsView, event: Seq<char>, now: nat) -> bool {
    let known = before.events;
    let kept = after.events;
    let since = if now > before.started_at {
        (now - before.started_at) as nat
    } else {
        0
    };
    &&& 0 < kept.len() <= 10
    &&& kept.len() == 10 || kept.len() == known.len() + 1
    &&& kept.last() == "+"@ + clock::compact(since) + "  "@ + event
    &&& kept.drop_last() == known.skip(known.len() - kept.len() + 1)
}

/// Adding an event to the list is remembering it.
proof fn lemma_remembers(stats: StatsView, event: Seq<char>, now: nat)
    ensures
        remembers(stats, stats.with_event(event, now), event, now),
{
    let known = stats.events;
    let kept = stats.with_event(event, now).events;
    assert(kept.drop_last() =~= known.skip(known.len() - kept.len() + 1));
}

/// An event that is recorded comes behind the others, and nothing else changes.
pub proof fn events_are_added_behind_the_others(
    stats: &mut SharedStats,
    event: &str,
    now: Duration,
)
    requires
        call_ensures(SharedStats::record_event, (stats, event, now), ()),
    ensures
        notes(old(stats)@, final(stats)@, event@, now@),
{
    lemma_notes(old(stats)@, event@, now@);
}

/// Whether an event was recorded, and nothing else happened.
pub open spec fn notes(before: StatsView, after: StatsView, event: Seq<char>, now: nat) -> bool {
    &&& remembers(before, after, event, now)
    &&& same_proxy(before, after)
    &&& after.nics == before.nics
    &&& after.active == before.active
}

/// Recording an event is what it says.
pub(crate) proof fn lemma_notes(stats: StatsView, event: Seq<char>, now: nat)
    ensures
        notes(stats, stats.with_event(event, now), event, now),
{
    lemma_remembers(stats, event, now);
}

/// A client that connects is counted once for the interface it is assigned, and is active from then
/// on, without a byte.
pub proof fn clients_are_counted_once(
    stats: &mut SharedStats,
    id: u64,
    peer: &SocketAddr,
    nic_index: usize,
    now: Duration,
)
    requires
        call_ensures(SharedStats::record_inbound, (stats, id, peer, nic_index, now), ()),
        stats::is_kept(old(stats)@),
        nic_index < 2,
        old(stats)@.nics[nic_index as int].opened_connections < u64::MAX,
    ensures
        ({
            let before = old(stats)@;
            let after = final(stats)@;
            let nic = nic_index as int;
            &&& same_proxy(before, after)
            &&& same_others(before, after, id)
            &&& after.nics.len() == 2
            &&& after.nics[nic].opened_connections == before.nics[nic].opened_connections + 1
            &&& after.nics[nic].failed_connections == before.nics[nic].failed_connections
            &&& after.nics[nic].total_tx == before.nics[nic].total_tx
            &&& after.nics[nic].total_rx == before.nics[nic].total_rx
            &&& after.nics[nic].ip == before.nics[nic].ip
            &&& after.nics[1 - nic] == before.nics[1 - nic]
            &&& after.active.contains_key(id)
            &&& after.active[id].id == id
            &&& after.active[id].nic_index == nic_index
            &&& after.active[id].kind == "TCP"@
            &&& after.active[id].target == peer.printed_form()
            &&& after.active[id].started_at == now@
            &&& after.active[id].tx == 0 && after.active[id].rx == 0
            &&& after.active[id].state == "accepted"@
            &&& remembers(
                before,
                after,
                "inbound #"@ + text::decimal(id as nat) + " from "@ + peer.printed_form()
                    + " assigned NIC["@ + text::decimal(nic_index as nat) + "] "@
                    + before.nics[nic].ip.dotted(),
                now@,
            )
        }),
{
    let before = old(stats)@;
    let event = "inbound #"@ + text::decimal(id as nat) + " from "@ + peer.printed_form()
        + " assigned NIC["@ + text::decimal(nic_index as nat) + "] "@
        + before.nics[nic_index as int].ip.dotted();
    lemma_remembers(before, event, now@);
    assert(final(stats)@.active.remove(id) =~= before.active.remove(id));
}

/// A connection that takes something up says what, keeps its bytes and its start where it was
/// active, and changes no counter.
pub proof fn taking_up_changes_no_counter(
    stats: &mut SharedStats,
    id: u64,
    nic_index: usize,
    kind: &str,
    target: &str,
    state: &str,
    now: Duration,
)
    requires
        call_ensures(
            SharedStats::start_connection,
            (stats, id, nic_index, kind, target, state, now),
            (),
        ),
        stats::is_kept(old(stats)@),
    ensures
        takes_up(old(stats)@, final(stats)@, id, nic_index, kind@, target@, state@, now@),
{
    lemma_takes_up(old(stats)@, id, nic_index, kind@, target@, state@, now@);
}

/// Whether the connection `id` took up what `kind`, `target` and `state` say, and nothing else
/// happened.
pub open spec fn takes_up(
    before: StatsView,
    after: StatsView,
    id: u64,
    nic_index: usize,
    kind: Seq<char>,
    target: Seq<char>,
    state: Seq<char>,
    now: nat,
) -> bool {
    let known = before.active.contains_key(id);
    &&& same_proxy(before, after)
    &&& same_others(before, after, id)
    &&& after.nics == before.nics
    &&& after.active.contains_key(id)
    &&& after.active[id].id == id
    &&& after.active[id].nic_index == nic_index
    &&& after.active[id].kind == kind
    &&& after.active[id].target == target
    &&& after.active[id].state == state
    &&& known ==> after.active[id].tx == before.active[id].tx && after.active[id].rx
        == before.active[id].rx && after.active[id].started_at == before.active[id].started_at
    &&& !known ==> after.active[id].tx == 0 && after.active[id].rx == 0
        && after.active[id].started_at == now
    &&& remembers(
        before,
        after,
        kind + " #"@ + text::decimal(id as nat) + " "@ + target + " "@ + state + " via NIC["@
            + text::decimal(nic_index as nat) + "]"@,
        now,
    )
}

/// Taking something up is what it says.
pub(crate) proof fn lemma_takes_up(
    stats: StatsView,
    id: u64,
    nic_index: usize,
    kind: Seq<char>,
    target: Seq<char>,
    state: Seq<char>,
    now: nat,
)
    requires
        stats::is_kept(stats),
    ensures
        takes_up(
            stats,
            stats.started(id, nic_index, kind, target, state, now),
            id,
            nic_index,
            kind,
            target,
            state,
            now,
        ),
{
    let event = kind + " #"@ + text::decimal(id as nat) + " "@ + target + " "@ + state
        + " via NIC["@ + text::decimal(nic_index as nat) + "]"@;
    lemma_remembers(stats, event, now);
    let after = stats.started(id, nic_index, kind, target, state, now);
    assert(after.active.remove(id) =~= stats.active.remove(id));
}

/// A connection that moves to another state changes in nothing else, and one that is not active
/// stays so.
pub proof fn states_change_nothing_else(stats: &mut SharedStats, id: u64, state: &str)
    requires
        call_ensures(SharedStats::set_state, (stats, id, state), ()),
    ensures
        moves(old(stats)@, final(stats)@, id, state@),
{
    lemma_moves(old(stats)@, id, state@);
}

/// Whether the connection `id` moved to another state, where it is active, and nothing else
/// happened.
pub open spec fn moves(before: StatsView, after: StatsView, id: u64, state: Seq<char>) -> bool {
    &&& same_proxy(before, after)
    &&& same_others(before, after, id)
    &&& after.nics == before.nics
    &&& after.events == before.events
    &&& after.active.contains_key(id) == before.active.contains_key(id)
    &&& before.active.contains_key(id) ==> {
        let one = before.active[id];
        let other = after.active[id];
        &&& other.state == state
        &&& other.id == one.id && other.nic_index == one.nic_index && other.kind == one.kind
        &&& other.target == one.target && other.started_at == one.started_at
        &&& other.tx == one.tx && other.rx == one.rx
    }
}

/// Moving to another state is what it says.
pub(crate) proof fn lemma_moves(stats: StatsView, id: u64, state: Seq<char>)
    ensures
        moves(stats, stats.in_state(id, state), id, state),
{
    assert(stats.in_state(id, state).active.remove(id) =~= stats.active.remove(id));
}

/// Whether a connection is the same but for its bytes.
pub open spec fn same_but_for_bytes(before: ConnectionView, after: ConnectionView) -> bool {
    &&& after.id == before.id
    &&& after.nic_index == before.nic_index
    &&& after.kind == before.kind
    &&& after.target == before.target
    &&& after.started_at == before.started_at
    &&& after.state == before.state
}

/// Whether `tx` bytes were sent and `rx` bytes received over an interface for the connection `id`,
/// and nothing else happened: the bytes are in the total of that interface, and where the
/// connection is active they are its bytes too.
pub open spec fn counts(
    before: StatsView,
    after: StatsView,
    id: u64,
    nic_index: usize,
    tx: nat,
    rx: nat,
) -> bool {
    let nic = nic_index as int;
    &&& same_proxy(before, after)
    &&& same_others(before, after, id)
    &&& after.events == before.events
    &&& after.nics.len() == 2
    &&& after.nics[nic].total_tx == before.nics[nic].total_tx + tx
    &&& after.nics[nic].total_rx == before.nics[nic].total_rx + rx
    &&& after.nics[nic].ip == before.nics[nic].ip
    &&& after.nics[nic].opened_connections == before.nics[nic].opened_connections
    &&& after.nics[nic].failed_connections == before.nics[nic].failed_connections
    &&& after.nics[1 - nic] == before.nics[1 - nic]
    &&& after.active.contains_key(id) == before.active.contains_key(id)
    &&& before.active.contains_key(id) ==> after.active[id].tx == before.active[id].tx + tx
        && after.active[id].rx == before.active[id].rx + rx && same_but_for_bytes(
        before.active[id],
        after.active[id],
    )
}

/// Counting sent and received bytes counts them.
pub(crate) proof fn lemma_counts(stats: StatsView, id: u64, nic_index: usize, bytes: u64)
    requires
        stats::is_kept(stats),
        nic_index < 2,
    ensures
        stats.can_send(id, nic_index, bytes) ==> counts(
            stats,
            stats.sent(id, nic_index, bytes),
            id,
            nic_index,
            bytes as nat,
            0,
        ),
        stats.can_receive(id, nic_index, bytes) ==> counts(
            stats,
            stats.received(id, nic_index, bytes),
            id,
            nic_index,
            0,
            bytes as nat,
        ),
{
    let sent = stats.sent(id, nic_index, bytes);
    let received = stats.received(id, nic_index, bytes);
    assert(sent.active.remove(id) =~= stats.active.remove(id));
    assert(received.active.remove(id) =~= stats.active.remove(id));
}

/// Sent bytes are counted as sent, all of them, and nowhere else.
pub proof fn sent_bytes_are_counted_as_sent(
    stats: &mut SharedStats,
    id: u64,
    nic_index: usize,
    bytes: u64,
)
    requires
        call_ensures(SharedStats::add_tx, (stats, id, nic_index, bytes), ()),
        stats::is_kept(old(stats)@),
        nic_index < 2,
        old(stats)@.can_send(id, nic_index, bytes),
    ensures
        counts(old(stats)@, final(stats)@, id, nic_index, bytes as nat, 0),
{
    lemma_counts(old(stats)@, id, nic_index, bytes);
}

/// Received bytes are counted as received, all of them, and nowhere else.
pub proof fn received_bytes_are_counted_as_received(
    stats: &mut SharedStats,
    id: u64,
    nic_index: usize,
    bytes: u64,
)
    requires
        call_ensures(SharedStats::add_rx, (stats, id, nic_index, bytes), ()),
        stats::is_kept(old(stats)@),
        nic_index < 2,
        old(stats)@.can_receive(id, nic_index, bytes),
    ensures
        counts(old(stats)@, final(stats)@, id, nic_index, 0, bytes as nat),
{
    lemma_counts(old(stats)@, id, nic_index, bytes);
}

/// Bytes can be counted as long as the totals of the interface and of the connection have room for
/// them. To count no bytes is always possible.
pub proof fn counters_take_bytes_until_they_are_full(
    stats: &SharedStats,
    id: u64,
    nic_index: usize,
    bytes: u64,
    sends: bool,
    receives: bool,
)
    requires
        call_ensures(SharedStats::accepts_tx, (stats, id, nic_index, bytes), sends),
        call_ensures(SharedStats::accepts_rx, (stats, id, nic_index, bytes), receives),
    ensures
        ({
            let view = stats@;
            let nic = view.nics[nic_index as int];
            let connection = view.active[id];
            &&& bytes == 0 ==> sends && receives
            &&& bytes > 0 && nic_index >= 2 ==> !sends && !receives
            &&& bytes > 0 && nic_index < 2 ==> {
                &&& sends == (nic.total_tx + bytes < 0x1_0000_0000_0000_0000
                    && (view.active.contains_key(id) ==> connection.tx + bytes
                    < 0x1_0000_0000_0000_0000))
                &&& receives == (nic.total_rx + bytes < 0x1_0000_0000_0000_0000
                    && (view.active.contains_key(id) ==> connection.rx + bytes
                    < 0x1_0000_0000_0000_0000))
            }
        }),
{
}

/// Clients and failures can be counted as long as the counter of the interface has room for one
/// more. The failure of a connection that is not active is not counted, so it is always possible.
pub proof fn counters_take_one_more_until_they_are_full(
    stats: &SharedStats,
    id: u64,
    nic_index: usize,
    client: bool,
    failure: bool,
)
    requires
        call_ensures(SharedStats::accepts_inbound, (stats, nic_index), client),
        call_ensures(SharedStats::accepts_failure, (stats, id), failure),
    ensures
        ({
            let view = stats@;
            let user = view.active[id].nic_index;
            &&& client == (nic_index < 2 && view.nics[nic_index as int].opened_connections + 1
                < 0x1_0000_0000_0000_0000)
            &&& !view.active.contains_key(id) ==> failure
            &&& view.active.contains_key(id) ==> failure == (user < 2
                && view.nics[user as int].failed_connections + 1 < 0x1_0000_0000_0000_0000)
        }),
{
}

/// A connection that ends is no longer active. Its bytes stay in the totals and are told once more,
/// with its age. Nothing happens to one that is not active.
pub proof fn ended_connections_are_told_and_gone(
    stats: &mut SharedStats,
    id: u64,
    state: &str,
    now: Duration,
)
    requires
        call_ensures(SharedStats::finish_connection, (stats, id, state, now), ()),
    ensures
        ends(old(stats)@, final(stats)@, id, state@, now@),
{
    lemma_ends(old(stats)@, id, state@, now@);
}

/// Whether the connection `id` ended, where it was active, and nothing else happened.
pub open spec fn ends(
    before: StatsView,
    after: StatsView,
    id: u64,
    state: Seq<char>,
    now: nat,
) -> bool {
    let one = before.active[id];
    &&& same_proxy(before, after)
    &&& same_others(before, after, id)
    &&& after.nics == before.nics
    &&& !after.active.contains_key(id)
    &&& !before.active.contains_key(id) ==> after.events == before.events
    &&& before.active.contains_key(id) ==> remembers(
        before,
        after,
        one.kind + " #"@ + text::decimal(one.id as nat) + " "@ + state + " after "@
            + clock::compact(
            if now > one.started_at {
                (now - one.started_at) as nat
            } else {
                0
            },
        ) + " tx "@ + units::human(one.tx) + " rx "@ + units::human(one.rx),
        now,
    )
}

/// Ending is what it says.
pub(crate) proof fn lemma_ends(stats: StatsView, id: u64, state: Seq<char>, now: nat)
    ensures
        ends(stats, stats.finished(id, state, now), id, state, now),
{
    let one = stats.active[id];
    let event = one.kind + " #"@ + text::decimal(one.id as nat) + " "@ + state + " after "@
        + clock::compact(clock::elapsed(now, one.started_at)) + " tx "@ + units::human(one.tx)
        + " rx "@ + units::human(one.rx);
    lemma_remembers(stats, event, now);
    assert(stats.finished(id, state, now).active.remove(id) =~= stats.active.remove(id));
}

/// Whether an event was recorded and the connection `id` ended after it.
pub open spec fn notes_and_ends(
    before: StatsView,
    after: StatsView,
    event: Seq<char>,
    id: u64,
    state: Seq<char>,
    now: nat,
) -> bool {
    exists|between: StatsView| #[trigger]
        notes(before, between, event, now) && ends(between, after, id, state, now)
}

/// Recording an event and ending a connection is what it says.
pub(crate) proof fn lemma_notes_and_ends(
    stats: StatsView,
    event: Seq<char>,
    id: u64,
    state: Seq<char>,
    now: nat,
)
    ensures
        notes_and_ends(
            stats,
            stats.with_event(event, now).finished(id, state, now),
            event,
            id,
            state,
            now,
        ),
{
    lemma_notes(stats, event, now);
    lemma_ends(stats.with_event(event, now), id, state, now);
    assert(notes(stats, stats.with_event(event, now), event, now));
}

/// A client that goes away without a request leaves nothing behind. A connection that took
/// something up stays active.
pub proof fn only_idle_clients_go_away_silently(stats: &mut SharedStats, id: u64)
    requires
        call_ensures(SharedStats::finish_pending_tcp, (stats, id), ()),
    ensures
        ({
            let before = old(stats)@;
            let after = final(stats)@;
            let idle = before.active.contains_key(id) && before.active[id].kind == "TCP"@;
            &&& same_proxy(before, after)
            &&& same_others(before, after, id)
            &&& after.nics == before.nics
            &&& after.events == before.events
            &&& idle ==> !after.active.contains_key(id)
            &&& !idle ==> after.active == before.active
        }),
{
    assert(final(stats)@.active.remove(id) =~= old(stats)@.active.remove(id));
}

/// A connection that fails is no longer active, and is counted once as a failure of its interface.
/// Its bytes stay in the totals. The failure of one that is not active is only told.
pub proof fn failures_are_counted_once(
    stats: &mut SharedStats,
    id: u64,
    error: &str,
    now: Duration,
)
    requires
        call_ensures(SharedStats::fail_connection, (stats, id, error, now), ()),
        stats::is_kept(old(stats)@),
        old(stats)@.can_fail(id),
    ensures
        fails(old(stats)@, final(stats)@, id, error@, now@),
{
    lemma_fails(old(stats)@, id, error@, now@);
}

/// Whether the connection `id` failed with an error, and nothing else happened.
pub open spec fn fails(
    before: StatsView,
    after: StatsView,
    id: u64,
    error: Seq<char>,
    now: nat,
) -> bool {
    let one = before.active[id];
    let nic = one.nic_index as int;
    &&& same_proxy(before, after)
    &&& same_others(before, after, id)
    &&& !after.active.contains_key(id)
    &&& !before.active.contains_key(id) ==> after.nics == before.nics && remembers(
        before,
        after,
        "connection #"@ + text::decimal(id as nat) + " failed: "@ + error,
        now,
    )
    &&& before.active.contains_key(id) ==> {
        &&& after.nics.len() == 2
        &&& after.nics[nic].failed_connections == before.nics[nic].failed_connections + 1
        &&& after.nics[nic].opened_connections == before.nics[nic].opened_connections
        &&& after.nics[nic].total_tx == before.nics[nic].total_tx
        &&& after.nics[nic].total_rx == before.nics[nic].total_rx
        &&& after.nics[nic].ip == before.nics[nic].ip
        &&& after.nics[1 - nic] == before.nics[1 - nic]
        &&& remembers(
            before,
            after,
            one.kind + " #"@ + text::decimal(one.id as nat) + " failed after "@ + clock::compact(
                if now > one.started_at {
                    (now - one.started_at) as nat
                } else {
                    0
                },
            ) + " tx "@ + units::human(one.tx) + " rx "@ + units::human(one.rx) + ": "@ + error,
            now,
        )
    }
}

/// Failing is what it says.
pub(crate) proof fn lemma_fails(stats: StatsView, id: u64, error: Seq<char>, now: nat)
    requires
        stats::is_kept(stats),
        stats.can_fail(id),
    ensures
        fails(stats, stats.failed(id, error, now), id, error, now),
{
    let one = stats.active[id];
    let event = one.kind + " #"@ + text::decimal(one.id as nat) + " failed after "@
        + clock::compact(clock::elapsed(now, one.started_at)) + " tx "@ + units::human(one.tx)
        + " rx "@ + units::human(one.rx) + ": "@ + error;
    lemma_remembers(stats, event, now);
    lemma_remembers(
        stats,
        "connection #"@ + text::decimal(id as nat) + " failed: "@ + error,
        now,
    );
    assert(stats.failed(id, error, now).active.remove(id) =~= stats.active.remove(id));
}

/// A proxy that starts has counted nothing and knows its two interfaces in their order.
pub proof fn proxies_start_at_nothing(
    config: &Config,
    options: RuntimeOptions,
    now: Duration,
    stats: SharedStats,
)
    requires
        call_ensures(SharedStats::new, (config, options, now), stats),
    ensures
        ({
            let view = stats@;
            &&& view.started_at == now@
            &&& view.listen == config.proxy.listen
            &&& view.range_split_enabled == options.range_split_enabled
            &&& view.nics.len() == 2
            &&& view.nics[0].ip == config.nics@[0].ip && view.nics[1].ip == config.nics@[1].ip
            &&& view.active =~= Map::empty()
            &&& view.events =~= seq![]
            &&& forall|i: int|
                0 <= i < 2 ==> (#[trigger] view.nics[i]).total_tx == 0 && view.nics[i].total_rx == 0
                    && view.nics[i].opened_connections == 0 && view.nics[i].failed_connections == 0
            &&& view.samples.len() == 1 && view.samples[0].at == now@
        }),
{
}

/// What a snapshot shows is what was counted: nothing is shown of an interface that is not its
/// own, and taking the snapshot changes no counter.
pub proof fn snapshots_show_what_was_counted(
    stats: &mut SharedStats,
    now: Duration,
    snapshot: StatsSnapshot,
    nic_index: usize,
)
    requires
        call_ensures(SharedStats::snapshot, (stats, now), snapshot),
        stats::is_kept(old(stats)@),
        nic_index < 2,
    ensures
        ({
            let before = old(stats)@;
            let after = final(stats)@;
            let nic = before.nics[nic_index as int];
            let shown = snapshot.nics@[nic_index as int];
            &&& after.nics == before.nics
            &&& after.active == before.active
            &&& after.events == before.events
            &&& after.started_at == before.started_at
            &&& snapshot.listen == before.listen
            &&& snapshot.range_split_enabled == before.range_split_enabled
            &&& snapshot.elapsed@ == if now@ > before.started_at {
                (now@ - before.started_at) as nat
            } else {
                0
            }
            &&& text::texts(snapshot.recent_events@) == before.events
            &&& shown.index == nic_index
            &&& shown.ip == nic.ip
            &&& shown.total_tx == nic.total_tx
            &&& shown.total_rx == nic.total_rx
            &&& shown.opened_connections == nic.opened_connections
            &&& shown.failed_connections == nic.failed_connections
            &&& shown.active_connections == before.active.dom().filter(
                |id: u64| before.active[id].nic_index == nic_index,
            ).len()
        }),
{
    let before = old(stats)@;
    let after = final(stats)@;
    let shown = snapshot@.nics[nic_index as int];
    assert(shown == after.nic_shown(nic_index, now@));
    assert(text::texts(snapshot.recent_events@) =~= snapshot@.events);
    assert(snapshot@.nics == snapshot.nics@);
    assert(stats::users(after.active, nic_index) == before.active.dom().filter(
        |id: u64| before.active[id].nic_index == nic_index,
    ).len());
}

/// The throughput that a snapshot shows is that of the bytes since the oldest sample that is kept,
/// sent for sent and received for received, over the time since that sample, at least a second.
pub proof fn snapshots_show_throughput_since_the_oldest_sample(
    stats: &mut SharedStats,
    now: Duration,
    snapshot: StatsSnapshot,
    nic_index: usize,
    time: &Duration,
    sent: u64,
    received: u64,
    sent_rate: u64,
    received_rate: u64,
)
    requires
        call_ensures(SharedStats::snapshot, (stats, now), snapshot),
        stats::is_kept(old(stats)@),
        nic_index < 2,
        ({
            let oldest = final(stats)@.samples[0];
            let nic = final(stats)@.nics[nic_index as int];
            &&& oldest.nics[nic_index as int].tx + sent == nic.total_tx
            &&& oldest.nics[nic_index as int].rx + received == nic.total_rx
            &&& if oldest.at + 1_000_000_000 < now@ {
                oldest.at + time@ == now@
            } else {
                time@ == 1_000_000_000
            }
        }),
        call_ensures(rate_of, (sent, time), sent_rate),
        call_ensures(rate_of, (received, time), received_rate),
    ensures
        snapshot.nics@[nic_index as int].tx_per_sec == sent_rate,
        snapshot.nics@[nic_index as int].rx_per_sec == received_rate,
{
    let after = final(stats)@;
    let shown = snapshot@.nics[nic_index as int];
    assert(shown == after.nic_shown(nic_index, now@));
    assert(snapshot@.nics == snapshot.nics@);
    assert(after.averaged_over(now@) == time@);
    assert(after.carried(nic_index as int).tx == sent);
    assert(after.carried(nic_index as int).rx == received);
}

/// A snapshot adds a sample of the totals at its moment, and drops only samples that are more than
/// ten seconds old. The oldest sample that is kept is at most ten seconds old.
pub proof fn samples_are_at_most_ten_seconds_old(
    stats: &mut SharedStats,
    now: Duration,
    snapshot: StatsSnapshot,
)
    requires
        call_ensures(SharedStats::snapshot, (stats, now), snapshot),
        stats::is_kept(old(stats)@),
    ensures
        ({
            let before = old(stats)@;
            let all = final(stats)@.samples;
            let dropped = before.samples.len() + 1 - all.len();
            &&& 0 <= dropped < before.samples.len() + 1
            &&& all.last().at == now@
            &&& forall|nic: int|
                0 <= nic < 2 ==> (#[trigger] all.last().nics[nic]).tx == before.nics[nic].total_tx
                    && all.last().nics[nic].rx == before.nics[nic].total_rx
            &&& all.drop_last() == before.samples.skip(dropped)
            &&& forall|i: int|
                0 <= i < dropped ==> now@ > (#[trigger] before.samples[i]).at + 10_000_000_000
            &&& now@ <= all[0].at + 10_000_000_000
        }),
{
    let before = old(stats)@;
    let fresh = stats::sample_of(before.nics, now@);
    let samples = before.samples.push(fresh);
    let all = final(stats)@.samples;
    stats::lemma_window_is_part(samples, now@);
    stats::lemma_window_front(samples, now@);
    let dropped = before.samples.len() + 1 - all.len();
    assert(all.drop_last() =~= before.samples.skip(dropped));
    assert(all.last() == fresh);
    assert forall|i: int| 0 <= i < dropped implies now@ > (#[trigger] before.samples[i]).at
        + 10_000_000_000 by {
        crate::laws::lemma_window_drops(samples, now@, i);
        assert(samples[i] == before.samples[i]);
    }
}

/// A snapshot shows the active connections with the lowest numbers, ten at most, in the order of
/// their numbers, each with what was counted for it.
pub proof fn snapshots_show_the_first_connections(
    stats: &mut SharedStats,
    now: Duration,
    snapshot: StatsSnapshot,
    at: int,
)
    requires
        call_ensures(SharedStats::snapshot, (stats, now), snapshot),
        stats::is_kept(old(stats)@),
        0 <= at < snapshot.active_connections@.len(),
    ensures
        ({
            let active = old(stats)@.active;
            let rows = snapshot.active_connections@;
            let row = rows[at];
            let one = active[row.id];
            &&& rows.len() <= 10
            &&& rows.len() == 10 || rows.len() == active.dom().len()
            &&& active.contains_key(row.id)
            &&& forall|i: int| 0 <= i < at ==> (#[trigger] rows[i]).id < row.id
            &&& forall|id: u64| #[trigger]
                active.contains_key(id) && id < row.id ==> exists|i: int|
                    0 <= i < at && (#[trigger] rows[i]).id == id
            &&& row.nic_index == one.nic_index
            &&& row.kind@ == one.kind
            &&& row.target@ == one.target
            &&& row.state@ == one.state
            &&& row.tx == one.tx
            &&& row.rx == one.rx
            &&& row.age@ == if now@ > one.started_at {
                (now@ - one.started_at) as nat
            } else {
                0
            }
        }),
{
    let active = old(stats)@.active;
    let rows = snapshot.active_connections@;
    let shown = snapshot@.active;
    let ids = stats::in_order(active.dom());
    stats::order_lists_all(active.dom());
    assert(shown.len() == rows.len());
    assert forall|i: int| 0 <= i < rows.len() implies (#[trigger] rows[i]).id == ids[i]
        && shown[i] == active[ids[i]].shown(now@) by {
        assert(shown[i] == rows[i]@);
        assert(ids.to_set().contains(ids[i]));
        assert(active.contains_key(ids[i]));
    }
    assert(ids.to_set().contains(ids[at]));
    assert(shown[at] == rows[at]@);
    assert forall|id: u64| #[trigger]
        active.contains_key(id) && id < rows[at].id implies exists|i: int|
        0 <= i < at && (#[trigger] rows[i]).id == id by {
        assert(ids.to_set().contains(id));
        let i = ids.index_of(id);
        if i >= at {
            assert(ids[at] <= ids[i]);
        }
        assert(rows[i].id == ids[i]);
    }
}

/// Where nothing is shown of any connection, none is active.
pub proof fn empty_snapshots_mean_no_connections(
    stats: &mut SharedStats,
    now: Duration,
    snapshot: StatsSnapshot,
)
    requires
        call_ensures(SharedStats::snapshot, (stats, now), snapshot),
        stats::is_kept(old(stats)@),
    ensures
        snapshot.active_connections@.len() == 0 <==> old(stats)@.active.dom().len() == 0,
{
    stats::order_lists_all(old(stats)@.active.dom());
    assert(snapshot@.active.len() == snapshot.active_connections@.len());
}

/// The throughput is the number of bytes divided by the time, up to one part in 2^50 and cut to
/// whole bytes, and over whole seconds exactly the whole part.
pub proof fn throughput_is_bytes_over_time(bytes: u64, duration: &Duration, rate: u64)
    requires
        call_ensures(rate_of, (bytes, duration), rate),
        bytes < 0x20_0000_0000_0000,
        1_000_000_000 <= duration@ <= 10_000_000_000,
    ensures
        rate * duration@ * 0x4_0000_0000_0000 <= bytes * 1_000_000_000 * 0x4_0000_0000_0001,
        bytes * 1_000_000_000 * 0x3_ffff_ffff_ffff <= (rate + 1) * duration@ * 0x4_0000_0000_0000,
        duration@ % 1_000_000_000 == 0 ==> rate == bytes as int / (duration@ as int
            / 1_000_000_000),
{
    crate::laws::lemma_rate(bytes, duration@);
}

/// Clients are numbered one after the other and are assigned the two interfaces in turn. Nothing
/// else of the proxy changes but what is counted for the client.
pub proof fn clients_take_turns(
    state: &mut ProxyState,
    peer: SocketAddr,
    now: Duration,
    connection: ConnectionContext,
    later_state: &mut ProxyState,
    later_peer: SocketAddr,
    later: Duration,
    next: ConnectionContext,
)
    requires
        call_ensures(ProxyState::next_connection, (state, peer, now), connection),
        call_ensures(ProxyState::next_connection, (later_state, later_peer, later), next),
        old(later_state).turns == final(state).turns,
        connection.id < u64::MAX,
    ensures
        connection.nic_index < 2,
        next.nic_index == 1 - connection.nic_index,
        next.id == connection.id + 1,
        connection.peer == peer,
        final(state).config == old(state).config,
        final(state).options == old(state).options,
        final(state).stats@ == old(state).stats@.inbound(
            connection.id,
            peer,
            connection.nic_index,
            now@,
        ),
{
}

/// The first client is number one and is assigned the first interface.
pub proof fn the_first_client_has_the_first_interface(
    config: Config,
    options: RuntimeOptions,
    start: Duration,
    fresh: ProxyState,
    state: &mut ProxyState,
    peer: SocketAddr,
    now: Duration,
    connection: ConnectionContext,
)
    requires
        call_ensures(ProxyState::new, (config, options, start), fresh),
        *old(state) == fresh,
        call_ensures(ProxyState::next_connection, (state, peer, now), connection),
    ensures
        fresh.config == config,
        fresh.options == options,
        connection.id == 1,
        connection.nic_index == 0,
{
}

/// A client that goes away without a request is forgotten. An error that ended its connection is
/// told.
pub proof fn clients_that_go_away_are_forgotten(
    state: &mut ProxyState,
    connection: &ConnectionContext,
    error: Option<&str>,
    now: Duration,
)
    requires
        call_ensures(ProxyState::connection_ended, (state, connection, error, now), ()),
    ensures
        ({
            let before = old(state).stats@;
            let after = final(state).stats@;
            let id = connection.id;
            let idle = before.active.contains_key(id) && before.active[id].kind == "TCP"@;
            &&& final(state).config == old(state).config
            &&& final(state).options == old(state).options
            &&& final(state).turns == old(state).turns
            &&& same_proxy(before, after)
            &&& same_others(before, after, id)
            &&& after.nics == before.nics
            &&& idle ==> !after.active.contains_key(id)
            &&& !idle ==> after.active == before.active
            &&& error is None ==> after.events == before.events
            &&& error is Some ==> remembers(
                before,
                after,
                "connection #"@ + text::decimal(id as nat) + " from "@
                    + connection.peer.printed_form() + " failed: "@ + error->0@,
                now@,
            )
        }),
{
    let before = old(state).stats@;
    let after = final(state).stats@;
    if let Some(error) = error {
        lemma_remembers(
            before,
            "connection #"@ + text::decimal(connection.id as nat) + " from "@
                + connection.peer.printed_form() + " failed: "@ + error@,
            now@,
        );
    }
    assert(after.active.remove(connection.id) =~= before.active.remove(connection.id));
}

/// A client can be taken in exactly where the interface whose turn it is can count one more.
pub proof fn clients_are_taken_in_while_they_can_be_counted(
    state: &ProxyState,
    accepts: bool,
    taking: &mut ProxyState,
    peer: SocketAddr,
    now: Duration,
    connection: ConnectionContext,
)
    requires
        call_ensures(ProxyState::accepts_connection, (state,), accepts),
        *old(taking) == *state,
        call_ensures(ProxyState::next_connection, (taking, peer, now), connection),
    ensures
        accepts == (state.stats@.nics[connection.nic_index as int].opened_connections + 1
            < 0x1_0000_0000_0000_0000),
{
}

} // verus!

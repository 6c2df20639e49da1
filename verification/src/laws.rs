//! What holds of the proxy as a whole: laws that span several of its functions.

use bytes::Bytes;
use vstd::prelude::*;

use crate::body;
use crate::chunk;
use crate::chunk::Chunk;
use crate::cli::RuntimeOptions;
use crate::clock;
use crate::config::Config;
use crate::fields;
use crate::handler;
use crate::http;
use crate::http::{ChunkResult, TransferResult};
use crate::net::SocketAddr;
use crate::output;
use crate::proxy::ConnectionContext;
use crate::rate;
use crate::response;
use crate::response::ProxyResponse;
use crate::stats;
use crate::stats::{
    ConnectionSnapshotView, ConnectionView, NicSnapshot, NicStats, NicTotals, SampleView,
    SnapshotView, StatsView,
};
use crate::status;
use crate::status::OK;
use crate::text;
use crate::tunnel;
use crate::tunnel::{CopyEvent, CopyPhase, Direction};
use crate::units;

verus! {

/// One call of the statistics, with the reading of the clock where it depends on the time.
pub enum StatsCall {
    Inbound { id: u64, peer: SocketAddr, nic_index: usize, now: nat },
    Start {
        id: u64,
        nic_index: usize,
        kind: Seq<char>,
        target: Seq<char>,
        state: Seq<char>,
        now: nat,
    },
    SetState { id: u64, state: Seq<char> },
    Event { event: Seq<char>, now: nat },
    Send { id: u64, nic_index: usize, bytes: u64 },
    Receive { id: u64, nic_index: usize, bytes: u64 },
    Finish { id: u64, state: Seq<char>, now: nat },
    CloseTcp { id: u64 },
    Fail { id: u64, error: Seq<char>, now: nat },
    Snapshot { now: nat },
}

impl StatsCall {
    /// Whether the call can be made: no counter overflows, and counting names an interface.
    pub open spec fn is_allowed(self, stats: StatsView) -> bool {
        match self {
            StatsCall::Inbound { nic_index, .. } => nic_index < 2
                && stats.nics[nic_index as int].opened_connections < u64::MAX,
            StatsCall::Send { id, nic_index, bytes } => stats.can_send(id, nic_index, bytes),
            StatsCall::Receive { id, nic_index, bytes } => stats.can_receive(id, nic_index, bytes),
            StatsCall::Fail { id, .. } => stats.can_fail(id),
            _ => true,
        }
    }

    /// The statistics after the call.
    pub open spec fn after(self, stats: StatsView) -> StatsView {
        match self {
            StatsCall::Inbound { id, peer, nic_index, now } => stats.inbound(
                id,
                peer,
                nic_index,
                now,
            ),
            StatsCall::Start { id, nic_index, kind, target, state, now } => stats.started(
                id,
                nic_index,
                kind,
                target,
                state,
                now,
            ),
            StatsCall::SetState { id, state } => stats.in_state(id, state),
            StatsCall::Event { event, now } => stats.with_event(event, now),
            StatsCall::Send { id, nic_index, bytes } => stats.sent(id, nic_index, bytes),
            StatsCall::Receive { id, nic_index, bytes } => stats.received(id, nic_index, bytes),
            StatsCall::Finish { id, state, now } => stats.finished(id, state, now),
            StatsCall::CloseTcp { id } => stats.tcp_closed(id),
            StatsCall::Fail { id, error, now } => stats.failed(id, error, now),
            StatsCall::Snapshot { now } => stats.sampled(now),
        }
    }

    /// Whether the call is about the connection `id`.
    pub open spec fn is_about(self, id: u64) -> bool {
        match self {
            StatsCall::Inbound { id: about, .. } => about == id,
            StatsCall::Start { id: about, .. } => about == id,
            StatsCall::SetState { id: about, .. } => about == id,
            StatsCall::Event { .. } => false,
            StatsCall::Send { id: about, .. } => about == id,
            StatsCall::Receive { id: about, .. } => about == id,
            StatsCall::Finish { id: about, .. } => about == id,
            StatsCall::CloseTcp { id: about } => about == id,
            StatsCall::Fail { id: about, .. } => about == id,
            StatsCall::Snapshot { .. } => false,
        }
    }

    /// Whether a connection that takes something up does so over one of the two interfaces.
    pub open spec fn names_nic(self) -> bool {
        match self {
            StatsCall::Start { nic_index, .. } => nic_index < 2,
            _ => true,
        }
    }
}

/// The statistics after some calls, one after the other.
pub open spec fn after_calls(stats: StatsView, calls: Seq<StatsCall>) -> StatsView
    decreases calls.len(),
{
    if calls.len() == 0 {
        stats
    } else {
        calls.last().after(after_calls(stats, calls.drop_last()))
    }
}

/// Whether each of some calls can be made when its turn comes.
pub open spec fn all_allowed(stats: StatsView, calls: Seq<StatsCall>) -> bool
    decreases calls.len(),
{
    calls.len() > 0 ==> all_allowed(stats, calls.drop_last()) && calls.last().is_allowed(
        after_calls(stats, calls.drop_last()),
    )
}

/// The proxy starts with statistics in order and without connections.
pub proof fn statistics_start_in_order(config: Config, options: RuntimeOptions, now: nat)
    ensures
        is_sound(StatsView::initial(config, options, now)),
        StatsView::initial(config, options, now).active.dom().len() == 0,
{
}

/// Every call leaves the statistics in order.
pub proof fn statistics_stay_in_order(stats: StatsView, call: StatsCall)
    requires
        stats::is_kept(stats),
        call.is_allowed(stats),
    ensures
        stats::is_kept(call.after(stats)),
{
    if let StatsCall::Snapshot { now } = call {
        let samples = stats.samples.push(stats::sample_of(stats.nics, now));
        stats::lemma_window_is_part(samples, now);
        let kept = stats.sampled(now).samples;
        assert forall|i: int| 0 <= i < kept.len() implies (#[trigger] kept[i]).nics.len() == 2 by {
            assert(kept[i] == samples[i + samples.len() - kept.len()]);
        }
    }
}

/// Whether the statistics are in order and each active connection is on one of the interfaces.
pub open spec fn is_sound(stats: StatsView) -> bool {
    &&& stats::is_kept(stats)
    &&& forall|id: u64| #[trigger]
        stats.active.contains_key(id) ==> stats.active[id].nic_index < 2
}

/// As long as connections take things up over one of the interfaces, each is on one of them.
pub proof fn connections_stay_on_interfaces(stats: StatsView, call: StatsCall)
    requires
        is_sound(stats),
        call.is_allowed(stats),
        call.names_nic(),
    ensures
        is_sound(call.after(stats)),
{
    statistics_stay_in_order(stats, call);
}

/// The counters of an interface that only grow.
pub open spec fn grew(before: NicStats, after: NicStats) -> bool {
    &&& after.ip == before.ip
    &&& after.total_tx >= before.total_tx
    &&& after.total_rx >= before.total_rx
    &&& after.opened_connections >= before.opened_connections
    &&& after.failed_connections >= before.failed_connections
}

/// No call takes anything off the counters of an interface.
pub proof fn counters_never_fall(stats: StatsView, call: StatsCall, nic: int)
    requires
        stats::is_kept(stats),
        call.is_allowed(stats),
        0 <= nic < 2,
    ensures
        grew(stats.nics[nic], call.after(stats).nics[nic]),
{
}

/// No sequence of calls takes anything off the counters of an interface, or brings the statistics
/// out of order.
pub proof fn counters_never_fall_over_calls(stats: StatsView, calls: Seq<StatsCall>, nic: int)
    requires
        stats::is_kept(stats),
        all_allowed(stats, calls),
        0 <= nic < 2,
    ensures
        stats::is_kept(after_calls(stats, calls)),
        grew(stats.nics[nic], after_calls(stats, calls).nics[nic]),
    decreases calls.len(),
{
    if calls.len() > 0 {
        let before = after_calls(stats, calls.drop_last());
        counters_never_fall_over_calls(stats, calls.drop_last(), nic);
        statistics_stay_in_order(before, calls.last());
        counters_never_fall(before, calls.last(), nic);
    }
}

/// What a snapshot shows of an interface has the interface's own counters.
proof fn lemma_shown_nic(stats: StatsView, now: nat, nic_index: usize)
    requires
        nic_index < 2,
    ensures
        ({
            let shown = stats.shown(now).nics[nic_index as int];
            let nic = stats.nics[nic_index as int];
            &&& shown.total_tx == nic.total_tx
            &&& shown.total_rx == nic.total_rx
            &&& shown.opened_connections == nic.opened_connections
            &&& shown.failed_connections == nic.failed_connections
            &&& shown.tx_per_sec == rate::rate(
                stats.carried(nic_index as int).tx,
                stats.averaged_over(now),
            )
            &&& shown.rx_per_sec == rate::rate(
                stats.carried(nic_index as int).rx,
                stats.averaged_over(now),
            )
        }),
{
    let shown = stats.shown(now).nics[nic_index as int];
    assert(shown == stats.nic_shown(nic_index, now));
}

/// Whether a later snapshot of an interface shows no less than an earlier one.
pub open spec fn shows_no_less(before: NicSnapshot, after: NicSnapshot) -> bool {
    &&& after.total_tx >= before.total_tx
    &&& after.total_rx >= before.total_rx
    &&& after.opened_connections >= before.opened_connections
    &&& after.failed_connections >= before.failed_connections
}

/// Whatever is called between two snapshots, the later one shows no less of an interface than the
/// earlier one.
pub proof fn later_snapshots_show_no_less(
    stats: StatsView,
    now: nat,
    calls: Seq<StatsCall>,
    later: nat,
    nic_index: usize,
)
    requires
        stats::is_kept(stats),
        all_allowed(stats.sampled(now), calls),
        nic_index < 2,
    ensures
        shows_no_less(
            stats.sampled(now).shown(now).nics[nic_index as int],
            after_calls(stats.sampled(now), calls).sampled(later).shown(later).nics[nic_index as int],
        ),
{
    statistics_stay_in_order(stats, StatsCall::Snapshot { now });
    lemma_shown_nic(stats.sampled(now), now, nic_index);
    lemma_shown_nic(after_calls(stats.sampled(now), calls).sampled(later), later, nic_index);
    counters_never_fall_over_calls(stats.sampled(now), calls, nic_index as int);
}

/// However a connection ends, the bytes that were counted for it stay in the totals.
pub proof fn ended_connections_keep_counted_bytes(
    stats: StatsView,
    id: u64,
    state: Seq<char>,
    now: nat,
    nic: int,
)
    requires
        stats::is_kept(stats),
        0 <= nic < 2,
    ensures
        stats.can_fail(id) ==> stats.failed(id, state, now).nics[nic].totals()
            == stats.nics[nic].totals(),
        stats.finished(id, state, now).nics[nic].totals() == stats.nics[nic].totals(),
        stats.tcp_closed(id).nics[nic].totals() == stats.nics[nic].totals(),
{
}

/// Bytes are counted once for the interface they went over and once for their connection, and
/// nowhere else.
pub proof fn bytes_are_counted_once(stats: StatsView, id: u64, nic_index: usize, bytes: u64)
    requires
        stats::is_kept(stats),
        nic_index < 2,
    ensures
        stats.can_send(id, nic_index, bytes) ==> {
            let after = stats.sent(id, nic_index, bytes);
            let nic = nic_index as int;
            &&& stats::is_kept(after)
            &&& after.nics[nic].total_tx == stats.nics[nic].total_tx + bytes
            &&& after.nics[nic].total_rx == stats.nics[nic].total_rx
            &&& after.nics[1 - nic] == stats.nics[1 - nic]
            &&& after.active.dom() == stats.active.dom()
            &&& stats.active.contains_key(id) ==> after.active[id].tx == stats.active[id].tx + bytes
                && after.active[id].rx == stats.active[id].rx
            &&& after.active.remove(id) == stats.active.remove(id)
        },
        stats.can_receive(id, nic_index, bytes) ==> {
            let after = stats.received(id, nic_index, bytes);
            let nic = nic_index as int;
            &&& stats::is_kept(after)
            &&& after.nics[nic].total_rx == stats.nics[nic].total_rx + bytes
            &&& after.nics[nic].total_tx == stats.nics[nic].total_tx
            &&& after.nics[1 - nic] == stats.nics[1 - nic]
            &&& after.active.dom() == stats.active.dom()
            &&& stats.active.contains_key(id) ==> after.active[id].rx == stats.active[id].rx + bytes
                && after.active[id].tx == stats.active[id].tx
            &&& after.active.remove(id) == stats.active.remove(id)
        },
{
    let sent = stats.sent(id, nic_index, bytes);
    let received = stats.received(id, nic_index, bytes);
    assert(sent.active.dom() =~= stats.active.dom());
    assert(sent.active.remove(id) =~= stats.active.remove(id));
    assert(received.active.dom() =~= stats.active.dom());
    assert(received.active.remove(id) =~= stats.active.remove(id));
}

/// A call about one connection leaves all others alone.
pub proof fn connections_do_not_interfere(stats: StatsView, call: StatsCall, other: u64)
    requires
        !call.is_about(other),
    ensures
        call.after(stats).active.contains_key(other) == stats.active.contains_key(other),
        stats.active.contains_key(other) ==> call.after(stats).active[other] == stats.active[other],
{
}

/// A connection that ends is no longer active, and the end of one whose client made no request
/// only concerns those: a connection that took up a request stays active.
pub proof fn ended_connections_are_gone(stats: StatsView, id: u64, state: Seq<char>, now: nat)
    ensures
        !stats.finished(id, state, now).active.contains_key(id),
        !stats.failed(id, state, now).active.contains_key(id),
        stats.tcp_closed(id).active.contains_key(id) == (stats.active.contains_key(id)
            && stats.active[id].kind != "TCP"@),
{
}

/// A connection that takes up a request keeps its bytes, its number and its start.
pub proof fn requests_keep_counted_bytes(
    stats: StatsView,
    id: u64,
    nic_index: usize,
    kind: Seq<char>,
    target: Seq<char>,
    state: Seq<char>,
    now: nat,
)
    requires
        stats.active.contains_key(id),
    ensures
        ({
            let before = stats.active[id];
            let after = stats.started(id, nic_index, kind, target, state, now).active[id];
            &&& after.id == before.id
            &&& after.tx == before.tx
            &&& after.rx == before.rx
            &&& after.started_at == before.started_at
        }),
{
}

/// Only the latest events are remembered: the new one is the last, and those before it are the
/// last ones of before.
pub proof fn latest_events_are_kept(stats: StatsView, event: Seq<char>, now: nat)
    ensures
        ({
            let after = stats.with_event(event, now).events;
            &&& 0 < after.len() <= stats::RECENT_EVENT_LIMIT
            &&& after.last() == "+"@ + clock::compact(clock::elapsed(now, stats.started_at)) + "  "@
                + event
            &&& after.drop_last().len() <= stats.events.len()
            &&& after.drop_last() == stats.events.skip(
                stats.events.len() - after.drop_last().len(),
            )
            &&& after.len() == stats::RECENT_EVENT_LIMIT || after.len() == stats.events.len() + 1
        }),
{
    let after = stats.with_event(event, now).events;
    assert(after.drop_last() =~= stats.events.skip(stats.events.len() - after.drop_last().len()));
}

/// Throughput is averaged over the last ten seconds at most and over one second at least.
pub proof fn throughput_is_recent(stats: StatsView, now: nat)
    ensures
        clock::NANOS_PER_SEC <= stats.sampled(now).averaged_over(now) <= 10 * clock::NANOS_PER_SEC,
{
    let samples = stats.samples.push(stats::sample_of(stats.nics, now));
    let kept = stats.sampled(now).samples;
    stats::lemma_window_is_part(samples, now);
    stats::lemma_window_front(samples, now);
    assert(kept.last() == samples.last());
}

/// Whether samples were taken one after the other.
pub open spec fn in_time_order(samples: Seq<SampleView>) -> bool {
    forall|i: int, j: int| 0 <= i <= j < samples.len() ==> samples[i].at <= samples[j].at
}

/// All samples that were taken up to the end of some calls, also those no longer kept.
pub open spec fn history(stats: StatsView, calls: Seq<StatsCall>) -> Seq<SampleView>
    decreases calls.len(),
{
    if calls.len() == 0 {
        stats.samples
    } else {
        let before = history(stats, calls.drop_last());
        match calls.last() {
            StatsCall::Snapshot { now } => before.push(
                stats::sample_of(after_calls(stats, calls.drop_last()).nics, now),
            ),
            _ => before,
        }
    }
}

/// Whether the totals of an interface at all samples are at most what they are now.
pub open spec fn bounds_samples(nics: Seq<NicStats>, samples: Seq<SampleView>, nic: int) -> bool {
    forall|i: int|
        0 <= i < samples.len() ==> (#[trigger] samples[i]).nics[nic].tx <= nics[nic].total_tx
            && samples[i].nics[nic].rx <= nics[nic].total_rx
}

/// Only samples that are too old are dropped.
pub(crate) proof fn lemma_window_drops(samples: Seq<SampleView>, now: nat, at: int)
    requires
        0 <= at < samples.len() - stats::within_window(samples, now).len(),
    ensures
        clock::elapsed(now, samples[at].at) > stats::window_nanos(),
    decreases samples.len(),
{
    if samples.len() > 1 && clock::elapsed(now, samples[0].at) > stats::window_nanos() {
        if at > 0 {
            lemma_window_drops(samples.drop_first(), now, at - 1);
            assert(samples.drop_first()[at - 1] == samples[at]);
        }
    }
}

/// The samples that are kept are the last ones that were taken, the others were too old already at
/// the last one, and the totals never fell since.
proof fn lemma_history(stats: StatsView, calls: Seq<StatsCall>, nic: int)
    requires
        stats::is_kept(stats),
        all_allowed(stats, calls),
        in_time_order(history(stats, calls)),
        bounds_samples(stats.nics, stats.samples, nic),
        0 <= nic < 2,
    ensures
        ({
            let all = history(stats, calls);
            let after = after_calls(stats, calls);
            let gone = all.len() - after.samples.len();
            &&& stats::is_kept(after)
            &&& gone >= 0
            &&& after.samples == all.skip(gone)
            &&& forall|i: int|
                0 <= i < gone ==> clock::elapsed(all.last().at, (#[trigger] all[i]).at)
                    > stats::window_nanos()
            &&& bounds_samples(after.nics, all, nic)
        }),
    decreases calls.len(),
{
    let all = history(stats, calls);
    let after = after_calls(stats, calls);
    if calls.len() == 0 {
        assert(all.skip(0) =~= all);
    } else {
        let earlier = calls.drop_last();
        let before = after_calls(stats, earlier);
        let known = history(stats, earlier);
        if calls.last() is Snapshot {
            assert forall|i: int, j: int| 0 <= i <= j < known.len() implies known[i].at
                <= known[j].at by {
                assert(all[i] == known[i] && all[j] == known[j]);
            }
        }
        lemma_history(stats, earlier, nic);
        statistics_stay_in_order(before, calls.last());
        counters_never_fall(before, calls.last(), nic);
        if let StatsCall::Snapshot { now } = calls.last() {
            let fresh = stats::sample_of(before.nics, now);
            let samples = before.samples.push(fresh);
            stats::lemma_window_is_part(samples, now);
            let gone_before = known.len() - before.samples.len();
            let gone = all.len() - after.samples.len();
            assert(samples =~= all.skip(gone_before));
            assert(after.samples =~= all.skip(gone));
            assert(all.last().at == now);
            assert(known.last() == all[known.len() - 1]);
            assert forall|i: int| 0 <= i < gone implies clock::elapsed(
                all.last().at,
                (#[trigger] all[i]).at,
            ) > stats::window_nanos() by {
                if i < gone_before {
                    assert(known[i] == all[i]);
                    assert(all[known.len() - 1].at <= all[known.len() as int].at);
                } else {
                    lemma_window_drops(samples, now, i - gone_before);
                    assert(samples[i - gone_before] == all[i]);
                }
            }
            assert forall|i: int| 0 <= i < all.len() implies (#[trigger] all[i]).nics[nic].tx
                <= after.nics[nic].total_tx && all[i].nics[nic].rx <= after.nics[nic].total_rx by {
                if i < known.len() {
                    assert(known[i] == all[i]);
                }
            }
        }
    }
}

/// Whether `at` is the place of the earliest sample that is at most ten seconds old.
pub open spec fn is_first_recent(samples: Seq<SampleView>, now: nat, at: int) -> bool {
    &&& 0 <= at < samples.len()
    &&& clock::elapsed(now, samples[at].at) <= stats::window_nanos()
    &&& forall|i: int|
        0 <= i < at ==> clock::elapsed(now, (#[trigger] samples[i]).at) > stats::window_nanos()
}

/// The time over which throughput since a sample is averaged: at least a second.
pub open spec fn time_since(now: nat, at: nat) -> nat {
    if clock::elapsed(now, at) > clock::NANOS_PER_SEC {
        clock::elapsed(now, at)
    } else {
        clock::NANOS_PER_SEC as nat
    }
}

/// The throughput of an interface that a snapshot shows, whatever was called since the start, is
/// what the interface carried since the earliest moment of the last ten seconds at which the proxy
/// started or a snapshot was taken, this one included, divided by the time since then. What was
/// carried before that moment plays no part.
pub proof fn rates_cover_the_last_ten_seconds(
    config: Config,
    options: RuntimeOptions,
    start: nat,
    calls: Seq<StatsCall>,
    now: nat,
    nic_index: usize,
)
    requires
        all_allowed(StatsView::initial(config, options, start), calls),
        in_time_order(
            history(
                StatsView::initial(config, options, start),
                calls.push(StatsCall::Snapshot { now }),
            ),
        ),
        nic_index < 2,
    ensures
        ({
            let initial = StatsView::initial(config, options, start);
            let all = history(initial, calls.push(StatsCall::Snapshot { now }));
            let after = after_calls(initial, calls).sampled(now);
            let nic = after.nics[nic_index as int];
            let shown = after.shown(now).nics[nic_index as int];
            &&& shown.total_tx == nic.total_tx
            &&& shown.total_rx == nic.total_rx
            &&& exists|at: int| #[trigger]
                is_first_recent(all, now, at) && {
                    let base = all[at].nics[nic_index as int];
                    &&& base.tx <= nic.total_tx
                    &&& base.rx <= nic.total_rx
                    &&& shown.tx_per_sec == rate::rate(
                        (nic.total_tx - base.tx) as u64,
                        time_since(now, all[at].at),
                    )
                    &&& shown.rx_per_sec == rate::rate(
                        (nic.total_rx - base.rx) as u64,
                        time_since(now, all[at].at),
                    )
                }
        }),
{
    let initial = StatsView::initial(config, options, start);
    let ended = calls.push(StatsCall::Snapshot { now });
    let all = history(initial, ended);
    let before = after_calls(initial, calls);
    let after = before.sampled(now);
    assert(ended.drop_last() =~= calls);
    assert(after_calls(initial, ended) == after);
    assert(all_allowed(initial, ended));
    lemma_history(initial, ended, nic_index as int);
    let at = all.len() - after.samples.len();
    stats::lemma_window_front(before.samples.push(stats::sample_of(before.nics, now)), now);
    assert(after.samples[0] == all[at]);
    assert(all.last().at == now);
    if after.samples.len() == 1 {
        assert(all[at] == all.last());
    }
    assert(is_first_recent(all, now, at));
    lemma_shown_nic(after, now, nic_index);
    let base = all[at].nics[nic_index as int];
    let nic = after.nics[nic_index as int];
    assert(all[at].nics[nic_index as int].tx <= nic.total_tx);
    assert(after.carried(nic_index as int).tx == (nic.total_tx - base.tx) as u64);
    assert(after.carried(nic_index as int).rx == (nic.total_rx - base.rx) as u64);
    assert(after.averaged_over(now) == time_since(now, all[at].at));
}

/// Whether `rate` is `bytes` divided by `duration`, up to one part in 2^50 and cut to whole bytes:
/// exactly the whole part of the quotient over a number of whole seconds, and wherever the quotient
/// is not within one part in 2^50 of a whole number.
pub open spec fn is_rate_of(rate: u64, bytes: int, duration: nat) -> bool {
    let carried = bytes * clock::NANOS_PER_SEC;
    &&& rate * duration * 0x4_0000_0000_0000 <= carried * 0x4_0000_0000_0001
    &&& carried * 0x3_ffff_ffff_ffff <= (rate + 1) * duration * 0x4_0000_0000_0000
    &&& duration % clock::NANOS_PER_SEC as nat == 0 ==> rate == bytes / (duration as int
        / clock::NANOS_PER_SEC as int)
    &&& (carried % duration as int * 0x4_0000_0000_0000 >= carried && (duration - carried
        % duration as int) * 0x4_0000_0000_0000 > carried) ==> rate == carried / duration as int
}

/// The throughput that is computed is what was carried, divided by the time.
pub(crate) proof fn lemma_rate(bytes: u64, duration: nat)
    requires
        bytes < units::DENSE_LIMIT,
        clock::NANOS_PER_SEC <= duration <= 10 * clock::NANOS_PER_SEC,
    ensures
        is_rate_of(rate::rate(bytes, duration), bytes as int, duration),
{
    let carried = bytes * clock::NANOS_PER_SEC;
    rate::shown_rate_is_near(bytes, duration);
    if duration % clock::NANOS_PER_SEC as nat == 0 {
        let secs = duration / clock::NANOS_PER_SEC as nat;
        assert(duration == secs * clock::NANOS_PER_SEC as nat);
        rate::shown_rate_over_whole_seconds(bytes, secs);
    }
    if carried % duration as int * 0x4_0000_0000_0000 >= carried && (duration - carried
        % duration as int) * 0x4_0000_0000_0000 > carried {
        rate::shown_rate_is_the_whole_part(bytes, duration);
    }
}

/// As long as the totals are below 2^53, the throughput of an interface that a snapshot shows is
/// the bytes of the last ten seconds divided by their time, at least a second.
pub proof fn rates_are_recent_bytes_over_time(
    config: Config,
    options: RuntimeOptions,
    start: nat,
    calls: Seq<StatsCall>,
    now: nat,
    nic_index: usize,
)
    requires
        all_allowed(StatsView::initial(config, options, start), calls),
        in_time_order(
            history(
                StatsView::initial(config, options, start),
                calls.push(StatsCall::Snapshot { now }),
            ),
        ),
        nic_index < 2,
        ({
            let nic = after_calls(StatsView::initial(config, options, start), calls).nics[
                nic_index as int
            ];
            nic.total_tx < units::DENSE_LIMIT && nic.total_rx < units::DENSE_LIMIT
        }),
    ensures
        ({
            let initial = StatsView::initial(config, options, start);
            let all = history(initial, calls.push(StatsCall::Snapshot { now }));
            let shown = after_calls(initial, calls).sampled(now).shown(now).nics[nic_index as int];
            exists|at: int| #[trigger]
                is_first_recent(all, now, at) && is_rate_of(
                    shown.tx_per_sec,
                    shown.total_tx - all[at].nics[nic_index as int].tx,
                    time_since(now, all[at].at),
                ) && is_rate_of(
                    shown.rx_per_sec,
                    shown.total_rx - all[at].nics[nic_index as int].rx,
                    time_since(now, all[at].at),
                )
        }),
{
    let initial = StatsView::initial(config, options, start);
    let all = history(initial, calls.push(StatsCall::Snapshot { now }));
    let after = after_calls(initial, calls).sampled(now);
    let nic = after.nics[nic_index as int];
    let shown = after.shown(now).nics[nic_index as int];
    rates_cover_the_last_ten_seconds(config, options, start, calls, now, nic_index);
    let at = choose|at: int| #[trigger]
        is_first_recent(all, now, at) && {
            let base = all[at].nics[nic_index as int];
            &&& base.tx <= nic.total_tx
            &&& base.rx <= nic.total_rx
            &&& shown.tx_per_sec == rate::rate(
                (nic.total_tx - base.tx) as u64,
                time_since(now, all[at].at),
            )
            &&& shown.rx_per_sec == rate::rate(
                (nic.total_rx - base.rx) as u64,
                time_since(now, all[at].at),
            )
        };
    let base = all[at].nics[nic_index as int];
    lemma_rate((nic.total_tx - base.tx) as u64, time_since(now, all[at].at));
    lemma_rate((nic.total_rx - base.rx) as u64, time_since(now, all[at].at));
}

/// Counters that stood higher by `tx` and `rx` from the start.
pub open spec fn raised(totals: NicTotals, tx: nat, rx: nat) -> NicTotals {
    NicTotals { tx: (totals.tx + tx) as u64, rx: (totals.rx + rx) as u64 }
}

/// What counts as recent traffic does not depend on how much was carried before: it is the same
/// for an interface whose counters stand higher by the same amount now and at the oldest sample.
pub proof fn recent_traffic_is_independent_of_totals(
    stats: StatsView,
    raised_stats: StatsView,
    nic: int,
    tx: nat,
    rx: nat,
)
    requires
        stats::is_kept(stats),
        stats::is_kept(raised_stats),
        0 <= nic < 2,
        stats.nics[nic].total_tx + tx <= u64::MAX,
        stats.nics[nic].total_rx + rx <= u64::MAX,
        stats.samples[0].nics[nic].tx + tx <= u64::MAX,
        stats.samples[0].nics[nic].rx + rx <= u64::MAX,
        raised_stats.nics[nic].totals() == raised(stats.nics[nic].totals(), tx, rx),
        raised_stats.samples[0].nics[nic] == raised(stats.samples[0].nics[nic], tx, rx),
    ensures
        raised_stats.carried(nic) == stats.carried(nic),
{
}

/// Every active connection is counted as a user of exactly one interface.
pub proof fn users_add_up(stats: StatsView)
    requires
        is_sound(stats),
    ensures
        stats::users(stats.active, 0) + stats::users(stats.active, 1) == stats.active.dom().len(),
{
    let active = stats.active;
    let first = active.dom().filter(|id: u64| active[id].nic_index == 0);
    let second = active.dom().filter(|id: u64| active[id].nic_index == 1);
    assert forall|id: u64| active.dom().contains(id) implies first.contains(id) != second.contains(
        id,
    ) by {
        assert(active.contains_key(id));
    }
    assert(first + second =~= active.dom());
    assert(first.disjoint(second));
    vstd::set_lib::lemma_set_disjoint_lens(first, second);
}

/// The bytes that the active connections sent, or with `received` those that they received.
pub open spec fn active_bytes(active: Map<u64, ConnectionView>, received: bool) -> nat
    decreases active.dom().len(),
    when active.dom().finite()
{
    if active.dom().len() == 0 {
        0
    } else {
        let id = active.dom().choose();
        active_bytes(active.remove(id), received) + bytes_of(active[id], received)
    }
}

/// The bytes that a connection sent, or with `received` those that it received.
pub open spec fn bytes_of(connection: ConnectionView, received: bool) -> nat {
    if received {
        connection.rx as nat
    } else {
        connection.tx as nat
    }
}

/// The bytes that went out over both interfaces, or with `received` those that came in.
pub open spec fn nic_bytes(nics: Seq<NicStats>, received: bool) -> nat {
    if received {
        nics[0].total_rx as nat + nics[1].total_rx as nat
    } else {
        nics[0].total_tx as nat + nics[1].total_tx as nat
    }
}

/// Any connection can be taken out of the sum first.
proof fn lemma_active_bytes_remove(active: Map<u64, ConnectionView>, id: u64, received: bool)
    requires
        active.dom().finite(),
        active.contains_key(id),
    ensures
        active_bytes(active, received) == active_bytes(active.remove(id), received) + bytes_of(
            active[id],
            received,
        ),
    decreases active.dom().len(),
{
    let chosen = active.dom().choose();
    assert(active.dom().contains(id));
    assert(active.dom().len() > 0);
    if chosen != id {
        lemma_active_bytes_remove(active.remove(chosen), id, received);
        lemma_active_bytes_remove(active.remove(id), chosen, received);
        assert(active.remove(chosen).remove(id) =~= active.remove(id).remove(chosen));
    }
}

/// The sum after a connection was put in: without what the connection had before.
proof fn lemma_active_bytes_insert(
    active: Map<u64, ConnectionView>,
    id: u64,
    connection: ConnectionView,
    received: bool,
)
    requires
        active.dom().finite(),
    ensures
        active_bytes(active.insert(id, connection), received) == active_bytes(
            active.remove(id),
            received,
        ) + bytes_of(connection, received),
{
    lemma_active_bytes_remove(active.insert(id, connection), id, received);
    assert(active.insert(id, connection).remove(id) =~= active.remove(id));
}

/// The sum without a connection is not larger.
proof fn lemma_active_bytes_less(active: Map<u64, ConnectionView>, id: u64, received: bool)
    requires
        active.dom().finite(),
    ensures
        active_bytes(active.remove(id), received) <= active_bytes(active, received),
{
    if active.contains_key(id) {
        lemma_active_bytes_remove(active, id, received);
    } else {
        assert(active.remove(id) =~= active);
    }
}

/// Whether the totals account for all bytes of the active connections.
pub open spec fn is_accounted(stats: StatsView) -> bool {
    &&& active_bytes(stats.active, false) <= nic_bytes(stats.nics, false)
    &&& active_bytes(stats.active, true) <= nic_bytes(stats.nics, true)
}

/// At the start there is nothing to account for.
pub proof fn totals_start_accounted(config: Config, options: RuntimeOptions, now: nat)
    ensures
        is_accounted(StatsView::initial(config, options, now)),
{
}

/// The totals of the interfaces account for all bytes of the active connections after every call.
pub proof fn totals_account_for_connections(stats: StatsView, call: StatsCall)
    requires
        stats::is_kept(stats),
        is_accounted(stats),
        call.is_allowed(stats),
    ensures
        is_accounted(call.after(stats)),
{
    let active = stats.active;
    let after = call.after(stats);
    assert forall|received: bool| #[trigger] active_bytes(after.active, received) + nic_bytes(
        stats.nics,
        received,
    ) <= active_bytes(active, received) + nic_bytes(after.nics, received) by {
        match call {
            StatsCall::Inbound { id, .. } => {
                lemma_active_bytes_less(active, id, received);
                lemma_active_bytes_insert(active, id, after.active[id], received);
            },
            StatsCall::Start { id, .. } => {
                lemma_active_bytes_less(active, id, received);
                if active.contains_key(id) {
                    lemma_active_bytes_remove(active, id, received);
                }
                lemma_active_bytes_insert(active, id, after.active[id], received);
            },
            StatsCall::SetState { id, .. } => {
                if active.contains_key(id) {
                    lemma_active_bytes_remove(active, id, received);
                    lemma_active_bytes_insert(active, id, after.active[id], received);
                }
            },
            StatsCall::Send { id, bytes, .. } => {
                if active.contains_key(id) && bytes > 0 {
                    lemma_active_bytes_remove(active, id, received);
                    lemma_active_bytes_insert(active, id, after.active[id], received);
                }
            },
            StatsCall::Receive { id, bytes, .. } => {
                if active.contains_key(id) && bytes > 0 {
                    lemma_active_bytes_remove(active, id, received);
                    lemma_active_bytes_insert(active, id, after.active[id], received);
                }
            },
            StatsCall::Finish { id, .. } => {
                lemma_active_bytes_less(active, id, received);
            },
            StatsCall::CloseTcp { id } => {
                lemma_active_bytes_less(active, id, received);
            },
            StatsCall::Fail { id, .. } => {
                lemma_active_bytes_less(active, id, received);
            },
            StatsCall::Event { .. } => {},
            StatsCall::Snapshot { .. } => {},
        }
    }
    assert(active_bytes(after.active, false) <= nic_bytes(after.nics, false));
    assert(active_bytes(after.active, true) <= nic_bytes(after.nics, true));
}

/// The totals of the interfaces account for all bytes of the active connections after any sequence
/// of calls since the start.
pub proof fn totals_account_for_connections_over_calls(
    config: Config,
    options: RuntimeOptions,
    start: nat,
    calls: Seq<StatsCall>,
)
    requires
        all_allowed(StatsView::initial(config, options, start), calls),
    ensures
        stats::is_kept(after_calls(StatsView::initial(config, options, start), calls)),
        is_accounted(after_calls(StatsView::initial(config, options, start), calls)),
    decreases calls.len(),
{
    let initial = StatsView::initial(config, options, start);
    if calls.len() == 0 {
        totals_start_accounted(config, options, start);
        statistics_start_in_order(config, options, start);
    } else {
        let before = after_calls(initial, calls.drop_last());
        totals_account_for_connections_over_calls(config, options, start, calls.drop_last());
        statistics_stay_in_order(before, calls.last());
        totals_account_for_connections(before, calls.last());
    }
}

/// The bytes that some connections are shown with: those sent, or with `received` those received.
pub open spec fn shown_bytes(shown: Seq<ConnectionSnapshotView>, received: bool) -> nat
    decreases shown.len(),
{
    if shown.len() == 0 {
        0
    } else {
        shown_bytes(shown.drop_last(), received) + if received {
            shown.last().rx as nat
        } else {
            shown.last().tx as nat
        }
    }
}

/// Some of the active connections have no more bytes than all of them.
proof fn lemma_shown_bytes(
    ids: Seq<u64>,
    active: Map<u64, ConnectionView>,
    now: nat,
    received: bool,
)
    requires
        active.dom().finite(),
        ids.no_duplicates(),
        forall|i: int| 0 <= i < ids.len() ==> active.contains_key(#[trigger] ids[i]),
    ensures
        shown_bytes(ids.map_values(|id: u64| active[id].shown(now)), received) <= active_bytes(
            active,
            received,
        ),
    decreases ids.len(),
{
    let shown = ids.map_values(|id: u64| active[id].shown(now));
    if ids.len() > 0 {
        let last = ids.last();
        let rest = ids.drop_last();
        let others = active.remove(last);
        assert forall|i: int| 0 <= i < rest.len() implies others.contains_key(
            #[trigger] rest[i],
        ) by {
            assert(ids[i] == rest[i]);
            assert(ids[ids.len() - 1] == last);
        }
        lemma_shown_bytes(rest, others, now, received);
        let fewer = rest.map_values(|id: u64| others[id].shown(now));
        assert forall|i: int| 0 <= i < rest.len() implies shown[i] == #[trigger] fewer[i] by {
            assert(others.contains_key(rest[i]));
        }
        assert(shown.drop_last() =~= fewer);
        assert(active.contains_key(ids[ids.len() - 1]));
        lemma_active_bytes_remove(active, last, received);
    }
}

/// Whatever was called since the start, the connections that a snapshot shows never have more
/// bytes than it shows for both interfaces together.
pub proof fn shown_connections_stay_within_totals(
    config: Config,
    options: RuntimeOptions,
    start: nat,
    calls: Seq<StatsCall>,
    now: nat,
)
    requires
        all_allowed(StatsView::initial(config, options, start), calls),
    ensures
        ({
            let shown = after_calls(
                StatsView::initial(config, options, start),
                calls,
            ).sampled(now).shown(now);
            &&& shown_bytes(shown.active, false) <= shown.nics[0].total_tx + shown.nics[1].total_tx
            &&& shown_bytes(shown.active, true) <= shown.nics[0].total_rx + shown.nics[1].total_rx
        }),
{
    let stats = after_calls(StatsView::initial(config, options, start), calls);
    let after = stats.sampled(now);
    totals_account_for_connections_over_calls(config, options, start, calls);
    let ids = stats::in_order(after.active.dom());
    stats::order_lists_all(after.active.dom());
    let count = if ids.len() > stats::SHOWN_CONNECTION_LIMIT {
        stats::SHOWN_CONNECTION_LIMIT as int
    } else {
        ids.len() as int
    };
    let few = ids.take(count);
    assert forall|i: int| 0 <= i < few.len() implies after.active.contains_key(
        #[trigger] few[i],
    ) by {
        assert(ids.to_set().contains(ids[i]));
    }
    assert(few.no_duplicates());
    lemma_shown_bytes(few, after.active, now, false);
    lemma_shown_bytes(few, after.active, now, true);
    assert(after.shown(now).active =~= few.map_values(
        |id: u64| after.active[id].shown(now),
    ));
}

/// What is sent upstream for a client's fields: never a field that concerns only the client's
/// connection with the proxy, everything else as it came, but for the encoding where the body is
/// demanded as it is.
pub proof fn only_end_to_end_fields_are_forwarded(
    contents: Map<Seq<char>, Seq<(Seq<u8>, bool)>>,
    force_identity: bool,
    name: Seq<char>,
)
    ensures
        ({
            let sent = http::upstream_contents(contents, force_identity);
            &&& sent.contains_key(name) && name != "accept-encoding"@ ==> !http::is_skipped(name)
            &&& !http::is_skipped(name) && !(force_identity && name == "accept-encoding"@) ==> {
                &&& sent.contains_key(name) == contents.contains_key(name)
                &&& contents.contains_key(name) ==> sent[name] == contents[name]
            }
            &&& force_identity ==> sent.contains_key("accept-encoding"@)
                && sent["accept-encoding"@] == seq![http::text_value("identity"@)]
        }),
{
}

/// Whether a field is sent upstream does not depend on the case in which its name is written.
pub proof fn skipping_ignores_case(name: Seq<char>)
    ensures
        http::is_skipped(text::lower(name)) == http::is_skipped(name),
{
    assert(text::lower(text::lower(name)) =~= text::lower(name));
}

/// A reply to a `GET` request holds only fields that may be passed back, with all their values, and
/// the length of the body, which reads as what it is. It never says that it is a part of a
/// resource.
pub proof fn replies_are_complete(
    source: Map<Seq<char>, Seq<(Seq<u8>, bool)>>,
    content_length: u64,
    name: Seq<char>,
)
    ensures
        ({
            let reply = http::response_contents(source, content_length);
            &&& reply.contains_key(name) ==> http::is_relayed(name) || name == "content-length"@
            &&& http::is_relayed(name) ==> {
                &&& reply.contains_key(name) == source.contains_key(name)
                &&& source.contains_key(name) ==> reply[name] == source[name]
            }
            &&& !reply.contains_key("content-range"@)
            &&& !reply.contains_key("transfer-encoding"@)
            &&& !reply.contains_key("connection"@)
            &&& http::announced_length(reply) == Some(content_length)
        }),
{
    let reply = http::response_contents(source, content_length);
    let digits = text::decimal(content_length as nat);
    reveal_strlit("content-range");
    reveal_strlit("transfer-encoding");
    reveal_strlit("connection");
    reveal_strlit("content-length");
    reveal_strlit("content-type");
    reveal_strlit("content-encoding");
    reveal_strlit("etag");
    reveal_strlit("last-modified");
    reveal_strlit("cache-control");
    reveal_strlit("expires");
    reveal_strlit("accept-ranges");
    reveal_strlit("set-cookie");
    reveal_strlit("location");
    reveal_strlit("via");
    assert("content-type"@.len() == 12);
    assert("content-encoding"@.len() == 16);
    assert("content-length"@.len() == 14);
    assert("content-range"@.len() == 13);
    assert("transfer-encoding"@.len() == 17);
    assert("content-range"@[0] == 'c');
    assert("content-range"@[1] == 'o');
    assert("last-modified"@[0] == 'l');
    assert("cache-control"@[1] == 'a');
    assert("accept-ranges"@[0] == 'a');
    assert("connection"@[0] == 'c');
    assert("set-cookie"@[0] == 's');
    http::lemma_digits_are_field(content_length as nat);
    text::written_number_reads_back(content_length);
    if http::is_relayed(name) {
        assert(name != "content-length"@);
    }
    assert(!http::is_relayed("content-range"@));
    assert(!http::is_relayed("transfer-encoding"@));
    assert(!http::is_relayed("connection"@));
    assert(reply["content-length"@] == seq![http::text_value(digits)]);
    assert(http::field_text(reply, "content-length"@) == Some(digits));
}

/// A reply to any other method comes back as it is: every field that does not concern only the
/// server's connection, with all its values. Its length is that of its body, or with `head`, where
/// the body is left out, what the server said.
pub proof fn other_replies_come_back_as_they_are(
    source: Map<Seq<char>, Seq<(Seq<u8>, bool)>>,
    head: bool,
    content_length: u64,
    name: Seq<char>,
)
    ensures
        ({
            let reply = http::reply_contents(source, head, content_length);
            &&& reply.contains_key(name) && name != "content-length"@ ==> !http::is_hop_by_hop(name)
            &&& !http::is_hop_by_hop(name) && (head || text::lower(name) != "content-length"@) ==> {
                &&& reply.contains_key(name) == source.contains_key(name)
                &&& source.contains_key(name) ==> reply[name] == source[name]
            }
            &&& !head ==> http::announced_length(reply) == Some(content_length)
        }),
{
    let reply = http::reply_contents(source, head, content_length);
    if !head {
        let digits = text::decimal(content_length as nat);
        http::lemma_digits_are_field(content_length as nat);
        text::written_number_reads_back(content_length);
        reveal_strlit("content-length");
        assert(text::lower("content-length"@) =~= "content-length"@);
        assert(reply["content-length"@] == seq![http::text_value(digits)]);
        assert(http::field_text(reply, "content-length"@) == Some(digits));
    }
}

/// Two texts of digits, each with the same other character behind it, can be told apart from what
/// follows.
pub(crate) proof fn lemma_digits_end(
    left: Seq<char>,
    left_rest: Seq<char>,
    right: Seq<char>,
    right_rest: Seq<char>,
    mark: Seq<char>,
)
    requires
        text::all_digits(left),
        text::all_digits(right),
        mark.len() == 1,
        !text::is_digit(mark[0]),
        left + mark + left_rest == right + mark + right_rest,
    ensures
        left == right,
        left_rest == right_rest,
{
    let one = left + mark + left_rest;
    let other = right + mark + right_rest;
    assert(one[left.len() as int] == mark[0]);
    assert(other[right.len() as int] == mark[0]);
    if left.len() < right.len() {
        assert(other[left.len() as int] == right[left.len() as int]);
        assert(text::is_digit(right[left.len() as int]));
    }
    if right.len() < left.len() {
        assert(one[right.len() as int] == left[right.len() as int]);
        assert(text::is_digit(left[right.len() as int]));
    }
    assert(left =~= one.take(left.len() as int));
    assert(right =~= other.take(right.len() as int));
    assert(left_rest =~= one.skip((left.len() + 1) as int));
    assert(right_rest =~= other.skip((right.len() + 1) as int));
}

/// A reply that is accepted as one part of a resource is accepted as no other part, and as no
/// part of a resource of another size.
pub proof fn range_replies_are_not_mixed_up(
    contents: Map<Seq<char>, Seq<(Seq<u8>, bool)>>,
    chunk: Chunk,
    total_size: u64,
    other: Chunk,
    other_size: u64,
)
    requires
        http::content_range_fault(contents, chunk, total_size) is None,
        http::content_range_fault(contents, other, other_size) is None,
    ensures
        chunk == other,
        total_size == other_size,
{
    let start = text::decimal(chunk.start as nat);
    let end = text::decimal(chunk.end as nat);
    let size = text::decimal(total_size as nat);
    let others_start = text::decimal(other.start as nat);
    let others_end = text::decimal(other.end as nat);
    let others_size = text::decimal(other_size as nat);
    text::lemma_decimal_number(chunk.start as nat);
    text::lemma_decimal_number(chunk.end as nat);
    text::lemma_decimal_number(total_size as nat);
    text::lemma_decimal_number(other.start as nat);
    text::lemma_decimal_number(other.end as nat);
    text::lemma_decimal_number(other_size as nat);
    reveal_strlit("-");
    reveal_strlit("/");
    let value = http::content_range(chunk, total_size);
    assert(value == http::content_range(other, other_size));
    let behind = value.skip("bytes "@.len() as int);
    assert(behind =~= start + "-"@ + (end + "/"@ + size));
    assert(behind =~= others_start + "-"@ + (others_end + "/"@ + others_size));
    lemma_digits_end(
        start,
        end + "/"@ + size,
        others_start,
        others_end + "/"@ + others_size,
        "-"@,
    );
    lemma_digits_end(end, size, others_end, others_size, "/"@);
    text::written_numbers_differ(chunk.start as nat, other.start as nat);
    text::written_numbers_differ(chunk.end as nat, other.end as nat);
    text::written_numbers_differ(total_size as nat, other_size as nat);
}

/// A client whose request was split gets the resource as if it had not been: a complete reply,
/// with all bytes in their order and their number as the length.
pub proof fn split_reply_is_the_resource(
    data: Seq<u8>,
    size: u64,
    first: ChunkResult,
    second: ChunkResult,
    response: ProxyResponse,
)
    requires
        size >= 2,
        data.len() == size,
        body::bytes_contents(first.bytes) == chunk::first_half(size).part(data),
        body::bytes_contents(second.bytes) == chunk::second_half(size).part(data),
        response::answers(
            response,
            OK,
            http::response_contents(fields::header_contents(first.headers), size),
            body::bytes_contents(first.bytes) + body::bytes_contents(second.bytes),
        ),
    ensures
        response.status == 200,
        body::bytes_contents(response.body) == data,
        http::announced_length(fields::header_contents(response.headers)) == Some(size),
        !fields::header_contents(response.headers).contains_key("content-range"@),
{
    chunk::halves_rejoin(data, size);
    replies_are_complete(fields::header_contents(first.headers), size, "content-range"@);
}

/// Two halves that passed the check on their bodies make up as many bytes as the reply announces.
pub proof fn checked_halves_fill_the_reply(
    size: u64,
    first: ChunkResult,
    second: ChunkResult,
    response: ProxyResponse,
)
    requires
        size >= 2,
        http::range_body_fault(chunk::first_half(size), Some(first.bytes)) is None,
        http::range_body_fault(chunk::second_half(size), Some(second.bytes)) is None,
        response::answers(
            response,
            OK,
            http::response_contents(fields::header_contents(first.headers), size),
            body::bytes_contents(first.bytes) + body::bytes_contents(second.bytes),
        ),
    ensures
        body::bytes_contents(response.body).len() == size,
        http::announced_length(fields::header_contents(response.headers)) == Some(size),
{
    chunk::halves_partition(size);
    replies_are_complete(fields::header_contents(first.headers), size, "content-range"@);
}

/// A reply that is passed back has the status and the body that the server sent, and announces the
/// length of the body.
pub proof fn passed_back_replies_are_complete(response: ProxyResponse, result: TransferResult)
    requires
        handler::passes_back(response, result),
        status::is_status(result.status),
        body::bytes_contents(result.bytes).len() <= u64::MAX,
    ensures
        response.status == result.status,
        body::bytes_contents(response.body) == body::bytes_contents(result.bytes),
        http::announced_length(fields::header_contents(response.headers)) == Some(
            body::bytes_contents(response.body).len() as u64,
        ),
{
    replies_are_complete(
        fields::header_contents(result.headers),
        body::bytes_contents(result.bytes).len() as u64,
        "content-length"@,
    );
}

/// Some pieces of a body, one behind the other.
pub open spec fn joined_pieces(pieces: Seq<Bytes>) -> Seq<u8>
    decreases pieces.len(),
{
    if pieces.len() == 0 {
        seq![]
    } else {
        joined_pieces(pieces.drop_last()) + body::bytes_contents(pieces.last())
    }
}

/// The statistics after some pieces of a body were received.
pub open spec fn after_pieces(
    stats: StatsView,
    id: u64,
    nic_index: usize,
    pieces: Seq<Bytes>,
) -> StatsView
    decreases pieces.len(),
{
    if pieces.len() == 0 {
        stats
    } else {
        after_pieces(stats, id, nic_index, pieces.drop_last()).received(
            id,
            nic_index,
            body::bytes_contents(pieces.last()).len() as u64,
        )
    }
}

/// However a body comes in pieces, exactly its bytes are counted as received, for the interface
/// and for the connection.
pub proof fn received_bodies_are_counted(
    stats: StatsView,
    id: u64,
    nic_index: usize,
    pieces: Seq<Bytes>,
)
    requires
        stats::is_kept(stats),
        nic_index < 2,
        stats.nics[nic_index as int].total_rx + joined_pieces(pieces).len() <= u64::MAX,
        stats.active.contains_key(id) ==> stats.active[id].rx + joined_pieces(pieces).len()
            <= u64::MAX,
    ensures
        ({
            let after = after_pieces(stats, id, nic_index, pieces);
            let nic = nic_index as int;
            &&& stats::is_kept(after)
            &&& after.nics[nic].total_rx == stats.nics[nic].total_rx + joined_pieces(pieces).len()
            &&& after.nics[1 - nic] == stats.nics[1 - nic]
            &&& after.active.dom() == stats.active.dom()
            &&& stats.active.contains_key(id) ==> after.active[id].rx == stats.active[id].rx
                + joined_pieces(pieces).len()
        }),
    decreases pieces.len(),
{
    if pieces.len() > 0 {
        received_bodies_are_counted(stats, id, nic_index, pieces.drop_last());
        bytes_are_counted_once(
            after_pieces(stats, id, nic_index, pieces.drop_last()),
            id,
            nic_index,
            body::bytes_contents(pieces.last()).len() as u64,
        );
    }
}

/// The statistics after some events in one direction of a tunnel.
pub open spec fn after_events(
    stats: StatsView,
    connection: ConnectionContext,
    direction: Direction,
    events: Seq<CopyEvent>,
) -> StatsView
    decreases events.len(),
{
    if events.len() == 0 {
        stats
    } else {
        direction.counted(
            after_events(stats, connection, direction, events.drop_last()),
            connection,
            tunnel::phase_after(CopyPhase::Reading, events.drop_last()).carried(events.last()),
        )
    }
}

/// The bytes that were counted for an interface in a direction.
pub open spec fn counted_for(nic: NicStats, direction: Direction) -> u64 {
    match direction {
        Direction::Upstream => nic.total_tx,
        Direction::Downstream => nic.total_rx,
    }
}

/// The bytes that were counted for a connection in a direction.
pub open spec fn counted_of(connection: ConnectionView, direction: Direction) -> u64 {
    match direction {
        Direction::Upstream => connection.tx,
        Direction::Downstream => connection.rx,
    }
}

/// What a tunnel carries is counted as it goes through, sent or received, over the assigned
/// interface, no matter how the tunnel ends.
pub proof fn tunnelled_bytes_are_counted(
    stats: StatsView,
    connection: ConnectionContext,
    direction: Direction,
    events: Seq<CopyEvent>,
)
    requires
        stats::is_kept(stats),
        connection.nic_index < 2,
        counted_for(stats.nics[connection.nic_index as int], direction) + tunnel::total_carried(
            CopyPhase::Reading,
            events,
        ) <= u64::MAX,
        stats.active.contains_key(connection.id) ==> counted_of(
            stats.active[connection.id],
            direction,
        ) + tunnel::total_carried(CopyPhase::Reading, events) <= u64::MAX,
    ensures
        ({
            let after = after_events(stats, connection, direction, events);
            let nic = connection.nic_index as int;
            &&& stats::is_kept(after)
            &&& counted_for(after.nics[nic], direction) == counted_for(stats.nics[nic], direction)
                + tunnel::total_carried(CopyPhase::Reading, events)
            &&& after.nics[1 - nic] == stats.nics[1 - nic]
            &&& after.active.dom() == stats.active.dom()
            &&& stats.active.contains_key(connection.id) ==> counted_of(
                after.active[connection.id],
                direction,
            ) == counted_of(stats.active[connection.id], direction) + tunnel::total_carried(
                CopyPhase::Reading,
                events,
            )
        }),
    decreases events.len(),
{
    if events.len() > 0 {
        tunnelled_bytes_are_counted(stats, connection, direction, events.drop_last());
        bytes_are_counted_once(
            after_events(stats, connection, direction, events.drop_last()),
            connection.id,
            connection.nic_index,
            tunnel::phase_after(CopyPhase::Reading, events.drop_last()).carried(events.last()),
        );
    }
}

/// The screen never has more than thirty-three lines, however much goes on.
#[verifier::rlimit(40)]
pub proof fn screens_stay_small(view: SnapshotView)
    ensures
        output::screen_lines(view).len() <= 33,
{
}

/// A text that is cut to a width fits into it, and one that fits is left as it is.
pub proof fn cut_texts_fit(value: Seq<char>, width: nat)
    requires
        width > 0,
    ensures
        output::truncated(value, width).len() <= width,
        value.len() <= width ==> output::truncated(value, width) == value,
        value.len() > width ==> output::truncated(value, width).last() == '~'
            && output::truncated(value, width).drop_last() == value.take(width - 1),
{
    if value.len() > width {
        assert(output::truncated(value, width).drop_last() =~= value.take(width - 1));
    }
}

} // verus!

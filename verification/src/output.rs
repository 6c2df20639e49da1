//! The screen that shows what the proxy does.

use vstd::prelude::*;

use crate::clock;
use crate::clock::{format_compact_duration, format_full_duration};
use crate::stats::{ConnectionSnapshot, ConnectionSnapshotView, NicSnapshot, SnapshotView, StatsSnapshot};
use crate::text;
use crate::text::{align_left, align_right, decimal_text, join_lines};
use crate::units;
use crate::units::human_bytes;

verus! {

/// How many active connections the screen has room for.
pub const ACTIVE_CONNECTION_LIMIT: usize = 10;

/// How many events the screen has room for.
pub const RECENT_EVENT_LIMIT: usize = 5;

/// A text cut to `width` characters, with a tilde for what was cut off.
pub open spec fn truncated(value: Seq<char>, width: nat) -> Seq<char> {
    if value.len() <= width {
        value
    } else {
        value.take(
            if width > 0 {
                width - 1
            } else {
                0
            },
        ).push('~')
    }
}

/// Cuts a text to `width` characters. A text that is cut ends in a tilde.
pub fn truncate(value: &str, width: usize) -> (text: String)
    ensures
        text@ == truncated(value@, width as nat),
{
    if value.unicode_len() <= width {
        return value.to_owned();
    }
    let kept: usize = if width > 0 {
        width - 1
    } else {
        0
    };
    let mut text = value.substring_char(0, kept).to_owned();
    text.push('~');
    text
}

/// The line with the listener, the mode and the running time.
pub open spec fn status_row(view: SnapshotView) -> Seq<char> {
    "Listen: "@ + view.listen.printed_form() + "    Range split: "@ + if view.range_split_enabled {
        "ON "@
    } else {
        "OFF"@
    } + "   Elapsed: "@ + clock::full(view.elapsed)
}

/// A row of the throughput table.
pub open spec fn throughput_columns(
    ip: Seq<char>,
    tx: Seq<char>,
    rx: Seq<char>,
    active: Seq<char>,
    opened: Seq<char>,
    failed: Seq<char>,
) -> Seq<char> {
    text::left_aligned(ip, 15) + " "@ + text::right_aligned(tx, 12) + " "@ + text::right_aligned(
        rx,
        12,
    ) + " "@ + text::right_aligned(active, 7) + " "@ + text::right_aligned(opened, 7) + " "@
        + text::right_aligned(failed, 7)
}

/// The row of the throughput table for one interface.
pub open spec fn throughput_row(nic: NicSnapshot) -> Seq<char> {
    "["@ + text::decimal(nic.index as nat) + "]  "@ + throughput_columns(
        nic.ip.dotted(),
        units::human(nic.tx_per_sec) + "/s"@,
        units::human(nic.rx_per_sec) + "/s"@,
        text::decimal(nic.active_connections as nat),
        text::decimal(nic.opened_connections as nat),
        text::decimal(nic.failed_connections as nat),
    )
}

/// The headings of the throughput table.
pub open spec fn throughput_heading() -> Seq<char> {
    text::left_aligned("NIC"@, 4) + " "@ + throughput_columns(
        "IP"@,
        "TX/s"@,
        "RX/s"@,
        "Active"@,
        "Opened"@,
        "Failed"@,
    )
}

/// A row of the table of totals.
pub open spec fn total_columns(ip: Seq<char>, tx: Seq<char>, rx: Seq<char>) -> Seq<char> {
    text::left_aligned(ip, 15) + " "@ + text::right_aligned(tx, 12) + " "@ + text::right_aligned(
        rx,
        12,
    )
}

/// The row of the table of totals for one interface.
pub open spec fn total_row(nic: NicSnapshot) -> Seq<char> {
    "["@ + text::decimal(nic.index as nat) + "]  "@ + total_columns(
        nic.ip.dotted(),
        units::human(nic.total_tx),
        units::human(nic.total_rx),
    )
}

/// The headings of the table of totals.
pub open spec fn total_heading() -> Seq<char> {
    text::left_aligned("NIC"@, 4) + " "@ + total_columns("IP"@, "TX total"@, "RX total"@)
}

/// The part of a connection row behind the interface.
pub open spec fn connection_columns(
    kind: Seq<char>,
    target: Seq<char>,
    age: Seq<char>,
    tx: Seq<char>,
    rx: Seq<char>,
    state: Seq<char>,
) -> Seq<char> {
    text::left_aligned(kind, 9) + " "@ + text::left_aligned(target, 38) + " "@
        + text::right_aligned(age, 7) + " "@ + text::right_aligned(tx, 10) + " "@
        + text::right_aligned(rx, 10) + " "@ + text::left_aligned(state, 10)
}

/// The row for one active connection.
pub open spec fn connection_row(connection: ConnectionSnapshotView) -> Seq<char> {
    text::left_aligned(text::decimal(connection.id as nat), 5) + " ["@ + text::left_aligned(
        text::decimal(connection.nic_index as nat),
        1,
    ) + "]  "@ + connection_columns(
        truncated(connection.kind, 9),
        truncated(connection.target, 38),
        clock::compact(connection.age),
        units::human(connection.tx),
        units::human(connection.rx),
        truncated(connection.state, 10),
    )
}

/// The headings of the table of active connections.
pub open spec fn connection_heading() -> Seq<char> {
    text::left_aligned("ID"@, 5) + " "@ + text::left_aligned("NIC"@, 4) + " "@
        + connection_columns("Kind"@, "Target"@, "Age"@, "TX"@, "RX"@, "State"@)
}

/// The rows for the active connections: the first few, and how many more there are.
pub open spec fn connection_rows(active: Seq<ConnectionSnapshotView>) -> Seq<Seq<char>> {
    if active.len() == 0 {
        seq!["(none)"@]
    } else if active.len() <= ACTIVE_CONNECTION_LIMIT {
        active.map_values(|connection: ConnectionSnapshotView| connection_row(connection))
    } else {
        active.take(ACTIVE_CONNECTION_LIMIT as int).map_values(
            |connection: ConnectionSnapshotView| connection_row(connection),
        ).push(
            "... "@ + text::decimal((active.len() - ACTIVE_CONNECTION_LIMIT) as nat)
                + " more active connection(s)"@,
        )
    }
}

/// The rows for the events: the latest few.
pub open spec fn event_rows(events: Seq<Seq<char>>) -> Seq<Seq<char>> {
    if events.len() == 0 {
        seq!["(none)"@]
    } else if events.len() <= RECENT_EVENT_LIMIT {
        events
    } else {
        events.skip(events.len() - RECENT_EVENT_LIMIT)
    }
}

/// The lines above the tables.
pub open spec fn top_lines(view: SnapshotView) -> Seq<Seq<char>> {
    seq!["mNIC-CLI live status"@, status_row(view), seq![]]
}

/// The lines of the throughput table.
pub open spec fn throughput_lines(view: SnapshotView) -> Seq<Seq<char>> {
    seq![
        "NIC throughput, last 10s average"@,
        throughput_heading(),
        throughput_row(view.nics[0]),
        throughput_row(view.nics[1]),
        seq![],
    ]
}

/// The lines of the table of totals.
pub open spec fn total_lines(view: SnapshotView) -> Seq<Seq<char>> {
    seq![
        "NIC totals since start"@,
        total_heading(),
        total_row(view.nics[0]),
        total_row(view.nics[1]),
        seq![],
    ]
}

/// The lines of the screen.
pub open spec fn screen_lines(view: SnapshotView) -> Seq<Seq<char>> {
    top_lines(view) + throughput_lines(view) + total_lines(view) + seq![
        "Active connections"@,
        connection_heading(),
    ] + connection_rows(view.active) + seq![seq![], "Recent events"@] + event_rows(view.events)
}

/// Writes the line with the listener, the mode and the running time.
fn status_line(snapshot: &StatsSnapshot) -> (line: String)
    ensures
        line@ == status_row(snapshot@),
{
    let mut line = "Listen: ".to_owned();
    line.append(snapshot.listen.to_text().as_str());
    line.append("    Range split: ");
    line.append(
        if snapshot.range_split_enabled {
            "ON "
        } else {
            "OFF"
        },
    );
    line.append("   Elapsed: ");
    line.append(format_full_duration(snapshot.elapsed).as_str());
    line
}

/// Writes a row of the throughput table.
fn throughput_text(ip: &str, tx: &str, rx: &str, active: &str, opened: &str, failed: &str) -> (line:
    String)
    ensures
        line@ == throughput_columns(ip@, tx@, rx@, active@, opened@, failed@),
{
    let mut line = align_left(ip, 15);
    line.append(" ");
    line.append(align_right(tx, 12).as_str());
    line.append(" ");
    line.append(align_right(rx, 12).as_str());
    line.append(" ");
    line.append(align_right(active, 7).as_str());
    line.append(" ");
    line.append(align_right(opened, 7).as_str());
    line.append(" ");
    line.append(align_right(failed, 7).as_str());
    line
}

/// Writes a number of bytes per second.
fn rate_text(bytes: u64) -> (text: String)
    ensures
        text@ == units::human(bytes) + "/s"@,
{
    let mut text = human_bytes(bytes);
    text.append("/s");
    text
}

/// Writes the row of the throughput table for one interface.
fn throughput_line(nic: &NicSnapshot) -> (line: String)
    ensures
        line@ == throughput_row(*nic),
{
    let mut line = "[".to_owned();
    line.append(decimal_text(nic.index as u64).as_str());
    line.append("]  ");
    line.append(
        throughput_text(
            nic.ip.to_text().as_str(),
            rate_text(nic.tx_per_sec).as_str(),
            rate_text(nic.rx_per_sec).as_str(),
            decimal_text(nic.active_connections as u64).as_str(),
            decimal_text(nic.opened_connections).as_str(),
            decimal_text(nic.failed_connections).as_str(),
        ).as_str(),
    );
    line
}

/// Writes a row of the table of totals.
fn total_text(ip: &str, tx: &str, rx: &str) -> (line: String)
    ensures
        line@ == total_columns(ip@, tx@, rx@),
{
    let mut line = align_left(ip, 15);
    line.append(" ");
    line.append(align_right(tx, 12).as_str());
    line.append(" ");
    line.append(align_right(rx, 12).as_str());
    line
}

/// Writes the row of the table of totals for one interface.
fn total_line(nic: &NicSnapshot) -> (line: String)
    ensures
        line@ == total_row(*nic),
{
    let mut line = "[".to_owned();
    line.append(decimal_text(nic.index as u64).as_str());
    line.append("]  ");
    line.append(
        total_text(
            nic.ip.to_text().as_str(),
            human_bytes(nic.total_tx).as_str(),
            human_bytes(nic.total_rx).as_str(),
        ).as_str(),
    );
    line
}

/// Writes the part of a connection row behind the interface.
fn connection_text(kind: &str, target: &str, age: &str, tx: &str, rx: &str, state: &str) -> (line:
    String)
    ensures
        line@ == connection_columns(kind@, target@, age@, tx@, rx@, state@),
{
    let mut line = align_left(kind, 9);
    line.append(" ");
    line.append(align_left(target, 38).as_str());
    line.append(" ");
    line.append(align_right(age, 7).as_str());
    line.append(" ");
    line.append(align_right(tx, 10).as_str());
    line.append(" ");
    line.append(align_right(rx, 10).as_str());
    line.append(" ");
    line.append(align_left(state, 10).as_str());
    line
}

/// Writes the row for one active connection.
fn connection_line(connection: &ConnectionSnapshot) -> (line: String)
    ensures
        line@ == connection_row(connection@),
{
    let mut line = align_left(decimal_text(connection.id).as_str(), 5);
    line.append(" [");
    line.append(align_left(decimal_text(connection.nic_index as u64).as_str(), 1).as_str());
    line.append("]  ");
    line.append(
        connection_text(
            truncate(connection.kind.as_str(), 9).as_str(),
            truncate(connection.target.as_str(), 38).as_str(),
            format_compact_duration(connection.age).as_str(),
            human_bytes(connection.tx).as_str(),
            human_bytes(connection.rx).as_str(),
            truncate(connection.state.as_str(), 10).as_str(),
        ).as_str(),
    );
    line
}

/// Writes the rows for the active connections.
fn connection_lines(snapshot: &StatsSnapshot) -> (lines: Vec<String>)
    ensures
        text::texts(lines@) == connection_rows(snapshot@.active),
{
    let mut lines: Vec<String> = Vec::new();
    let count: usize = snapshot.active_connections.len();
    if count == 0 {
        lines.push("(none)".to_owned());
        assert(text::texts(lines@) =~= connection_rows(snapshot@.active));
        return lines;
    }
    let mut done: usize = 0;
    while done < count && done < ACTIVE_CONNECTION_LIMIT
        invariant
            count == snapshot.active_connections@.len(),
            done <= count,
            done <= ACTIVE_CONNECTION_LIMIT,
            lines@.len() == done,
            forall|i: int|
                0 <= i < done ==> (#[trigger] lines@[i])@ == connection_row(
                    snapshot.active_connections@[i]@,
                ),
        decreases count - done,
    {
        lines.push(connection_line(&snapshot.active_connections[done]));
        done = done + 1;
    }
    if count > ACTIVE_CONNECTION_LIMIT {
        let mut more = "... ".to_owned();
        more.append(decimal_text((count - ACTIVE_CONNECTION_LIMIT) as u64).as_str());
        more.append(" more active connection(s)");
        lines.push(more);
    }
    assert(text::texts(lines@) =~= connection_rows(snapshot@.active));
    lines
}

/// Writes the rows for the events.
fn event_lines(snapshot: &StatsSnapshot) -> (lines: Vec<String>)
    ensures
        text::texts(lines@) == event_rows(snapshot@.events),
{
    let mut lines: Vec<String> = Vec::new();
    let count: usize = snapshot.recent_events.len();
    if count == 0 {
        lines.push("(none)".to_owned());
        assert(text::texts(lines@) =~= event_rows(snapshot@.events));
        return lines;
    }
    let start: usize = if count > RECENT_EVENT_LIMIT {
        count - RECENT_EVENT_LIMIT
    } else {
        0
    };
    let mut at: usize = start;
    while at < count
        invariant
            count == snapshot.recent_events@.len(),
            start <= at <= count,
            lines@.len() == at - start,
            forall|i: int|
                0 <= i < at - start ==> (#[trigger] lines@[i])@ == snapshot.recent_events@[start
                    + i]@,
        decreases count - at,
    {
        lines.push(snapshot.recent_events[at].clone());
        at = at + 1;
    }
    assert(text::texts(lines@) =~= event_rows(snapshot@.events));
    lines
}

/// Writes the headings of a table whose first column names the interface.
fn nic_heading(columns: &str) -> (line: String)
    ensures
        line@ == text::left_aligned("NIC"@, 4) + " "@ + columns@,
{
    let mut line = align_left("NIC", 4);
    line.append(" ");
    line.append(columns);
    line
}

/// Writes the headings of the table of active connections.
fn connection_heading_line() -> (line: String)
    ensures
        line@ == connection_heading(),
{
    let mut line = align_left("ID", 5);
    line.append(" ");
    line.append(align_left("NIC", 4).as_str());
    line.append(" ");
    line.append(connection_text("Kind", "Target", "Age", "TX", "RX", "State").as_str());
    line
}

/// Writes the lines above the tables.
fn top_text(snapshot: &StatsSnapshot) -> (lines: Vec<String>)
    ensures
        text::texts(lines@) == top_lines(snapshot@),
{
    let title = "mNIC-CLI live status".to_owned();
    let lines = vec![title, status_line(snapshot), String::new()];
    assert(text::texts(lines@) =~= top_lines(snapshot@));
    lines
}

/// Writes the lines of the throughput table.
fn throughput_table(snapshot: &StatsSnapshot) -> (lines: Vec<String>)
    ensures
        text::texts(lines@) == throughput_lines(snapshot@),
{
    let columns = throughput_text("IP", "TX/s", "RX/s", "Active", "Opened", "Failed");
    let heading = nic_heading(columns.as_str());
    let first = throughput_line(&snapshot.nics[0]);
    let second = throughput_line(&snapshot.nics[1]);
    let title = "NIC throughput, last 10s average".to_owned();
    let lines = vec![title, heading, first, second, String::new()];
    assert(text::texts(lines@) =~= throughput_lines(snapshot@));
    lines
}

/// Writes the lines of the table of totals.
fn total_table(snapshot: &StatsSnapshot) -> (lines: Vec<String>)
    ensures
        text::texts(lines@) == total_lines(snapshot@),
{
    let heading = nic_heading(total_text("IP", "TX total", "RX total").as_str());
    let first = total_line(&snapshot.nics[0]);
    let second = total_line(&snapshot.nics[1]);
    let title = "NIC totals since start".to_owned();
    let lines = vec![title, heading, first, second, String::new()];
    assert(text::texts(lines@) =~= total_lines(snapshot@));
    lines
}

/// Adds lines below others.
fn add_lines(lines: &mut Vec<String>, more: Vec<String>)
    ensures
        text::texts(final(lines)@) == text::texts(old(lines)@) + text::texts(more@),
{
    let ghost added = more@;
    let mut more = more;
    lines.append(&mut more);
    assert(text::texts(lines@) =~= text::texts(old(lines)@) + text::texts(added));
}

/// Adds two lines below others.
fn add_two_lines(lines: &mut Vec<String>, first: String, second: String)
    ensures
        text::texts(final(lines)@) == text::texts(old(lines)@) + seq![first@, second@],
{
    lines.push(first);
    lines.push(second);
    assert(text::texts(lines@) =~= text::texts(old(lines)@) + seq![first@, second@]);
}

/// Writes the whole screen.
pub fn render_snapshot(snapshot: &StatsSnapshot) -> (screen: String)
    ensures
        screen@ == text::joined(screen_lines(snapshot@)),
{
    let mut lines = top_text(snapshot);
    add_lines(&mut lines, throughput_table(snapshot));
    add_lines(&mut lines, total_table(snapshot));
    add_two_lines(&mut lines, "Active connections".to_owned(), connection_heading_line());
    add_lines(&mut lines, connection_lines(snapshot));
    let blank = String::new();
    assert(blank@ =~= seq![]);
    add_two_lines(&mut lines, blank, "Recent events".to_owned());
    add_lines(&mut lines, event_lines(snapshot));
    join_lines(&lines)
}

} // verus!

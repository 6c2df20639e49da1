//! What holds of the screen: what stands where.

use vstd::prelude::*;

use crate::clock;
use crate::clock::{format_compact_duration, format_full_duration};
use crate::laws;
use crate::net::{Ipv4Addr, SocketAddr};
use crate::output;
use crate::output::{render_snapshot, truncate};
use crate::reading;
use crate::stats::{ConnectionSnapshotView, NicSnapshot, SnapshotView, StatsSnapshot};
use crate::text;
use crate::units;
use crate::units::human_bytes;

verus! {

/// Whether `text` stands at the right of the column of `row` that is `width` wide and ends at
/// `end`, behind spaces only.
pub open spec fn right_cell(row: Seq<char>, end: int, width: int, text: Seq<char>) -> bool {
    &&& text.len() <= width <= end <= row.len()
    &&& row.subrange(end - text.len(), end) == text
    &&& forall|i: int| end - width <= i < end - text.len() ==> row[i] == ' '
}

/// Whether `text` stands at the left of the column of `row` that is `width` wide and begins at
/// `start`, with spaces only behind it.
pub open spec fn left_cell(row: Seq<char>, start: int, width: int, text: Seq<char>) -> bool {
    &&& 0 <= start
    &&& text.len() <= width
    &&& start + width <= row.len()
    &&& row.subrange(start, start + text.len()) == text
    &&& forall|i: int| start + text.len() <= i < start + width ==> row[i] == ' '
}

/// Whether a row begins with `front`.
spec fn begins(row: Seq<char>, front: Seq<char>) -> bool {
    front.len() <= row.len() && row.take(front.len() as int) == front
}

/// A row begins with what it is a continuation of.
proof fn lemma_begins(row: Seq<char>, front: Seq<char>, more: Seq<char>)
    requires
        begins(row, front + more),
    ensures
        begins(row, front),
{
    assert(row.take((front + more).len() as int).take(front.len() as int) =~= front);
    assert(row.take(front.len() as int) =~= row.take((front + more).len() as int).take(
        front.len() as int,
    ));
}

/// A text at the right of the next column of a row stands there.
proof fn lemma_right_cell(row: Seq<char>, front: Seq<char>, text: Seq<char>, width: nat)
    requires
        begins(row, front + text::right_aligned(text, width)),
        text.len() <= width,
    ensures
        begins(row, front),
        right_cell(row, (front.len() + width) as int, width as int, text),
{
    let part = front + text::right_aligned(text, width);
    let end = front.len() + width;
    lemma_begins(row, front, text::right_aligned(text, width));
    assert(part.len() == end);
    assert forall|i: int| 0 <= i < end implies row[i] == part[i] by {
        assert(row.take(end as int)[i] == part[i]);
    }
    assert(row.subrange(end - text.len(), end as int) =~= text);
}

/// A text at the left of the next column of a row stands there.
proof fn lemma_left_cell(row: Seq<char>, front: Seq<char>, text: Seq<char>, width: nat)
    requires
        begins(row, front + text::left_aligned(text, width)),
        text.len() <= width,
    ensures
        begins(row, front),
        left_cell(row, front.len() as int, width as int, text),
{
    let part = front + text::left_aligned(text, width);
    let end = front.len() + width;
    lemma_begins(row, front, text::left_aligned(text, width));
    assert(part.len() == end);
    assert forall|i: int| 0 <= i < end implies row[i] == part[i] by {
        assert(row.take(end as int)[i] == part[i]);
    }
    assert(row.subrange(front.len() as int, (front.len() + text.len()) as int) =~= text);
}

/// The lines of the screen that shows a snapshot.
#[verifier::opaque]
pub open spec fn lines_of(view: SnapshotView) -> Seq<Seq<char>> {
    output::screen_lines(view)
}

/// Whether a screen consists of the lines that show a snapshot, one below the other.
pub open spec fn shows(screen: Seq<char>, view: SnapshotView) -> bool {
    screen == text::joined(lines_of(view))
}

/// A screen that is written shows its snapshot.
proof fn lemma_shows(snapshot: &StatsSnapshot, screen: String)
    requires
        call_ensures(render_snapshot, (snapshot,), screen),
    ensures
        shows(screen@, snapshot@),
{
    reveal(lines_of);
}

/// A line of several parts that stand below each other is a line of one of them.
proof fn lemma_stacked(
    top: Seq<Seq<char>>,
    throughput: Seq<Seq<char>>,
    totals: Seq<Seq<char>>,
    titles: Seq<Seq<char>>,
    rest: Seq<Seq<char>>,
    lines: Seq<Seq<char>>,
)
    requires
        top.len() == 3,
        throughput.len() == 5,
        totals.len() == 5,
        titles.len() == 2,
        rest.len() > 3,
        lines == top + throughput + totals + titles + rest,
    ensures
        lines.len() > 18,
        forall|i: int| 0 <= i < 3 ==> lines[i] == top[i],
        forall|i: int| 3 <= i < 8 ==> lines[i] == throughput[i - 3],
        forall|i: int| 8 <= i < 13 ==> lines[i] == totals[i - 8],
        forall|i: int| 13 <= i < 15 ==> lines[i] == titles[i - 13],
{
}

/// What stands in the lines that do not depend on the snapshot, and which lines the rows are.
proof fn lemma_lines(view: SnapshotView)
    ensures
        ({
            let lines = lines_of(view);
            &&& lines.len() > 18
            &&& lines[0] == "mNIC-CLI live status"@
            &&& lines[1] == output::status_row(view)
            &&& lines[2].len() == 0
            &&& lines[3] == "NIC throughput, last 10s average"@
            &&& lines[4] == output::throughput_heading()
            &&& lines[5] == output::throughput_row(view.nics[0])
            &&& lines[6] == output::throughput_row(view.nics[1])
            &&& lines[7].len() == 0
            &&& lines[8] == "NIC totals since start"@
            &&& lines[9] == output::total_heading()
            &&& lines[10] == output::total_row(view.nics[0])
            &&& lines[11] == output::total_row(view.nics[1])
            &&& lines[12].len() == 0
            &&& lines[13] == "Active connections"@
            &&& lines[14] == output::connection_heading()
        }),
{
    let lines = lines_of(view);
    let titles = seq!["Active connections"@, output::connection_heading()];
    let rows = output::connection_rows(view.active);
    let events = output::event_rows(view.events);
    let rest = rows + seq![seq![], "Recent events"@] + events;
    assert(lines == output::top_lines(view) + output::throughput_lines(view)
        + output::total_lines(view) + titles + rest) by {
        reveal(lines_of);
        assert(output::screen_lines(view) =~= output::top_lines(view) + output::throughput_lines(
            view,
        ) + output::total_lines(view) + titles + rest);
    }
    lemma_stacked(
        output::top_lines(view),
        output::throughput_lines(view),
        output::total_lines(view),
        titles,
        rest,
        lines,
    );
    assert(lines[1] == output::top_lines(view)[1]);
    assert(lines[5] == output::throughput_lines(view)[2]);
    assert(lines[6] == output::throughput_lines(view)[3]);
    assert(lines[10] == output::total_lines(view)[2]);
    assert(lines[11] == output::total_lines(view)[3]);
}

/// Which lines the rows of the table of totals are.
proof fn lemma_total_line(view: SnapshotView, nic_index: int)
    requires
        0 <= nic_index < 2,
    ensures
        lines_of(view)[10 + nic_index] == output::total_row(view.nics[nic_index]),
{
    lemma_lines(view);
}

/// Which lines the rows of the connections are.
proof fn lemma_connection_line(view: SnapshotView, at: int)
    requires
        0 <= at < view.active.len(),
        at < 10,
    ensures
        lines_of(view)[15 + at] == output::connection_row(view.active[at]),
{
    reveal(lines_of);
}

/// The headings of the throughput table.
proof fn lemma_throughput_heading()
    ensures
        output::throughput_heading()
            == "NIC  IP                      TX/s         RX/s  Active  Opened  Failed"@,
        output::throughput_heading().subrange(29, 33) == "TX/s"@,
        output::throughput_heading().subrange(42, 46) == "RX/s"@,
        output::throughput_heading().subrange(48, 54) == "Active"@,
        output::throughput_heading().subrange(56, 62) == "Opened"@,
        output::throughput_heading().subrange(64, 70) == "Failed"@,
{
    let heading = "NIC  IP                      TX/s         RX/s  Active  Opened  Failed"@;
    reveal_strlit(" ");
    reveal_strlit("NIC");
    reveal_strlit("IP");
    reveal_strlit("TX/s");
    reveal_strlit("RX/s");
    reveal_strlit("Active");
    reveal_strlit("Opened");
    reveal_strlit("Failed");
    reveal_strlit("NIC  IP                      TX/s         RX/s  Active  Opened  Failed");
    assert(output::throughput_heading() =~= heading);
    assert(heading.subrange(29, 33) =~= "TX/s"@);
    assert(heading.subrange(42, 46) =~= "RX/s"@);
    assert(heading.subrange(48, 54) =~= "Active"@);
    assert(heading.subrange(56, 62) =~= "Opened"@);
    assert(heading.subrange(64, 70) =~= "Failed"@);
}

/// The headings of the table of totals.
proof fn lemma_total_heading()
    ensures
        output::total_heading() == "NIC  IP                  TX total     RX total"@,
        output::total_heading().subrange(25, 33) == "TX total"@,
        output::total_heading().subrange(38, 46) == "RX total"@,
{
    let heading = "NIC  IP                  TX total     RX total"@;
    reveal_strlit(" ");
    reveal_strlit("NIC");
    reveal_strlit("IP");
    reveal_strlit("TX total");
    reveal_strlit("RX total");
    reveal_strlit("NIC  IP                  TX total     RX total");
    assert(output::total_heading() =~= heading);
    assert(heading.subrange(25, 33) =~= "TX total"@);
    assert(heading.subrange(38, 46) =~= "RX total"@);
}

/// The headings of the table of active connections.
proof fn lemma_connection_heading()
    ensures
        output::connection_heading()
            == "ID    NIC  Kind      Target                                     Age         TX         RX State     "@,
        output::connection_heading().subrange(0, 2) == "ID"@,
        output::connection_heading().subrange(11, 15) == "Kind"@,
        output::connection_heading().subrange(21, 27) == "Target"@,
        output::connection_heading().subrange(64, 67) == "Age"@,
        output::connection_heading().subrange(76, 78) == "TX"@,
        output::connection_heading().subrange(87, 89) == "RX"@,
        output::connection_heading().subrange(90, 95) == "State"@,
{
    let heading =
        "ID    NIC  Kind      Target                                     Age         TX         RX State     "@;
    reveal_strlit(" ");
    reveal_strlit("ID");
    reveal_strlit("NIC");
    reveal_strlit("Kind");
    reveal_strlit("Target");
    reveal_strlit("Age");
    reveal_strlit("TX");
    reveal_strlit("RX");
    reveal_strlit("State");
    reveal_strlit(
        "ID    NIC  Kind      Target                                     Age         TX         RX State     ",
    );
    assert(output::connection_heading() =~= heading);
    assert(heading.subrange(0, 2) =~= "ID"@);
    assert(heading.subrange(11, 15) =~= "Kind"@);
    assert(heading.subrange(21, 27) =~= "Target"@);
    assert(heading.subrange(64, 67) =~= "Age"@);
    assert(heading.subrange(76, 78) =~= "TX"@);
    assert(heading.subrange(87, 89) =~= "RX"@);
    assert(heading.subrange(90, 95) =~= "State"@);
}

/// The screen has its parts one below the other, each under its title, with blank lines between
/// them.
pub proof fn screens_have_four_parts(snapshot: &StatsSnapshot, screen: String)
    requires
        call_ensures(render_snapshot, (snapshot,), screen),
    ensures
        ({
            let lines = lines_of(snapshot@);
            &&& shows(screen@, snapshot@)
            &&& lines.len() > 18
            &&& lines[0] == "mNIC-CLI live status"@
            &&& lines[2].len() == 0
            &&& lines[3] == "NIC throughput, last 10s average"@
            &&& lines[4] == "NIC  IP                      TX/s         RX/s  Active  Opened  Failed"@
            &&& lines[7].len() == 0
            &&& lines[8] == "NIC totals since start"@
            &&& lines[9] == "NIC  IP                  TX total     RX total"@
            &&& lines[12].len() == 0
            &&& lines[13] == "Active connections"@
            &&& lines[14]
                == "ID    NIC  Kind      Target                                     Age         TX         RX State     "@
        }),
{
    lemma_shows(snapshot, screen);
    lemma_lines(snapshot@);
    lemma_throughput_heading();
    lemma_total_heading();
    lemma_connection_heading();
}

/// The second line says where the proxy listens, whether resources are split and how long the
/// proxy has been running.
pub proof fn the_second_line_tells_the_mode(
    snapshot: &StatsSnapshot,
    screen: String,
    address: String,
    time: String,
)
    requires
        call_ensures(render_snapshot, (snapshot,), screen),
        call_ensures(SocketAddr::to_text, (&snapshot.listen,), address),
        call_ensures(format_full_duration, (snapshot.elapsed,), time),
    ensures
        ({
            let lines = lines_of(snapshot@);
            &&& shows(screen@, snapshot@)
            &&& snapshot.range_split_enabled ==> lines[1] == "Listen: "@ + address@
                + "    Range split: "@ + "ON "@ + "   Elapsed: "@ + time@
            &&& !snapshot.range_split_enabled ==> lines[1] == "Listen: "@ + address@
                + "    Range split: "@ + "OFF"@ + "   Elapsed: "@ + time@
        }),
{
    lemma_shows(snapshot, screen);
    lemma_lines(snapshot@);
}

/// In the table of totals the row of an interface says what was sent under the heading for that,
/// and what was received under the other: the twelve characters that end where a heading ends are
/// the amount, behind spaces.
pub proof fn totals_stand_under_their_headings(
    snapshot: &StatsSnapshot,
    screen: String,
    nic_index: int,
    address: String,
    sent: String,
    received: String,
)
    requires
        call_ensures(render_snapshot, (snapshot,), screen),
        0 <= nic_index < 2,
        call_ensures(Ipv4Addr::to_text, (&snapshot.nics@[nic_index].ip,), address),
        call_ensures(human_bytes, (snapshot.nics@[nic_index].total_tx,), sent),
        call_ensures(human_bytes, (snapshot.nics@[nic_index].total_rx,), received),
        snapshot.nics@[nic_index].index < 10,
        sent@.len() <= 12,
        received@.len() <= 12,
    ensures
        ({
            let lines = lines_of(snapshot@);
            let heading = lines[9];
            let row = lines[10 + nic_index];
            &&& shows(screen@, snapshot@)
            &&& heading.subrange(25, 33) == "TX total"@
            &&& heading.subrange(38, 46) == "RX total"@
            &&& right_cell(row, 33, 12, sent@)
            &&& right_cell(row, 46, 12, received@)
            &&& left_cell(row, 5, 15, address@)
            &&& row.len() == 46
            &&& row.take(5) == seq!['['] + text::decimal(snapshot.nics@[nic_index].index as nat)
                + seq![']', ' ', ' ']
        }),
{
    lemma_shows(snapshot, screen);
    lemma_lines(snapshot@);
    lemma_total_heading();
    lemma_total_cells(snapshot.nics@[nic_index]);
}

/// The cells of the row of an interface in the table of totals.
proof fn lemma_total_cells(nic: NicSnapshot)
    requires
        nic.index < 10,
        units::human(nic.total_tx).len() <= 12,
        units::human(nic.total_rx).len() <= 12,
    ensures
        ({
            let row = output::total_row(nic);
            &&& right_cell(row, 33, 12, units::human(nic.total_tx))
            &&& right_cell(row, 46, 12, units::human(nic.total_rx))
            &&& left_cell(row, 5, 15, nic.ip.dotted())
            &&& row.len() == 46
            &&& row.take(5) == seq!['['] + text::decimal(nic.index as nat) + seq![']', ' ', ' ']
        }),
{
    let row = output::total_row(nic);
    lemma_total_row(nic);
    reading::lemma_dotted(nic.ip);
    reading::lemma_decimal_len(nic.index as nat);
    let gap = seq![' '];
    let front = seq!['['] + text::decimal(nic.index as nat) + seq![']', ' ', ' '];
    let ip = front + text::left_aligned(nic.ip.dotted(), 15);
    let tx = ip + gap + text::right_aligned(units::human(nic.total_tx), 12);
    assert(row.take(row.len() as int) =~= row);
    lemma_right_cell(row, tx + gap, units::human(nic.total_rx), 12);
    lemma_begins(row, tx, gap);
    lemma_right_cell(row, ip + gap, units::human(nic.total_tx), 12);
    lemma_begins(row, ip, gap);
    lemma_left_cell(row, front, nic.ip.dotted(), 15);
}

/// The row of an interface in the table of totals is made of its parts.
proof fn lemma_total_row(nic: NicSnapshot)
    ensures
        output::total_row(nic) == seq!['['] + text::decimal(nic.index as nat) + seq![
            ']',
            ' ',
            ' ',
        ] + text::left_aligned(nic.ip.dotted(), 15) + seq![' '] + text::right_aligned(
            units::human(nic.total_tx),
            12,
        ) + seq![' '] + text::right_aligned(units::human(nic.total_rx), 12),
{
    reveal_strlit("[");
    reveal_strlit("]  ");
    reveal_strlit(" ");
    assert("["@ =~= seq!['[']);
    assert("]  "@ =~= seq![']', ' ', ' ']);
    assert(" "@ =~= seq![' ']);
    assert(output::total_row(nic) =~= seq!['['] + text::decimal(nic.index as nat) + seq![
        ']',
        ' ',
        ' ',
    ] + text::left_aligned(nic.ip.dotted(), 15) + seq![' '] + text::right_aligned(
        units::human(nic.total_tx),
        12,
    ) + seq![' '] + text::right_aligned(units::human(nic.total_rx), 12));
}

/// How wide the column of an amount is: twelve characters, or as many as the amount has.
pub open spec fn column_width(amount: Seq<char>) -> int {
    if amount.len() > 12 {
        amount.len() as int
    } else {
        12
    }
}

/// What an interface received stands last in its row of totals, and changes nothing in front of
/// its column, however large the amounts are.
pub proof fn received_totals_change_only_their_column(
    snapshot: &StatsSnapshot,
    other: &StatsSnapshot,
    screen: String,
    other_screen: String,
    nic_index: int,
    received: String,
    other_received: String,
)
    requires
        call_ensures(render_snapshot, (snapshot,), screen),
        call_ensures(render_snapshot, (other,), other_screen),
        0 <= nic_index < 2,
        snapshot.nics@[nic_index].index == other.nics@[nic_index].index,
        snapshot.nics@[nic_index].ip == other.nics@[nic_index].ip,
        snapshot.nics@[nic_index].total_tx == other.nics@[nic_index].total_tx,
        call_ensures(human_bytes, (snapshot.nics@[nic_index].total_rx,), received),
        call_ensures(human_bytes, (other.nics@[nic_index].total_rx,), other_received),
    ensures
        ({
            let row = lines_of(snapshot@)[10 + nic_index];
            let other_row = lines_of(other@)[10 + nic_index];
            let width = column_width(received@);
            let other_width = column_width(other_received@);
            &&& shows(screen@, snapshot@)
            &&& shows(other_screen@, other@)
            &&& row.len() - width == other_row.len() - other_width
            &&& row.take(row.len() - width) == other_row.take(other_row.len() - other_width)
            &&& row.skip(row.len() - received@.len()) == received@
        }),
{
    let one = snapshot.nics@[nic_index];
    let two = other.nics@[nic_index];
    lemma_shows(snapshot, screen);
    lemma_shows(other, other_screen);
    lemma_total_line(snapshot@, nic_index);
    lemma_total_line(other@, nic_index);
    lemma_total_fronts(one, two);
}

/// Two rows of totals that differ in what was received only are the same in front of that.
proof fn lemma_total_fronts(one: NicSnapshot, two: NicSnapshot)
    requires
        one.index == two.index,
        one.ip == two.ip,
        one.total_tx == two.total_tx,
    ensures
        ({
            let row = output::total_row(one);
            let other_row = output::total_row(two);
            let width = column_width(units::human(one.total_rx));
            let other_width = column_width(units::human(two.total_rx));
            &&& row.len() - width == other_row.len() - other_width
            &&& row.take(row.len() - width) == other_row.take(other_row.len() - other_width)
            &&& row.skip(row.len() - units::human(one.total_rx).len()) == units::human(one.total_rx)
        }),
{
    let row = output::total_row(one);
    let other_row = output::total_row(two);
    lemma_total_row(one);
    lemma_total_row(two);
    let cell = text::right_aligned(units::human(one.total_rx), 12);
    let other_cell = text::right_aligned(units::human(two.total_rx), 12);
    let front = seq!['['] + text::decimal(one.index as nat) + seq![']', ' ', ' ']
        + text::left_aligned(one.ip.dotted(), 15) + seq![' '] + text::right_aligned(
        units::human(one.total_tx),
        12,
    ) + seq![' '];
    assert(row == front + cell);
    assert(other_row == front + other_cell);
    assert(row.take(row.len() - cell.len()) =~= front);
    assert(other_row.take(other_row.len() - other_cell.len()) =~= front);
    let text = units::human(one.total_rx);
    assert(row.skip(row.len() - text.len()) =~= text);
}

/// The row of an interface in the throughput table is made of its parts.
proof fn lemma_throughput_row(nic: NicSnapshot)
    ensures
        output::throughput_row(nic) == seq!['['] + text::decimal(nic.index as nat) + seq![
            ']',
            ' ',
            ' ',
        ] + text::left_aligned(nic.ip.dotted(), 15) + seq![' '] + text::right_aligned(
            units::human(nic.tx_per_sec) + "/s"@,
            12,
        ) + seq![' '] + text::right_aligned(
            units::human(nic.rx_per_sec) + "/s"@,
            12,
        ) + seq![' '] + text::right_aligned(text::decimal(nic.active_connections as nat), 7)
            + seq![' '] + text::right_aligned(text::decimal(nic.opened_connections as nat), 7)
            + seq![' '] + text::right_aligned(text::decimal(nic.failed_connections as nat), 7),
{
    reveal_strlit("[");
    reveal_strlit("]  ");
    reveal_strlit(" ");
    assert("["@ =~= seq!['[']);
    assert("]  "@ =~= seq![']', ' ', ' ']);
    assert(" "@ =~= seq![' ']);
    assert(output::throughput_row(nic) =~= seq!['['] + text::decimal(nic.index as nat) + seq![
        ']',
        ' ',
        ' ',
    ] + text::left_aligned(nic.ip.dotted(), 15) + seq![' '] + text::right_aligned(
        units::human(nic.tx_per_sec) + "/s"@,
        12,
    ) + seq![' '] + text::right_aligned(units::human(nic.rx_per_sec) + "/s"@, 12) + seq![
        ' ',
    ] + text::right_aligned(text::decimal(nic.active_connections as nat), 7) + seq![' ']
        + text::right_aligned(text::decimal(nic.opened_connections as nat), 7) + seq![' ']
        + text::right_aligned(text::decimal(nic.failed_connections as nat), 7));
}

/// In the throughput table the row of an interface says under each heading what the heading says:
/// what was sent and received per second, and how many connections are active, were opened and
/// have failed.
pub proof fn throughput_stands_under_its_headings(
    snapshot: &StatsSnapshot,
    screen: String,
    nic_index: int,
    address: String,
    sent: String,
    received: String,
)
    requires
        call_ensures(render_snapshot, (snapshot,), screen),
        0 <= nic_index < 2,
        call_ensures(Ipv4Addr::to_text, (&snapshot.nics@[nic_index].ip,), address),
        call_ensures(human_bytes, (snapshot.nics@[nic_index].tx_per_sec,), sent),
        call_ensures(human_bytes, (snapshot.nics@[nic_index].rx_per_sec,), received),
        snapshot.nics@[nic_index].index < 10,
        sent@.len() <= 10,
        received@.len() <= 10,
        text::decimal(snapshot.nics@[nic_index].active_connections as nat).len() <= 7,
        text::decimal(snapshot.nics@[nic_index].opened_connections as nat).len() <= 7,
        text::decimal(snapshot.nics@[nic_index].failed_connections as nat).len() <= 7,
    ensures
        ({
            let lines = lines_of(snapshot@);
            let nic = snapshot.nics@[nic_index];
            let heading = lines[4];
            let row = lines[5 + nic_index];
            &&& shows(screen@, snapshot@)
            &&& heading.subrange(29, 33) == "TX/s"@
            &&& heading.subrange(42, 46) == "RX/s"@
            &&& heading.subrange(48, 54) == "Active"@
            &&& heading.subrange(56, 62) == "Opened"@
            &&& heading.subrange(64, 70) == "Failed"@
            &&& right_cell(row, 33, 12, sent@ + "/s"@)
            &&& right_cell(row, 46, 12, received@ + "/s"@)
            &&& right_cell(row, 54, 7, text::decimal(nic.active_connections as nat))
            &&& right_cell(row, 62, 7, text::decimal(nic.opened_connections as nat))
            &&& right_cell(row, 70, 7, text::decimal(nic.failed_connections as nat))
            &&& left_cell(row, 5, 15, address@)
            &&& row.len() == 70
            &&& row.take(5) == seq!['['] + text::decimal(nic.index as nat) + seq![']', ' ', ' ']
        }),
{
    lemma_shows(snapshot, screen);
    lemma_lines(snapshot@);
    lemma_throughput_heading();
    reveal_strlit("/s");
    lemma_throughput_cells(snapshot.nics@[nic_index]);
}

/// The cells of the row of an interface in the throughput table.
proof fn lemma_throughput_cells(nic: NicSnapshot)
    requires
        nic.index < 10,
        (units::human(nic.tx_per_sec) + "/s"@).len() <= 12,
        (units::human(nic.rx_per_sec) + "/s"@).len() <= 12,
        text::decimal(nic.active_connections as nat).len() <= 7,
        text::decimal(nic.opened_connections as nat).len() <= 7,
        text::decimal(nic.failed_connections as nat).len() <= 7,
    ensures
        ({
            let row = output::throughput_row(nic);
            &&& right_cell(row, 33, 12, units::human(nic.tx_per_sec) + "/s"@)
            &&& right_cell(row, 46, 12, units::human(nic.rx_per_sec) + "/s"@)
            &&& right_cell(row, 54, 7, text::decimal(nic.active_connections as nat))
            &&& right_cell(row, 62, 7, text::decimal(nic.opened_connections as nat))
            &&& right_cell(row, 70, 7, text::decimal(nic.failed_connections as nat))
            &&& left_cell(row, 5, 15, nic.ip.dotted())
            &&& row.len() == 70
            &&& row.take(5) == seq!['['] + text::decimal(nic.index as nat) + seq![']', ' ', ' ']
        }),
{
    let row = output::throughput_row(nic);
    lemma_throughput_row(nic);
    reading::lemma_dotted(nic.ip);
    reading::lemma_decimal_len(nic.index as nat);
    let gap = seq![' '];
    let sent = units::human(nic.tx_per_sec) + "/s"@;
    let received = units::human(nic.rx_per_sec) + "/s"@;
    let front = seq!['['] + text::decimal(nic.index as nat) + seq![']', ' ', ' '];
    let ip = front + text::left_aligned(nic.ip.dotted(), 15);
    let tx = ip + gap + text::right_aligned(sent, 12);
    let rx = tx + gap + text::right_aligned(received, 12);
    let active = rx + gap + text::right_aligned(text::decimal(nic.active_connections as nat), 7);
    let opened = active + gap + text::right_aligned(
        text::decimal(nic.opened_connections as nat),
        7,
    );
    assert(row.take(row.len() as int) =~= row);
    lemma_right_cell(row, opened + gap, text::decimal(nic.failed_connections as nat), 7);
    lemma_begins(row, opened, gap);
    lemma_right_cell(row, active + gap, text::decimal(nic.opened_connections as nat), 7);
    lemma_begins(row, active, gap);
    lemma_right_cell(row, rx + gap, text::decimal(nic.active_connections as nat), 7);
    lemma_begins(row, rx, gap);
    lemma_right_cell(row, tx + gap, received, 12);
    lemma_begins(row, tx, gap);
    lemma_right_cell(row, ip + gap, sent, 12);
    lemma_begins(row, ip, gap);
    lemma_left_cell(row, front, nic.ip.dotted(), 15);
}

/// The row of a connection is made of its parts.
proof fn lemma_connection_row(connection: ConnectionSnapshotView)
    ensures
        output::connection_row(connection) == text::left_aligned(
            text::decimal(connection.id as nat),
            5,
        ) + seq![' ', '['] + text::left_aligned(text::decimal(connection.nic_index as nat), 1)
            + seq![']', ' ', ' '] + text::left_aligned(output::truncated(connection.kind, 9), 9)
            + seq![' '] + text::left_aligned(output::truncated(connection.target, 38), 38) + seq![
            ' ',
        ] + text::right_aligned(clock::compact(connection.age), 7) + seq![' ']
            + text::right_aligned(units::human(connection.tx), 10) + seq![' ']
            + text::right_aligned(units::human(connection.rx), 10) + seq![' ']
            + text::left_aligned(output::truncated(connection.state, 10), 10),
{
    reveal_strlit(" [");
    reveal_strlit("]  ");
    reveal_strlit(" ");
    assert(" ["@ =~= seq![' ', '[']);
    assert("]  "@ =~= seq![']', ' ', ' ']);
    assert(" "@ =~= seq![' ']);
    assert(output::connection_row(connection) =~= text::left_aligned(
        text::decimal(connection.id as nat),
        5,
    ) + seq![' ', '['] + text::left_aligned(text::decimal(connection.nic_index as nat), 1) + seq![
        ']',
        ' ',
        ' ',
    ] + text::left_aligned(output::truncated(connection.kind, 9), 9) + seq![' ']
        + text::left_aligned(output::truncated(connection.target, 38), 38) + seq![' ']
        + text::right_aligned(clock::compact(connection.age), 7) + seq![' ']
        + text::right_aligned(units::human(connection.tx), 10) + seq![' ']
        + text::right_aligned(units::human(connection.rx), 10) + seq![' ']
        + text::left_aligned(output::truncated(connection.state, 10), 10));
}

/// In the table of active connections the row of each of the first ten says under each heading
/// what the heading says, with long texts cut to their column.
pub proof fn connections_stand_under_their_headings(
    snapshot: &StatsSnapshot,
    screen: String,
    at: int,
    kind: String,
    target: String,
    age: String,
    sent: String,
    received: String,
    state: String,
    kind_text: &str,
    target_text: &str,
    state_text: &str,
)
    requires
        call_ensures(render_snapshot, (snapshot,), screen),
        0 <= at < snapshot.active_connections@.len(),
        at < 10,
        ({
            let connection = snapshot.active_connections@[at];
            &&& kind_text@ == connection.kind@ && call_ensures(truncate, (kind_text, 9usize), kind)
            &&& target_text@ == connection.target@ && call_ensures(
                truncate,
                (target_text, 38usize),
                target,
            )
            &&& state_text@ == connection.state@ && call_ensures(
                truncate,
                (state_text, 10usize),
                state,
            )
            &&& call_ensures(format_compact_duration, (connection.age,), age)
            &&& call_ensures(human_bytes, (connection.tx,), sent)
            &&& call_ensures(human_bytes, (connection.rx,), received)
            &&& text::decimal(connection.id as nat).len() <= 5
            &&& connection.nic_index < 10
        }),
        age@.len() <= 7,
        sent@.len() <= 10,
        received@.len() <= 10,
    ensures
        ({
            let lines = lines_of(snapshot@);
            let connection = snapshot.active_connections@[at];
            let heading = lines[14];
            let row = lines[15 + at];
            &&& shows(screen@, snapshot@)
            &&& heading.subrange(0, 2) == "ID"@
            &&& heading.subrange(11, 15) == "Kind"@
            &&& heading.subrange(21, 27) == "Target"@
            &&& heading.subrange(64, 67) == "Age"@
            &&& heading.subrange(76, 78) == "TX"@
            &&& heading.subrange(87, 89) == "RX"@
            &&& heading.subrange(90, 95) == "State"@
            &&& left_cell(row, 0, 5, text::decimal(connection.id as nat))
            &&& left_cell(row, 7, 1, text::decimal(connection.nic_index as nat))
            &&& left_cell(row, 11, 9, kind@)
            &&& left_cell(row, 21, 38, target@)
            &&& right_cell(row, 67, 7, age@)
            &&& right_cell(row, 78, 10, sent@)
            &&& right_cell(row, 89, 10, received@)
            &&& left_cell(row, 90, 10, state@)
            &&& row.len() == 100
        }),
{
    let connection = snapshot@.active[at];
    lemma_shows(snapshot, screen);
    lemma_lines(snapshot@);
    lemma_connection_line(snapshot@, at);
    lemma_connection_heading();
    laws::cut_texts_fit(connection.kind, 9);
    laws::cut_texts_fit(connection.target, 38);
    laws::cut_texts_fit(connection.state, 10);
    lemma_connection_cells(connection);
}

/// The cells of the row of a connection.
proof fn lemma_connection_cells(connection: ConnectionSnapshotView)
    requires
        text::decimal(connection.id as nat).len() <= 5,
        connection.nic_index < 10,
        output::truncated(connection.kind, 9).len() <= 9,
        output::truncated(connection.target, 38).len() <= 38,
        output::truncated(connection.state, 10).len() <= 10,
        clock::compact(connection.age).len() <= 7,
        units::human(connection.tx).len() <= 10,
        units::human(connection.rx).len() <= 10,
    ensures
        ({
            let row = output::connection_row(connection);
            &&& left_cell(row, 0, 5, text::decimal(connection.id as nat))
            &&& left_cell(row, 7, 1, text::decimal(connection.nic_index as nat))
            &&& left_cell(row, 11, 9, output::truncated(connection.kind, 9))
            &&& left_cell(row, 21, 38, output::truncated(connection.target, 38))
            &&& right_cell(row, 67, 7, clock::compact(connection.age))
            &&& right_cell(row, 78, 10, units::human(connection.tx))
            &&& right_cell(row, 89, 10, units::human(connection.rx))
            &&& left_cell(row, 90, 10, output::truncated(connection.state, 10))
            &&& row.len() == 100
        }),
{
    let row = output::connection_row(connection);
    lemma_connection_row(connection);
    reading::lemma_decimal_len(connection.nic_index as nat);
    let gap = seq![' '];
    let number = text::decimal(connection.id as nat);
    let place = text::decimal(connection.nic_index as nat);
    let kinds = output::truncated(connection.kind, 9);
    let targets = output::truncated(connection.target, 38);
    let states = output::truncated(connection.state, 10);
    let age = clock::compact(connection.age);
    let sent = units::human(connection.tx);
    let received = units::human(connection.rx);
    let id = text::left_aligned(number, 5);
    let nic = id + seq![' ', '['] + text::left_aligned(place, 1);
    let kind = nic + seq![']', ' ', ' '] + text::left_aligned(kinds, 9);
    let target = kind + gap + text::left_aligned(targets, 38);
    let ages = target + gap + text::right_aligned(age, 7);
    let tx = ages + gap + text::right_aligned(sent, 10);
    let rx = tx + gap + text::right_aligned(received, 10);
    assert(row.take(row.len() as int) =~= row);
    lemma_left_cell(row, rx + gap, states, 10);
    lemma_begins(row, rx, gap);
    lemma_right_cell(row, tx + gap, received, 10);
    lemma_begins(row, tx, gap);
    lemma_right_cell(row, ages + gap, sent, 10);
    lemma_begins(row, ages, gap);
    lemma_right_cell(row, target + gap, age, 7);
    lemma_begins(row, target, gap);
    lemma_left_cell(row, kind + gap, targets, 38);
    lemma_begins(row, kind, gap);
    lemma_left_cell(row, nic + seq![']', ' ', ' '], kinds, 9);
    lemma_begins(row, nic, seq![']', ' ', ' ']);
    lemma_left_cell(row, id + seq![' ', '['], place, 1);
    lemma_begins(row, id, seq![' ', '[']);
    assert(Seq::<char>::empty() + id =~= id);
    lemma_left_cell(row, Seq::empty(), number, 5);
}

/// How many lines the active connections take up.
pub open spec fn connection_line_count(count: int) -> int {
    if count == 0 {
        1
    } else if count <= 10 {
        count
    } else {
        11
    }
}

/// Where no connection is active the screen says so, and where there are more than ten it says how
/// many more there are.
pub proof fn connections_beyond_ten_are_counted(snapshot: &StatsSnapshot, screen: String)
    requires
        call_ensures(render_snapshot, (snapshot,), screen),
    ensures
        ({
            let lines = lines_of(snapshot@);
            let count = snapshot.active_connections@.len() as int;
            &&& shows(screen@, snapshot@)
            &&& count == 0 ==> lines[15] == "(none)"@
            &&& count > 10 ==> lines[25] == "... "@ + text::decimal((count - 10) as nat)
                + " more active connection(s)"@
            &&& lines[15 + connection_line_count(count)].len() == 0
            &&& lines[16 + connection_line_count(count)] == "Recent events"@
        }),
{
    lemma_shows(snapshot, screen);
    reveal(lines_of);
}

/// Below everything stand the latest events, five at most, the latest last, and nothing else.
pub proof fn the_latest_events_stand_last(snapshot: &StatsSnapshot, screen: String, back: int)
    requires
        call_ensures(render_snapshot, (snapshot,), screen),
    ensures
        ({
            let lines = lines_of(snapshot@);
            let events = snapshot.recent_events@;
            let above = 17 + connection_line_count(snapshot.active_connections@.len() as int);
            &&& shows(screen@, snapshot@)
            &&& events.len() == 0 ==> lines.len() == above + 1 && lines[above] == "(none)"@
            &&& events.len() > 0 ==> lines.len() == above + if events.len() < 5 {
                events.len() as int
            } else {
                5
            }
            &&& 0 < back <= 5 && back <= events.len() ==> lines[lines.len() - back]
                == events[events.len() - back]@
        }),
{
    lemma_shows(snapshot, screen);
    reveal(lines_of);
    assert(snapshot@.events.len() == snapshot.recent_events@.len());
    if 0 < back <= 5 && back <= snapshot.recent_events@.len() {
        let events = snapshot.recent_events@;
        assert(snapshot@.events[events.len() - back] == events[events.len() - back]@);
    }
}

/// A text that fits into a width is left as it is, and a longer one is cut so that it fits, its
/// beginning kept and a tilde put for the rest.
pub proof fn long_texts_are_cut_at_their_end(value: &str, width: usize, text: String)
    requires
        call_ensures(truncate, (value, width), text),
    ensures
        value@.len() <= width ==> text@ == value@,
        value@.len() > width > 0 ==> text@.len() == width && text@.last() == '~' && text@.drop_last()
            == value@.take(width - 1),
        value@.len() > width && width == 0 ==> text@ == seq!['~'],
{
    if value@.len() > width && width > 0 {
        assert(text@.drop_last() =~= value@.take(width - 1));
    }
    if value@.len() > width && width == 0 {
        assert(text@ =~= seq!['~']);
    }
}

} // verus!
